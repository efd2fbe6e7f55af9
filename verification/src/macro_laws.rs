//! What the use of a macro comes to.
use crate::assembly::{AssemblyV, Inputs};
use crate::compiler::{
    next_function, next_span, with_body, with_instr, with_span, ArrayMacroV, CompilerV, EnvV,
    ScopeKind, ScopeV, StackMacroV,
};
use crate::eco::bytes_of;
use crate::env::prepared_env;
use crate::expand::macro_expanded;
use crate::instr::{Function, Instr};
use crate::item::Item;
use crate::macros::{
    array_macro_used, expansion_compiled, is_macro_code, is_macro_stack, is_operand_text,
    is_row_text, is_rows_code, low_byte, macro_called, macro_code_compiled, macro_evaluated,
    macro_run, operand_signatures, operand_texts, row_requirement, rows_are, run_operands,
    signatures_read, stack_macro_used,
};
use crate::message::{Message, ParseError, UiuaError, UiuaResult};
use crate::names::LocalName;
use crate::outcome::{
    code_added, fits, function_added, is_span, lemma_code_added, lemma_function_pushed,
    only_code_differs,
};
use crate::pack_laws::are_functions;
use crate::prim::Signature;
use crate::quote::{
    is_syntax_failure, item_done, items_compiled, items_done, line_done, lines_compiled, quoted,
    with_inputs,
};
use crate::scope::{scope_entered, scope_left};
use crate::span::{merged, CodeSpan, InputSrc, Sp};
use crate::table::Expansion;
use crate::text::{operand_chars, rows_joined};
use crate::toolchain::{
    did_as_string, did_binding, did_call_function, did_compile_operand_word, did_compile_words,
    did_format_word, did_import, did_into_rows, did_parse, did_run_top_slices, did_sig_of,
    did_words, Toolchain,
};
use crate::value::{is_boxed_texts, is_byte_pairs, is_text, Value};
use crate::word::{code_words, lines_view, FunctionId, ModifiedV, WordV};
use vstd::prelude::*;

verus! {

/// A temporary scope is entered with the given names and nothing else of its own but what is
/// enabled around it. The scope that was current is the innermost one around it, and everything
/// else is as it was.
pub proof fn law_temporary_scope_entered(v: CompilerV, names: Seq<(Seq<char>, LocalName)>)
    ensures
        ({
            let w = scope_entered(v, names);
            &&& w.scope.kind == ScopeKind::Temp
            &&& w.scope.names == names
            &&& w.scope.experimental == v.scope.experimental
            &&& w.scope.bind_locals.len() == 0
            &&& w.higher_scopes.len() == v.higher_scopes.len() + 1
            &&& w.higher_scopes.last() == v.scope
            &&& w.higher_scopes.drop_last() == v.higher_scopes
            &&& v == (CompilerV { scope: v.scope, higher_scopes: v.higher_scopes, ..w })
        }),
{
    let w = scope_entered(v, names);
    assert(w.higher_scopes.drop_last() =~= v.higher_scopes);
}

/// When a temporary scope is left, the innermost scope around it is the current one again. Only its
/// names can have changed.
pub proof fn law_temporary_scope_left(w: CompilerV, given: Seq<(Seq<char>, LocalName)>)
    requires
        w.higher_scopes.len() > 0,
    ensures
        ({
            let x = scope_left(w, given);
            let outer = w.higher_scopes[w.higher_scopes.len() - 1];
            &&& x.scope == (ScopeV { names: x.scope.names, ..outer })
            &&& x.higher_scopes.len() == w.higher_scopes.len() - 1
            &&& forall|i: int|
                0 <= i < x.higher_scopes.len() ==> x.higher_scopes[i] == w.higher_scopes[i]
            &&& x == (CompilerV { scope: x.scope, higher_scopes: x.higher_scopes, ..w })
        }),
{
}

/// What is left of a macro in the end: a function with its name, code and signature, which is
/// called where the macro is, at its place.
pub open spec fn macro_left(
    x: CompilerV,
    w: CompilerV,
    name: String,
    sig: Signature,
    code: Seq<Instr>,
    span: CodeSpan,
    call: bool,
) -> bool {
    &&& only_code_differs(x, w)
    &&& w.diagnostics == x.diagnostics
    &&& exists|pushed: CompilerV|
        {
            &&& #[trigger] function_added(x, pushed, FunctionId::Named(name), sig, code)
            &&& if call {
                exists|n: usize| #[trigger]
                    is_span(w, n, span) && code_added(pushed, w, seq![Instr::Call(n)])
            } else {
                w == pushed
            }
        }
}

proof fn lemma_macro_left(
    x: CompilerV,
    name: String,
    sig: Signature,
    code: Seq<Instr>,
    span: CodeSpan,
    call: bool,
)
    requires
        fits(macro_called(x, name, sig, code, span, call)),
    ensures
        macro_left(x, macro_called(x, name, sig, code, span, call), name, sig, code, span, call),
{
    let w = macro_called(x, name, sig, code, span, call);
    let f = next_function(x, FunctionId::Named(name), sig, code);
    let pushed = with_instr(with_body(x, code), Instr::PushFunc(f));
    assert(w.assembly.instrs.len() >= pushed.assembly.instrs.len());
    assert(w.assembly.spans.len() >= pushed.assembly.spans.len());
    lemma_function_pushed(x, FunctionId::Named(name), sig, code);
    if call {
        lemma_code_added(with_span(pushed, span), seq![Instr::Call(next_span(pushed))]);
        assert(is_span(w, next_span(pushed), span));
    }
}

/// A macro that is expanded word by word: its words are expanded on the operands, and what comes
/// out is compiled, to be called, in a temporary scope with the names of the macro. That code is
/// made into a function with the name of the macro and the signature that the code has.
pub proof fn law_stack_macro_compiled<T: Toolchain>(
    t: &T,
    v: CompilerV,
    name: String,
    mac: StackMacroV,
    m: ModifiedV,
    call: bool,
    w: CompilerV,
    res: UiuaResult<()>,
)
    requires
        fits(w),
        stack_macro_used(t, v, name, mac, m, call, w, res),
        res is Ok,
    ensures
        exists|
            u: CompilerV,
            words: Seq<Sp<WordV>>,
            out: UiuaResult<()>,
            y: CompilerV,
            code: Vec<Instr>,
            sig: Signature,
        |
            #![trigger
                macro_expanded(t, v, name, mac.words, m.operands, m.modifier.span, u, words, out),
                did_compile_words(t, scope_entered(u, mac.names), words, true, y, Ok(code)),
                did_sig_of(t, scope_left(y, mac.names), code@, m.modifier.span, Ok(sig))
            ]
            {
                &&& macro_expanded(
                    t,
                    v,
                    name,
                    mac.words,
                    m.operands,
                    m.modifier.span,
                    u,
                    words,
                    out,
                )
                &&& out is Ok
                &&& did_compile_words(t, scope_entered(u, mac.names), words, true, y, Ok(code))
                &&& did_sig_of(t, scope_left(y, mac.names), code@, m.modifier.span, Ok(sig))
                &&& macro_left(
                    scope_left(y, mac.names),
                    w,
                    name,
                    sig,
                    code@,
                    m.modifier.span,
                    call,
                )
            },
{
    let span = m.modifier.span;
    let (u, words, out) = choose|u: CompilerV, words: Seq<Sp<WordV>>, out: UiuaResult<()>|
        #[trigger]
        macro_expanded(t, v, name, mac.words, m.operands, span, u, words, out) && out is Ok
            && expansion_compiled(t, u, name, mac.names, words, span, call, w, res);
    let (y, compiled) = choose|y: CompilerV, compiled: UiuaResult<Vec<Instr>>| #[trigger]
        did_compile_words(t, scope_entered(u, mac.names), words, true, y, compiled)
            && match compiled {
            Err(_) => false,
            Ok(code) => exists|sig: UiuaResult<Signature>| #[trigger]
                did_sig_of(t, scope_left(y, mac.names), code@, span, sig) && match sig {
                    Err(_) => false,
                    Ok(sig) => w == macro_called(
                        scope_left(y, mac.names),
                        name,
                        sig,
                        code@,
                        span,
                        call,
                    ),
                },
        };
    let code = compiled->Ok_0;
    let x = scope_left(y, mac.names);
    let sig = choose|sig: UiuaResult<Signature>| #[trigger]
        did_sig_of(t, x, code@, span, sig) && match sig {
            Err(_) => false,
            Ok(sig) => w == macro_called(x, name, sig, code@, span, call),
        };
    lemma_macro_left(x, name, sig->Ok_0, code@, span, call);
    assert(did_compile_words(t, scope_entered(u, mac.names), words, true, y, Ok(code)));
    assert(did_sig_of(t, x, code@, span, Ok(sig->Ok_0)));
}

/// A macro that is run is run on its operands that are code, in order. Where that is a single pack,
/// it is run on the functions in the pack.
pub proof fn law_run_operands(m: ModifiedV)
    ensures
        ({
            let words = code_words(m.operands);
            if words.len() == 1 && words[0].value is Switch {
                are_functions(run_operands(m), words[0].value->Switch_0.branches)
            } else {
                run_operands(m) == words
            }
        }),
{
}

/// Operands were compiled one after the other, each from where the one before left the compiler.
pub open spec fn compiled_in_turn<T: Toolchain>(
    t: &T,
    operands: Seq<Sp<WordV>>,
    states: Seq<CompilerV>,
    sigs: Seq<Signature>,
) -> bool {
    &&& sigs.len() == operands.len()
    &&& states.len() == operands.len() + 1
    &&& forall|i: int|
        0 <= i < operands.len() ==> operand_in_turn(
            t,
            states[i],
            #[trigger] operands[i],
            states[i + 1],
            sigs[i],
        )
}

pub open spec fn operand_in_turn<T: Toolchain>(
    t: &T,
    v: CompilerV,
    operand: Sp<WordV>,
    w: CompilerV,
    sig: Signature,
) -> bool {
    exists|code: Vec<Instr>| #[trigger]
        did_compile_operand_word(t, v, operand, w, Ok((code, sig)))
}

/// Bytes are those of signatures, two for each: its arguments, and then its outputs.
pub open spec fn are_signature_bytes(data: Seq<u8>, sigs: Seq<Signature>) -> bool {
    &&& data.len() == 2 * sigs.len()
    &&& forall|i: int|
        0 <= i < sigs.len() ==> {
            &&& data[2 * i] as int == (#[trigger] sigs[i]).args as int % 256
            &&& data[2 * i + 1] as int == sigs[i].outputs as int % 256
        }
}

proof fn lemma_signatures_read<T: Toolchain>(
    t: &T,
    v: CompilerV,
    operands: Seq<Sp<WordV>>,
    w: CompilerV,
    data: Seq<u8>,
) -> (out: (Seq<CompilerV>, Seq<Signature>))
    requires
        signatures_read(t, v, operands, w, data),
    ensures
        compiled_in_turn(t, operands, out.0, out.1),
        out.0[0] == v,
        out.0.last() == w,
        are_signature_bytes(data, out.1),
    decreases operands.len(),
{
    if operands.len() == 0 {
        (seq![v], Seq::empty())
    } else {
        let fewer = operands.drop_last();
        let before = data.take(data.len() - 2);
        let (mid, code, sig) = choose|mid: CompilerV, code: Vec<Instr>, sig: Signature| #[trigger]
            did_compile_operand_word(t, mid, operands.last(), w, Ok((code, sig)))
                && signatures_read(t, v, fewer, mid, before) && data == before + seq![
                low_byte(sig.args),
                low_byte(sig.outputs),
            ];
        let (states, sigs) = lemma_signatures_read(t, v, fewer, mid, before);
        let all = states.push(w);
        let all_sigs = sigs.push(sig);
        assert forall|i: int| 0 <= i < operands.len() implies operand_in_turn(
            t,
            all[i],
            #[trigger] operands[i],
            all[i + 1],
            all_sigs[i],
        ) by {
            if i < fewer.len() {
                assert(operand_in_turn(t, states[i], fewer[i], states[i + 1], sigs[i]));
            } else {
                assert(did_compile_operand_word(t, mid, operands.last(), w, Ok((code, sig))));
            }
        }
        assert forall|i: int| 0 <= i < all_sigs.len() implies data[2 * i] as int == (
        #[trigger] all_sigs[i]).args as int % 256 && data[2 * i + 1] as int
            == all_sigs[i].outputs as int % 256 by {
            if i < sigs.len() {
                assert(all_sigs[i] == sigs[i]);
                assert(data[2 * i] == before[2 * i]);
                assert(data[2 * i + 1] == before[2 * i + 1]);
            }
        }
        (all, all_sigs)
    }
}

/// A macro whose function takes two arguments is given the signatures of its operands, as a table
/// with a row for each operand in order: the number of its arguments, and that of its outputs. The
/// operands are compiled for that one after the other. Any other macro is not given them.
pub proof fn law_macro_is_given_signatures<T: Toolchain>(
    t: &T,
    v: CompilerV,
    function: Function,
    operands: Seq<Sp<WordV>>,
    res: UiuaResult<Option<Value>>,
)
    requires
        operand_signatures(t, v, function, operands, res),
    ensures
        function.sig.args != 2 ==> res == Ok::<Option<Value>, UiuaError>(None),
        function.sig.args == 2 && res is Ok ==> {
            &&& res->Ok_0 matches Some(Value::Byte(array))
            &&& array.shape@ == seq![operands.len() as usize, 2]
            &&& exists|states: Seq<CompilerV>, sigs: Seq<Signature>| #[trigger]
                compiled_in_turn(t, operands, states, sigs) && states[0] == v
                    && are_signature_bytes(bytes_of(array.data), sigs)
        },
        res matches Err(e) ==> exists|
            i: int,
            states: Seq<CompilerV>,
            sigs: Seq<Signature>,
            w: CompilerV,
        |
            #![trigger
                compiled_in_turn(t, operands.take(i), states, sigs),
                did_compile_operand_word(t, states.last(), operands[i], w, Err(e))
            ]
            0 <= i < operands.len() && compiled_in_turn(t, operands.take(i), states, sigs)
                && states[0] == v && did_compile_operand_word(
                t,
                states.last(),
                operands[i],
                w,
                Err(e),
            ),
{
    if function.sig.args == 2 {
        match res {
            Ok(Some(value)) => {
                let (w, data) = choose|w: CompilerV, data: Seq<u8>| #[trigger]
                    signatures_read(t, v, operands, w, data)
                        && is_byte_pairs(value, operands.len(), data);
                let (states, sigs) = lemma_signatures_read(t, v, operands, w, data);
                assert(compiled_in_turn(t, operands, states, sigs));
            },
            Err(e) => {
                let (i, mid, w, data) = choose|
                    i: int,
                    mid: CompilerV,
                    w: CompilerV,
                    data: Seq<u8>,
                | #[trigger]
                    did_compile_operand_word(t, mid, operands[i], w, Err(e))
                        && #[trigger] signatures_read(t, v, operands.take(i), mid, data) && 0 <= i
                        < operands.len();
                let (states, sigs) = lemma_signatures_read(t, v, operands.take(i), mid, data);
                assert(compiled_in_turn(t, operands.take(i), states, sigs));
                assert(did_compile_operand_word(t, states.last(), operands[i], w, Err(e)));
            },
            _ => {},
        }
    }
}

/// The function of a macro is called on a stack whose top is the list of the texts of the operands,
/// each in a box and in order, with the table of signatures below it where there is one, on what
/// was there before.
pub proof fn law_macro_stack(
    before: Seq<Value>,
    sigs: Option<Value>,
    texts: Seq<Seq<char>>,
    stack: Seq<Value>,
)
    requires
        is_macro_stack(before, sigs, texts, stack),
    ensures
        stack.len() > 0,
        stack.last() matches Value::Boxes(array) && array.data@.len() == texts.len()
            && array.shape@ == seq![texts.len() as usize] && forall|i: int|
            0 <= i < texts.len() ==> ((#[trigger] array.data@[i]).0 matches Value::Char(chars)
                && chars.data@ == texts[i] && chars.shape@ == seq![texts[i].len() as usize]),
        match sigs {
            Some(table) => stack.drop_last() == before.push(table),
            None => stack.drop_last() == before,
        },
{
    let value = choose|value: Value| #[trigger]
        is_boxed_texts(value, texts) && stack == match sigs {
            Some(table) => before.push(table).push(value),
            None => before.push(value),
        };
    match sigs {
        Some(table) => {
            assert(stack.drop_last() =~= before.push(table));
        },
        None => {
            assert(stack.drop_last() =~= before);
        },
    }
    let array = value->Boxes_0;
    assert forall|i: int| 0 <= i < texts.len() implies ((
    #[trigger] array.data@[i]).0 matches Value::Char(chars) && chars.data@ == texts[i]
        && chars.shape@ == seq![texts[i].len() as usize]) by {
        assert(is_text(array.data@[i].0, texts[i]));
    }
}

/// The run of a macro that makes code: its function was called, once, on the operands, and left a
/// value on top, which is taken and read as code.
pub proof fn law_macro_result_is_taken<T: Toolchain>(
    t: &T,
    env: EnvV,
    function: Function,
    sigs: Option<Value>,
    texts: Seq<Seq<char>>,
    end: EnvV,
    res: UiuaResult<String>,
)
    requires
        macro_run(t, env, function, sigs, texts, end, res),
        res is Ok,
    ensures
        exists|stack: Seq<Value>, value: Value, called: UiuaResult<()>|
            #![trigger
                did_call_function(
                    t,
                    EnvV { stack, ..env },
                    function,
                    EnvV { stack: end.stack.push(value), ..end },
                    called,
                )
            ]
            {
                &&& is_macro_stack(env.stack, sigs, texts, stack)
                &&& did_call_function(
                    t,
                    EnvV { stack, ..env },
                    function,
                    EnvV { stack: end.stack.push(value), ..end },
                    called,
                )
                &&& called is Ok
                &&& is_macro_code(t, end, value, res)
            },
{
    let (stack, after, called) = choose|stack: Seq<Value>, after: EnvV, called: UiuaResult<()>|
        #[trigger]
        did_call_function(t, EnvV { stack, ..env }, function, after, called) && is_macro_stack(
            env.stack,
            sigs,
            texts,
            stack,
        ) && called is Ok && after.stack.len() > 0 && end == (EnvV {
            stack: after.stack.drop_last(),
            ..after
        }) && is_macro_code(t, end, after.stack.last(), res);
    let value = after.stack.last();
    assert(end.stack.push(value) =~= after.stack);
    assert(after == (EnvV { stack: end.stack.push(value), ..end }));
}

/// The value that a macro came to is read as a whole where it is a text. Else its rows are texts,
/// and they are joined in order.
pub proof fn law_macro_code<T: Toolchain>(
    t: &T,
    env: EnvV,
    value: Value,
    code: String,
)
    requires
        is_macro_code(t, env, value, Ok(code)),
    ensures
        did_as_string(t, env, value, ""@, Ok(code)) || exists|
            e: UiuaError,
            rows: Vec<Value>,
            texts: Seq<Seq<char>>,
        |
            #![trigger
                did_as_string(t, env, value, ""@, Err(e)),
                did_into_rows(t, value, rows),
                rows_joined(texts)
            ]
            {
                &&& did_as_string(t, env, value, ""@, Err(e))
                &&& did_into_rows(t, value, rows)
                &&& texts.len() == rows@.len()
                &&& forall|i: int|
                    0 <= i < texts.len() ==> is_row_text(t, env, rows@[i], #[trigger] texts[i])
                &&& code@ == rows_joined(texts)
            },
{
    let whole = choose|whole: UiuaResult<String>| #[trigger]
        did_as_string(t, env, value, ""@, whole) && match whole {
            Ok(s) => s == code,
            Err(_) => exists|rows: Vec<Value>| #[trigger]
                did_into_rows(t, value, rows) && is_rows_code(t, env, rows@, Ok(code)),
        };
    if let Err(e) = whole {
        let rows = choose|rows: Vec<Value>| #[trigger]
            did_into_rows(t, value, rows) && is_rows_code(t, env, rows@, Ok(code));
        let texts = choose|texts: Seq<Seq<char>>| #[trigger]
            rows_are(t, env, rows@, texts) && code@ == rows_joined(texts);
        assert(did_as_string(t, env, value, ""@, Err(e)));
        assert(did_into_rows(t, value, rows));
    }
}

/// A macro that is run with success: it is given the signatures of its operands where it takes
/// them, and their texts. The runtime of macros is got ready and the function of the macro is
/// called in it. The code that it makes is noted as its expansion, for the place from the macro to
/// its last operand, and compiled in a temporary scope with the names of the macro. The compilation
/// of the operands for their signatures leaves no trace.
pub proof fn law_array_macro_compiled<T: Toolchain>(
    t: &T,
    v: CompilerV,
    name: String,
    mac: ArrayMacroV,
    m: ModifiedV,
    call: bool,
    w: CompilerV,
    res: UiuaResult<()>,
)
    requires
        array_macro_used(t, v, name, mac, m, call, w, res),
        res is Ok,
    ensures
        exists|
            sigs: Option<Value>,
            texts: Seq<Seq<char>>,
            env: EnvV,
            ready: UiuaResult<()>,
            end: EnvV,
            text: String,
            noted: CompilerV,
            y: CompilerV,
        |
            #![trigger
                operand_signatures(t, v, mac.function, run_operands(m), Ok(sigs)),
                did_run_top_slices(t, prepared_env(v), env, ready),
                macro_run(t, env, mac.function, sigs, texts, end, Ok(text)),
                quoted(t, scope_entered(noted, mac.names), text@, m.modifier.span, call, y, res)
            ]
            {
                &&& operand_signatures(t, v, mac.function, run_operands(m), Ok(sigs))
                &&& operand_texts(t, v, run_operands(m), texts)
                &&& did_run_top_slices(t, prepared_env(v), env, ready)
                &&& ready is Ok
                &&& macro_run(t, env, mac.function, sigs, texts, end, Ok(text))
                &&& noted == (CompilerV {
                    env: end,
                    expansions: v.expansions.insert(
                        merged(m.modifier.span, m.operands.last().span),
                        Expansion { name, text },
                    ),
                    ..v
                })
                &&& quoted(
                    t,
                    scope_entered(noted, mac.names),
                    text@,
                    m.modifier.span,
                    call,
                    y,
                    res,
                )
                &&& w == scope_left(y, mac.names)
            },
{
    let span = m.modifier.span;
    let operands = run_operands(m);
    let found = choose|sigs: UiuaResult<Option<Value>>| #[trigger]
        operand_signatures(t, v, mac.function, operands, sigs) && match sigs {
            Err(_) => false,
            Ok(sigs) => exists|texts: Seq<Seq<char>>, x: CompilerV, code: UiuaResult<String>|
                #![trigger macro_evaluated(t, v, mac.function, sigs, texts, x, code)]
                {
                    &&& operand_texts(t, v, operands, texts)
                    &&& macro_evaluated(t, v, mac.function, sigs, texts, x, code)
                    &&& match code {
                        Err(_) => false,
                        Ok(text) => macro_code_compiled(
                            t,
                            x,
                            name,
                            mac.names,
                            text,
                            m,
                            call,
                            w,
                            res,
                        ),
                    }
                },
        };
    let sigs = found->Ok_0;
    let (texts, x, code) = choose|texts: Seq<Seq<char>>, x: CompilerV, code: UiuaResult<String>|
        #![trigger macro_evaluated(t, v, mac.function, sigs, texts, x, code)]
        {
            &&& operand_texts(t, v, operands, texts)
            &&& macro_evaluated(t, v, mac.function, sigs, texts, x, code)
            &&& match code {
                Err(_) => false,
                Ok(text) => macro_code_compiled(t, x, name, mac.names, text, m, call, w, res),
            }
        };
    let text = code->Ok_0;
    let (env, ready) = choose|env: EnvV, ready: UiuaResult<()>| #[trigger]
        did_run_top_slices(t, prepared_env(v), env, ready) && ready is Ok && macro_run(
            t,
            env,
            mac.function,
            sigs,
            texts,
            x.env,
            code,
        );
    assert(x == (CompilerV { env: x.env, ..v }));
    let noted = CompilerV {
        env: x.env,
        expansions: v.expansions.insert(
            merged(span, m.operands.last().span),
            Expansion { name, text },
        ),
        ..v
    };
    let y = choose|y: CompilerV| #[trigger]
        quoted(t, scope_entered(noted, mac.names), text@, span, call, y, res) && w == scope_left(
            y,
            mac.names,
        );
    assert(operand_signatures(t, v, mac.function, operands, Ok(sigs)));
    assert(macro_run(t, env, mac.function, sigs, texts, x.env, Ok(text)));
    assert(quoted(t, scope_entered(noted, mac.names), text@, span, call, y, res));
}

/// What goes wrong before the code of a macro is compiled: where the signatures of the operands
/// cannot be had the compiler is as it was. What goes wrong in the run of the macro is attributed
/// to its use, and only the runtime of macros has changed.
pub proof fn law_array_macro_refused<T: Toolchain>(
    t: &T,
    v: CompilerV,
    name: String,
    mac: ArrayMacroV,
    m: ModifiedV,
    call: bool,
    w: CompilerV,
    e: UiuaError,
)
    requires
        array_macro_used(t, v, name, mac, m, call, w, Err(e)),
    ensures
        ({
            ||| w == v && operand_signatures(t, v, mac.function, run_operands(m), Err(e))
            ||| w == (CompilerV { env: w.env, ..v }) && (e matches UiuaError::Traced {
                error,
                span,
            } && span == m.modifier.span && exists|env: EnvV, ready: UiuaResult<()>| #[trigger]
                did_run_top_slices(t, prepared_env(v), env, ready) && match ready {
                    Err(d) => d == *error && w.env == env,
                    Ok(_) => exists|sigs: Option<Value>, texts: Seq<Seq<char>>| #[trigger]
                        macro_run(t, env, mac.function, sigs, texts, w.env, Err(*error))
                            && operand_texts(t, v, run_operands(m), texts) && operand_signatures(
                            t,
                            v,
                            mac.function,
                            run_operands(m),
                            Ok(sigs),
                        ),
                })
            ||| exists|text: String, y: CompilerV, noted: CompilerV| #[trigger]
                quoted(
                    t,
                    scope_entered(noted, mac.names),
                    text@,
                    m.modifier.span,
                    call,
                    y,
                    Err(e),
                ) && w == scope_left(y, mac.names) && noted == (CompilerV {
                    env: noted.env,
                    expansions: v.expansions.insert(
                        merged(m.modifier.span, m.operands.last().span),
                        Expansion { name, text },
                    ),
                    ..v
                })
        }),
{
}

/// The text of each operand, at its position, is what the operand is written as, without the
/// parentheses around a function and without white space at either end.
pub proof fn law_operand_texts_in_order<T: Toolchain>(
    t: &T,
    v: CompilerV,
    operands: Seq<Sp<WordV>>,
    texts: Seq<Seq<char>>,
    i: int,
)
    requires
        operand_texts(t, v, operands, texts),
        0 <= i < operands.len(),
    ensures
        texts.len() == operands.len(),
        exists|formatted: String| #[trigger]
            did_format_word(t, operands[i], v.assembly.inputs, formatted) && texts[i]
                == operand_chars(formatted@, operands[i].value is Func),
{
    assert(is_operand_text(t, v, operands[i], texts[i]));
}

/// Generated code is compiled item by item, each from where the one before left the compiler.
pub open spec fn items_in_turn<T: Toolchain>(
    t: &T,
    items: Seq<Item>,
    span: CodeSpan,
    call: bool,
    states: Seq<CompilerV>,
) -> bool {
    &&& states.len() == items.len() + 1
    &&& forall|i: int|
        0 <= i < items.len() ==> item_in_turn(
            t,
            states[i],
            #[trigger] items[i],
            span,
            call,
            states[i + 1],
        )
}

/// What is done with an item of generated code: the lines of words are compiled in order, as code
/// that is called where the macro is; a binding and an import are made; and a test scope is noted
/// as an error at the place of the macro.
pub open spec fn item_in_turn<T: Toolchain>(
    t: &T,
    v: CompilerV,
    item: Item,
    span: CodeSpan,
    call: bool,
    w: CompilerV,
) -> bool {
    match item {
        Item::Words(lines) => exists|states: Seq<CompilerV>| #[trigger]
            lines_in_turn(t, lines_view(lines@), call, states) && states[0] == v && states.last()
                == w,
        Item::Binding(binding) => exists|r: UiuaResult<()>| #[trigger]
            did_binding(t, v, binding, w, r) && r is Ok,
        Item::Import(import) => exists|r: UiuaResult<()>| #[trigger]
            did_import(t, v, import, w, r) && r is Ok,
        Item::TestScope(_) => w == (CompilerV {
            errors: v.errors.push(UiuaError::Fatal { span, message: Message::TestScope }),
            ..v
        }),
    }
}

/// Lines of words were compiled one after the other.
pub open spec fn lines_in_turn<T: Toolchain>(
    t: &T,
    lines: Seq<Seq<Sp<WordV>>>,
    call: bool,
    states: Seq<CompilerV>,
) -> bool {
    &&& states.len() == lines.len() + 1
    &&& forall|i: int|
        0 <= i < lines.len() ==> line_in_turn(
            t,
            states[i],
            #[trigger] lines[i],
            call,
            states[i + 1],
        )
}

pub open spec fn line_in_turn<T: Toolchain>(
    t: &T,
    v: CompilerV,
    line: Seq<Sp<WordV>>,
    call: bool,
    w: CompilerV,
) -> bool {
    exists|r: UiuaResult<()>| #[trigger] did_words(t, v, line, call, w, r) && r is Ok
}

proof fn lemma_lines_in_turn<T: Toolchain>(
    t: &T,
    v: CompilerV,
    lines: Seq<Seq<Sp<WordV>>>,
    span: CodeSpan,
    call: bool,
    w: CompilerV,
) -> (states: Seq<CompilerV>)
    requires
        lines_compiled(t, v, lines, span, call, w),
    ensures
        lines_in_turn(t, lines, call, states),
        states[0] == v,
        states.last() == w,
    decreases lines.len(),
{
    if lines.len() == 0 {
        seq![v]
    } else {
        let fewer = lines.drop_last();
        let mid = choose|mid: CompilerV| #[trigger]
            line_done(t, mid, lines.last(), span, call, w, Ok(())) && lines_compiled(
                t,
                v,
                fewer,
                span,
                call,
                mid,
            );
        let states = lemma_lines_in_turn(t, v, fewer, span, call, mid);
        let all = states.push(w);
        assert forall|i: int| 0 <= i < lines.len() implies line_in_turn(
            t,
            all[i],
            #[trigger] lines[i],
            call,
            all[i + 1],
        ) by {
            if i < fewer.len() {
                assert(line_in_turn(t, states[i], fewer[i], call, states[i + 1]));
            }
        }
        all
    }
}

proof fn lemma_items_in_turn<T: Toolchain>(
    t: &T,
    v: CompilerV,
    items: Seq<Item>,
    span: CodeSpan,
    call: bool,
    w: CompilerV,
) -> (states: Seq<CompilerV>)
    requires
        items_compiled(t, v, items, span, call, w),
    ensures
        items_in_turn(t, items, span, call, states),
        states[0] == v,
        states.last() == w,
    decreases items.len(),
{
    if items.len() == 0 {
        seq![v]
    } else {
        let fewer = items.drop_last();
        let mid = choose|mid: CompilerV| #[trigger]
            item_done(t, mid, items.last(), span, call, w, Ok(())) && items_compiled(
                t,
                v,
                fewer,
                span,
                call,
                mid,
            );
        let states = lemma_items_in_turn(t, v, fewer, span, call, mid);
        let all = states.push(w);
        assert forall|i: int| 0 <= i < items.len() implies item_in_turn(
            t,
            all[i],
            #[trigger] items[i],
            span,
            call,
            all[i + 1],
        ) by {
            if i < fewer.len() {
                assert(item_in_turn(t, states[i], fewer[i], span, call, states[i + 1]));
            } else if let Item::Words(lines) = items.last() {
                let inner = lemma_lines_in_turn(t, mid, lines_view(lines@), span, call, w);
                assert(lines_in_turn(t, lines_view(lines@), call, inner));
            }
        }
        all
    }
}

/// Generated code that is compiled with success was parsed without errors, as code that a macro at
/// the place made, and all of its items were compiled in order.
pub proof fn law_generated_code_in_order<T: Toolchain>(
    t: &T,
    v: CompilerV,
    code: Seq<char>,
    span: CodeSpan,
    call: bool,
    w: CompilerV,
    res: UiuaResult<()>,
)
    requires
        quoted(t, v, code, span, call, w, res),
        res is Ok,
    ensures
        exists|out: (Inputs, Vec<Item>, Vec<ParseError>), states: Seq<CompilerV>|
            #![trigger
                did_parse(t, code, InputSrc::Macro(Box::new(span)), v.assembly.inputs, out),
                items_in_turn(t, out.1@, span, call, states)
            ]
            {
                &&& did_parse(t, code, InputSrc::Macro(Box::new(span)), v.assembly.inputs, out)
                &&& out.2@.len() == 0
                &&& items_in_turn(t, out.1@, span, call, states)
                &&& states[0] == (CompilerV {
                    assembly: AssemblyV { inputs: out.0@, ..v.assembly },
                    ..v
                })
                &&& states.last() == w
            },
{
    let out = choose|out: (Inputs, Vec<Item>, Vec<ParseError>)| #[trigger]
        did_parse(t, code, InputSrc::Macro(Box::new(span)), v.assembly.inputs, out)
            && out.2@.len() == 0 && items_done(
            t,
            with_inputs(v, out.0@),
            out.1@,
            span,
            call,
            w,
            res,
        );
    let states = lemma_items_in_turn(t, with_inputs(v, out.0@), out.1@, span, call, w);
    assert(items_in_turn(t, out.1@, span, call, states));
}

/// Generated code with syntax errors is not compiled: all that has changed are the inputs, and the
/// errors are what is wrong. Where there are none, an item failed, after those before it were
/// compiled in order, and nothing was compiled after it.
pub proof fn law_generated_code_fails<T: Toolchain>(
    t: &T,
    v: CompilerV,
    code: Seq<char>,
    span: CodeSpan,
    call: bool,
    w: CompilerV,
    res: UiuaResult<()>,
)
    requires
        quoted(t, v, code, span, call, w, res),
        res is Err,
    ensures
        exists|out: (Inputs, Vec<Item>, Vec<ParseError>)| #[trigger]
            did_parse(t, code, InputSrc::Macro(Box::new(span)), v.assembly.inputs, out) && if 0
                < out.2@.len() {
                &&& w == (CompilerV { assembly: AssemblyV { inputs: out.0@, ..v.assembly }, ..v })
                &&& res matches Err(UiuaError::Traced { error, span: at })
                &&& at == span
                &&& *error matches UiuaError::Parse { errors, inputs }
                &&& errors@ == out.2@
                &&& inputs@ == out.0@
            } else {
                exists|i: int, states: Seq<CompilerV>|
                    #![trigger items_in_turn(t, out.1@.take(i), span, call, states)]
                    {
                        &&& 0 <= i < out.1@.len()
                        &&& items_in_turn(t, out.1@.take(i), span, call, states)
                        &&& states[0] == (CompilerV {
                            assembly: AssemblyV { inputs: out.0@, ..v.assembly },
                            ..v
                        })
                        &&& item_done(t, states.last(), out.1@[i], span, call, w, res)
                    }
            },
{
    let out = choose|out: (Inputs, Vec<Item>, Vec<ParseError>)| #[trigger]
        did_parse(t, code, InputSrc::Macro(Box::new(span)), v.assembly.inputs, out) && if 0
            < out.2@.len() {
            w == with_inputs(v, out.0@) && is_syntax_failure(res, out.2@, out.0@, span)
        } else {
            items_done(t, with_inputs(v, out.0@), out.1@, span, call, w, res)
        };
    if out.2@.len() == 0 {
        let parsed = with_inputs(v, out.0@);
        let (i, mid) = choose|i: int, mid: CompilerV| #[trigger]
            item_done(t, mid, out.1@[i], span, call, w, res) && 0 <= i < out.1@.len()
                && items_compiled(t, parsed, out.1@.take(i), span, call, mid);
        let states = lemma_items_in_turn(t, parsed, out.1@.take(i), span, call, mid);
        assert(items_in_turn(t, out.1@.take(i), span, call, states));
    }
}

/// Where a macro that is expanded word by word fails, its words could not be expanded, the
/// expansion could not be compiled, or the code of it has no signature. In the last two cases the
/// temporary scope has been left.
pub proof fn law_stack_macro_refused<T: Toolchain>(
    t: &T,
    v: CompilerV,
    name: String,
    mac: StackMacroV,
    m: ModifiedV,
    call: bool,
    w: CompilerV,
    e: UiuaError,
)
    requires
        stack_macro_used(t, v, name, mac, m, call, w, Err(e)),
    ensures
        exists|u: CompilerV, words: Seq<Sp<WordV>>, out: UiuaResult<()>|
            {
                &&& #[trigger] macro_expanded(
                    t,
                    v,
                    name,
                    mac.words,
                    m.operands,
                    m.modifier.span,
                    u,
                    words,
                    out,
                )
                &&& match out {
                    Err(d) => w == u && d == e,
                    Ok(_) => exists|y: CompilerV, compiled: UiuaResult<Vec<Instr>>| #[trigger]
                        did_compile_words(
                            t,
                            scope_entered(u, mac.names),
                            words,
                            true,
                            y,
                            compiled,
                        ) && w == scope_left(y, mac.names) && match compiled {
                            Err(d) => d == e,
                            Ok(code) => did_sig_of(t, w, code@, m.modifier.span, Err(e)),
                        },
                }
            },
{
    let span = m.modifier.span;
    let (u, words, out) = choose|u: CompilerV, words: Seq<Sp<WordV>>, out: UiuaResult<()>|
        #[trigger]
        macro_expanded(t, v, name, mac.words, m.operands, span, u, words, out) && match out {
            Err(d) => w == u && d == e,
            Ok(_) => expansion_compiled(t, u, name, mac.names, words, span, call, w, Err(e)),
        };
    assert(macro_expanded(t, v, name, mac.words, m.operands, span, u, words, out));
}

/// An item of generated code fails where one of its lines does, after those before it were
/// compiled, or where the binding or the import does. A test scope does not fail. The error is the
/// one of what failed, attributed to the place of the macro.
pub proof fn law_generated_item_fails<T: Toolchain>(
    t: &T,
    v: CompilerV,
    item: Item,
    span: CodeSpan,
    call: bool,
    w: CompilerV,
    res: UiuaResult<()>,
)
    requires
        item_done(t, v, item, span, call, w, res),
        res is Err,
    ensures
        res matches Err(UiuaError::Traced { error, span: at }) && at == span && match item {
            Item::Words(lines) => exists|i: int, states: Seq<CompilerV>|
                #![trigger lines_in_turn(t, lines_view(lines@).take(i), call, states)]
                {
                    &&& 0 <= i < lines@.len()
                    &&& lines_in_turn(t, lines_view(lines@).take(i), call, states)
                    &&& states[0] == v
                    &&& did_words(t, states.last(), lines_view(lines@)[i], call, w, Err(*error))
                },
            Item::Binding(binding) => did_binding(t, v, binding, w, Err(*error)),
            Item::Import(import) => did_import(t, v, import, w, Err(*error)),
            Item::TestScope(_) => false,
        },
{
    if let Item::Words(lines) = item {
        let all = lines_view(lines@);
        let (i, mid) = choose|i: int, mid: CompilerV| #[trigger]
            line_done(t, mid, all[i], span, call, w, res) && 0 <= i < all.len() && lines_compiled(
                t,
                v,
                all.take(i),
                span,
                call,
                mid,
            );
        let states = lemma_lines_in_turn(t, v, all.take(i), span, call, mid);
        assert(lines_in_turn(t, all.take(i), call, states));
    }
}

/// Where the run of a macro fails, its function failed, or it left nothing, or what it left is no
/// code. Nothing is taken from the stack in the first two cases.
pub proof fn law_macro_run_fails<T: Toolchain>(
    t: &T,
    env: EnvV,
    function: Function,
    sigs: Option<Value>,
    texts: Seq<Seq<char>>,
    end: EnvV,
    e: UiuaError,
)
    requires
        macro_run(t, env, function, sigs, texts, end, Err(e)),
    ensures
        exists|stack: Seq<Value>, after: EnvV, called: UiuaResult<()>|
            {
                &&& #[trigger] did_call_function(
                    t,
                    EnvV { stack, ..env },
                    function,
                    after,
                    called,
                )
                &&& is_macro_stack(env.stack, sigs, texts, stack)
                &&& match called {
                    Err(d) => d == e && end == after,
                    Ok(_) => if after.stack.len() == 0 {
                        end == after && (e matches UiuaError::StackEmpty { what } && what@
                            == "macro result"@)
                    } else {
                        after.stack == end.stack.push(after.stack.last()) && end == (EnvV {
                            stack: end.stack,
                            ..after
                        }) && is_macro_code(t, end, after.stack.last(), Err(e))
                    },
                }
            },
{
    let (stack, after, called) = choose|stack: Seq<Value>, after: EnvV, called: UiuaResult<()>|
        #[trigger]
        did_call_function(t, EnvV { stack, ..env }, function, after, called) && is_macro_stack(
            env.stack,
            sigs,
            texts,
            stack,
        ) && match called {
            Err(d) => end == after && d == e,
            Ok(_) => if after.stack.len() == 0 {
                end == after && (e matches UiuaError::StackEmpty { what } && what@
                    == "macro result"@)
            } else {
                &&& end == (EnvV { stack: after.stack.drop_last(), ..after })
                &&& is_macro_code(t, end, after.stack.last(), Err(e))
            },
        };
    if after.stack.len() > 0 {
        assert(after.stack.drop_last().push(after.stack.last()) =~= after.stack);
    }
    assert(did_call_function(t, EnvV { stack, ..env }, function, after, called));
}

/// A row is a text.
pub open spec fn reads_as_text<T: Toolchain>(t: &T, env: EnvV, row: Value) -> bool {
    exists|text: Seq<char>| #[trigger] is_row_text(t, env, row, text)
}

/// The value that a macro came to is no code where it is no text and one of its rows is none
/// either, the first of which is what is wrong.
pub proof fn law_macro_code_refused<T: Toolchain>(t: &T, env: EnvV, value: Value, e: UiuaError)
    requires
        is_macro_code(t, env, value, Err(e)),
    ensures
        exists|d: UiuaError, rows: Vec<Value>, i: int|
            #![trigger
                did_as_string(t, env, value, ""@, Err(d)),
                did_into_rows(t, value, rows),
                rows@[i]
            ]
            {
                &&& did_as_string(t, env, value, ""@, Err(d))
                &&& did_into_rows(t, value, rows)
                &&& 0 <= i < rows@.len()
                &&& did_as_string(t, env, rows@[i], row_requirement(), Err(e))
                &&& forall|j: int|
                    0 <= j < i ==> reads_as_text(t, env, #[trigger] rows@[j])
            },
{
    let whole = choose|whole: UiuaResult<String>| #[trigger]
        did_as_string(t, env, value, ""@, whole) && match whole {
            Ok(_) => false,
            Err(_) => exists|rows: Vec<Value>| #[trigger]
                did_into_rows(t, value, rows) && is_rows_code(t, env, rows@, Err(e)),
        };
    let rows = choose|rows: Vec<Value>| #[trigger]
        did_into_rows(t, value, rows) && is_rows_code(t, env, rows@, Err(e));
    let (i, texts) = choose|i: int, texts: Seq<Seq<char>>| #[trigger]
        did_as_string(t, env, rows@[i], row_requirement(), Err(e)) && #[trigger] rows_are(
            t,
            env,
            rows@.take(i),
            texts,
        ) && 0 <= i < rows@.len();
    assert forall|j: int| 0 <= j < i implies reads_as_text(t, env, #[trigger] rows@[j]) by {
        assert(is_row_text(t, env, rows@.take(i)[j], texts[j]));
    }
    let d = whole->Err_0;
    assert(did_as_string(t, env, value, ""@, Err(d)));
    assert(did_into_rows(t, value, rows));
    assert(rows@[i] == rows@[i]);
}

/// The text of a row is what is read of it, as a text that the rows have to be.
pub proof fn law_row_text<T: Toolchain>(t: &T, env: EnvV, row: Value, text: Seq<char>)
    requires
        is_row_text(t, env, row, text),
    ensures
        exists|s: String| #[trigger]
            did_as_string(t, env, row, "Macro output rows must be strings"@, Ok(s)) && s@ == text,
{
}

} // verus!
