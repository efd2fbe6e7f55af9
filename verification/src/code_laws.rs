//! What the modifiers that name values and look at code come to, from their operands to the code.
use crate::assembly::AssemblyV;
use crate::codegen::{bind_code, bind_sig};
use crate::compiler::{
    finished, next_span, well_formed, with_error, with_span, without_frame, CompilerV, EnvV,
    PreEvalMode, ScopeV,
};
use crate::comptime::{
    arguments_refused, code_run, comptime_done, failure_noted, last_values, pushes, values_pushed,
    with_top_code,
};
use crate::effects::{has_effect, law_bind_signature};
use crate::env::prepared_env;
use crate::inline::form_compiled;
use crate::instr::{FuncSlice, Instr};
use crate::locals::{bind_entered, bind_left, bind_noted, is_local_count, lemma_bind_entered};
use crate::message::{Diagnostic, DiagnosticKind, Message, UiuaError, UiuaResult};
use crate::meta::is_pushed_text;
use crate::outcome::{comes_to, fits, is_span, lemma_finished, only_code_differs};
use crate::prim::{Primitive, Signature};
use crate::quote::quoted;
use crate::span::{CodeSpan, Sp};
use crate::stack_laws::Given;
use crate::toolchain::{
    did_compile_operand_word, did_error_text, did_format_word, did_optimize_instrs, did_prim_text,
    did_run_assembly, did_run_top_slices, did_word, orderly, Toolchain,
};
use crate::value::{is_count, is_default, is_text, Number, Value};
use crate::word::{code_words, ModifiedV, WordV};
use vstd::prelude::*;

verus! {

/// A compiler that is about to compile the operand of a bind: no local value has been used in it.
pub open spec fn naming_begun(v: CompilerV) -> CompilerV {
    CompilerV {
        scope: ScopeV { bind_locals: v.scope.bind_locals.push(Set::empty()), ..v.scope },
        ..v
    }
}

/// A bind compiles its operand with local values of its own, and comes to code that names as many
/// values as the operand uses and gives them up at the end. It takes them as further arguments. The
/// local values of the binds around are as the operand left them. Advice is given where few values
/// are named.
pub proof fn law_bind_compiled<T: Toolchain>(
    t: &T,
    v: CompilerV,
    m: ModifiedV,
    call: bool,
    w: CompilerV,
    res: UiuaResult<()>,
    given: Given,
)
    requires
        orderly(t),
        well_formed(v),
        fits(w),
        form_compiled(t, v, Primitive::Bind, m, call, w, res),
    ensures
        ({
            let word = code_words(m.operands)[0];
            match res {
                Err(e) => did_compile_operand_word(t, naming_begun(v), word, w, Err(e)),
                Ok(_) => exists|
                    u: CompilerV,
                    code: Vec<Instr>,
                    sig: Signature,
                    count: usize,
                    n: usize,
                    whole: Seq<Instr>,
                    whole_sig: Signature,
                |
                    #![trigger
                        did_compile_operand_word(t, naming_begun(v), word, u, Ok((code, sig))),
                        named_values(u, code@, count, n, whole),
                        comes_to(u, w, m.modifier.span, call, whole_sig, whole)
                    ]
                    {
                        &&& did_compile_operand_word(
                            t,
                            naming_begun(v),
                            word,
                            u,
                            Ok((code, sig)),
                        )
                        &&& is_span(w, n, m.modifier.span)
                        &&& named_values(u, code@, count, n, whole)
                        &&& comes_to(u, w, m.modifier.span, call, whole_sig, whole)
                        &&& whole_sig.args == sig.args + count
                        &&& whole_sig.outputs == sig.outputs
                        &&& has_effect(given, code@, sig) ==> has_effect(given, whole, whole_sig)
                        &&& w.scope == (ScopeV {
                            bind_locals: u.scope.bind_locals.drop_last(),
                            ..u.scope
                        })
                        &&& only_code_differs(CompilerV { scope: w.scope, ..u }, w)
                        &&& few_values_noted(t, u, count, word.span, w)
                    },
            }
        }),
{
    let word = code_words(m.operands)[0];
    let span = m.modifier.span;
    let begun = naming_begun(v);
    assert(begun == bind_entered(v));
    if res is Ok {
        let (u, out) = choose|u: CompilerV, out: UiuaResult<(Vec<Instr>, Signature)>| #[trigger]
            did_compile_operand_word(t, begun, word, u, out) && match out {
                Err(_) => false,
                Ok((code, sig)) => exists|count: usize, noted: CompilerV|
                    #![trigger
                        bind_noted(t, with_span(bind_left(u), span), count, word.span, noted)
                    ]
                    {
                        &&& is_local_count(u.scope.bind_locals.last(), count)
                        &&& bind_noted(t, with_span(bind_left(u), span), count, word.span, noted)
                        &&& w == finished(
                            noted,
                            span,
                            call,
                            bind_sig(sig, count),
                            bind_code(code@, count, next_span(bind_left(u))),
                        )
                    },
            };
        let (code, sig) = out->Ok_0;
        let left = bind_left(u);
        let (count, noted) = choose|count: usize, noted: CompilerV|
            #![trigger bind_noted(t, with_span(left, span), count, word.span, noted)]
            {
                &&& is_local_count(u.scope.bind_locals.last(), count)
                &&& bind_noted(t, with_span(left, span), count, word.span, noted)
                &&& w == finished(
                    noted,
                    span,
                    call,
                    bind_sig(sig, count),
                    bind_code(code@, count, next_span(left)),
                )
            };
        let n = next_span(left);
        let whole = bind_code(code@, count, n);
        lemma_bind_entered(v);
        assert(well_formed(u) && u.scope.bind_locals.len() == begun.scope.bind_locals.len()
            && crate::toolchain::moderate(sig)) by {
            reveal(orderly);
        }
        let used = u.scope.bind_locals.last();
        if count > 0 {
            assert(used.contains((count - 1) as usize));
            assert(u.scope.bind_locals[u.scope.bind_locals.len() - 1].contains(
                (count - 1) as usize,
            ));
        }
        assert(count <= usize::MAX / 2);
        lemma_finished(noted, span, call, bind_sig(sig, count), whole);
        if has_effect(given, code@, sig) {
            law_bind_signature(given, code@, sig, count, n);
        }
        assert(few_values_noted(t, u, count, word.span, w));
        assert(did_compile_operand_word(t, begun, word, u, Ok((code, sig))));
        assert(whole.subrange(1, whole.len() - 1) =~= code@);
        assert(named_values(u, code@, count, n, whole));
        assert(comes_to(u, w, span, call, bind_sig(sig, count), whole));
    }
}

/// Code between naming values and giving them up: every local value that was used has a place
/// among them, and there are no more than the one with the highest number needs.
pub open spec fn named_values(
    u: CompilerV,
    code: Seq<Instr>,
    count: usize,
    n: usize,
    whole: Seq<Instr>,
) -> bool {
    let used = u.scope.bind_locals.last();
    &&& forall|k: usize| #[trigger] used.contains(k) ==> k < count
    &&& count > 0 ==> exists|k: usize| #[trigger] used.contains(k) && k + 1 == count
    &&& whole.len() == code.len() + 2
    &&& whole.first() == (Instr::PushLocals { count, span: n })
    &&& whole.subrange(1, whole.len() - 1) == code
    &&& whole.last() == Instr::PopLocals
}

/// Advice is given about a bind that names less than three values, and none about others.
pub open spec fn few_values_noted<T: Toolchain>(
    t: &T,
    u: CompilerV,
    count: usize,
    place: CodeSpan,
    w: CompilerV,
) -> bool {
    if count < 3 {
        exists|text: String| #[trigger]
            did_prim_text(t, Primitive::Bind, text) && w.diagnostics == u.diagnostics.push(
                Diagnostic {
                    message: Message::BindFew { prim: text, count },
                    kind: DiagnosticKind::Advice,
                    span: place,
                },
            )
    } else {
        w.diagnostics == u.diagnostics
    }
}

/// A value is a list of characters: they stand along one axis, in order.
pub open spec fn holds_text(value: Value, text: Seq<char>) -> bool {
    &&& value matches Value::Char(array)
    &&& array.data@ == text
    &&& array.shape@.len() == 1
    &&& array.shape@[0] == text.len() as usize
}

/// A value is a single whole number.
pub open spec fn holds_count(value: Value, n: usize) -> bool {
    &&& value matches Value::Num(array)
    &&& array.data@.len() == 1
    &&& array.data@[0] == Number::Whole(n)
    &&& array.shape@.len() == 0
}

/// A stringify compiles nothing. It comes to a push of the text of its operand.
pub proof fn law_stringify_compiled<T: Toolchain>(
    t: &T,
    v: CompilerV,
    m: ModifiedV,
    call: bool,
    w: CompilerV,
    res: UiuaResult<()>,
)
    requires
        fits(w),
        form_compiled(t, v, Primitive::Stringify, m, call, w, res),
    ensures
        res is Ok,
        only_code_differs(v, w),
        w.diagnostics == v.diagnostics,
        exists|text: String, value: Value| #[trigger]
            did_format_word(t, code_words(m.operands)[0], v.assembly.inputs, text)
                && #[trigger] holds_text(value, text@) && comes_to(
                v,
                w,
                m.modifier.span,
                call,
                Signature { args: 0, outputs: 1 },
                seq![Instr::Push(value)],
            ),
{
    let sig = Signature { args: 0, outputs: 1 };
    let (text, value) = choose|text: String, value: Value| #[trigger]
        did_format_word(t, code_words(m.operands)[0], v.assembly.inputs, text)
            && #[trigger] is_text(value, text@) && w == finished(
            v,
            m.modifier.span,
            call,
            sig,
            seq![Instr::Push(value)],
        );
    lemma_finished(v, m.modifier.span, call, sig, seq![Instr::Push(value)]);
    assert(holds_text(value, text@));
}

/// A sig compiles its operand for its signature only. It comes to pushes of how many outputs and
/// how many arguments there are, with the arguments on top.
pub proof fn law_sig_compiled<T: Toolchain>(
    t: &T,
    v: CompilerV,
    m: ModifiedV,
    call: bool,
    w: CompilerV,
    res: UiuaResult<()>,
)
    requires
        fits(w),
        form_compiled(t, v, Primitive::Sig, m, call, w, res),
    ensures
        ({
            let word = code_words(m.operands)[0];
            match res {
                Err(e) => did_compile_operand_word(t, v, word, w, Err(e)),
                Ok(_) => exists|
                    u: CompilerV,
                    code: Vec<Instr>,
                    sig: Signature,
                    outputs: Value,
                    args: Value,
                |
                    #![trigger
                        did_compile_operand_word(t, v, word, u, Ok((code, sig))),
                        holds_count(outputs, sig.outputs),
                        holds_count(args, sig.args)
                    ]
                    {
                        &&& did_compile_operand_word(t, v, word, u, Ok((code, sig)))
                        &&& holds_count(outputs, sig.outputs)
                        &&& holds_count(args, sig.args)
                        &&& comes_to(
                            u,
                            w,
                            m.modifier.span,
                            call,
                            Signature { args: 0, outputs: 2 },
                            seq![Instr::Push(outputs), Instr::Push(args)],
                        )
                        &&& only_code_differs(u, w)
                        &&& w.diagnostics == u.diagnostics
                    },
            }
        }),
{
    let word = code_words(m.operands)[0];
    let span = m.modifier.span;
    let two = Signature { args: 0, outputs: 2 };
    if res is Ok {
        let (u, out) = choose|u: CompilerV, out: UiuaResult<(Vec<Instr>, Signature)>| #[trigger]
            did_compile_operand_word(t, v, word, u, out) && match out {
                Err(_) => false,
                Ok((_, sig)) => exists|outputs: Value, args: Value| #[trigger]
                    is_count(outputs, sig.outputs) && #[trigger] is_count(args, sig.args) && w
                        == finished(
                        u,
                        span,
                        call,
                        two,
                        seq![Instr::Push(outputs), Instr::Push(args)],
                    ),
            };
        let (code, sig) = out->Ok_0;
        let (outputs, args) = choose|outputs: Value, args: Value| #[trigger]
            is_count(outputs, sig.outputs) && #[trigger] is_count(args, sig.args) && w == finished(
                u,
                span,
                call,
                two,
                seq![Instr::Push(outputs), Instr::Push(args)],
            );
        lemma_finished(u, span, call, two, seq![Instr::Push(outputs), Instr::Push(args)]);
        assert(did_compile_operand_word(t, v, word, u, Ok((code, sig))));
        assert(holds_count(outputs, sig.outputs));
        assert(holds_count(args, sig.args));
    }
}

/// A program with some code at its end, to be run when it is loaded.
pub open spec fn program_with(c: CompilerV, code: Seq<Instr>) -> CompilerV {
    let slice = FuncSlice { start: c.assembly.instrs.len() as usize, len: code.len() as usize };
    CompilerV {
        assembly: AssemblyV {
            instrs: c.assembly.instrs + code,
            top_slices: c.assembly.top_slices.push(slice),
            ..c.assembly
        },
        ..c
    }
}

/// An operand without arguments was compiled, its code optimized and put at the end of a program,
/// and the program run.
pub open spec fn operand_run<T: Toolchain>(
    t: &T,
    v: CompilerV,
    operand: Sp<WordV>,
    c: CompilerV,
    code: Vec<Instr>,
    sig: Signature,
    best: Vec<Instr>,
    env: EnvV,
    ready: UiuaResult<()>,
    end: EnvV,
    ran: UiuaResult<()>,
) -> bool {
    &&& did_compile_operand_word(t, v, operand, c, Ok((code, sig)))
    &&& sig.args == 0
    &&& did_optimize_instrs(t, c, code@, true, best)
    &&& did_run_top_slices(t, prepared_env(program_with(c, best@)), env, ready)
    &&& ready is Ok
    &&& did_run_assembly(t, env, program_with(c, best@).assembly, end, ran)
}

/// Code that pushes values, one after the other.
pub open spec fn pushes_each(code: Seq<Instr>, values: Seq<Value>) -> bool {
    &&& code.len() == values.len()
    &&& forall|i: int| 0 <= i < values.len() ==> #[trigger] code[i] == Instr::Push(values[i])
}

/// What a run left: the values that are on top of the stack in the end, as many as there are
/// outputs, in order; all of them where there are fewer.
pub open spec fn left_on_top(stack: Seq<Value>, outputs: usize, values: Seq<Value>) -> bool {
    &&& values.len() == if stack.len() < outputs {
        stack.len()
    } else {
        outputs as nat
    }
    &&& forall|i: int|
        1 <= i <= values.len() ==> values[values.len() - i] == #[trigger] stack[stack.len() - i]
}

/// A value is the empty list of numbers.
pub open spec fn holds_nothing(value: Value) -> bool {
    &&& value matches Value::Num(array)
    &&& array.data@.len() == 0
    &&& array.shape@.len() == 1
    &&& array.shape@[0] == 0
}

/// Code without arguments that is run while compiling comes to pushes of the values that it left,
/// in order. Where the run fails, it comes to as many empty lists, and the failure is an error,
/// unless there was one before.
pub proof fn law_comptime_pushes_values<T: Toolchain>(
    t: &T,
    v: CompilerV,
    prim: Primitive,
    operand: Sp<WordV>,
    span: CodeSpan,
    call: bool,
    w: CompilerV,
    res: UiuaResult<()>,
)
    requires
        fits(w),
        v.pre_eval_mode != PreEvalMode::Lsp,
        comptime_done(t, v, prim, operand, span, call, w, res),
        res is Ok,
    ensures
        exists|
            c: CompilerV,
            code: Vec<Instr>,
            sig: Signature,
            best: Vec<Instr>,
            env: EnvV,
            ready: UiuaResult<()>,
            end: EnvV,
            ran: UiuaResult<()>,
            whole: Seq<Instr>,
            values: Seq<Value>,
        |
            #![trigger
                operand_run(t, v, operand, c, code, sig, best, env, ready, end, ran),
                pushes_each(whole, values)
            ]
            {
                &&& operand_run(t, v, operand, c, code, sig, best, env, ready, end, ran)
                &&& pushes_each(whole, values)
                &&& comes_to(
                    v,
                    w,
                    span,
                    call,
                    Signature { args: 0, outputs: sig.outputs },
                    whole,
                )
                &&& match ran {
                    Ok(_) => left_on_top(end.stack, sig.outputs, values) && w.errors == v.errors,
                    Err(error) => {
                        &&& values.len() == sig.outputs
                        &&& forall|i: int|
                            0 <= i < values.len() ==> holds_nothing(#[trigger] values[i])
                        &&& if v.errors.len() > 0 {
                            w.errors == v.errors
                        } else {
                            exists|text: String| #[trigger]
                                did_error_text(t, error, text) && w.errors == seq![
                                    UiuaError::Fatal {
                                        span,
                                        message: Message::ComptimeFailed { error: text },
                                    },
                                ]
                        }
                    },
                }
            },
{
    let (c, out) = choose|c: CompilerV, out: UiuaResult<(Vec<Instr>, Signature)>| #[trigger]
        did_compile_operand_word(t, v, operand, c, out) && match out {
            Err(_) => false,
            Ok((code, sig)) => sig.args == 0 && code_run(
                t,
                v,
                c,
                code@,
                sig.outputs,
                span,
                call,
                w,
                res,
            ),
        };
    let (code, sig) = out->Ok_0;
    let (best, env, ready) = choose|best: Vec<Instr>, env: EnvV, ready: UiuaResult<()>|
        #![trigger did_run_top_slices(t, prepared_env(with_top_code(c, best@)), env, ready)]
        {
            &&& did_optimize_instrs(t, c, code@, true, best)
            &&& did_run_top_slices(t, prepared_env(with_top_code(c, best@)), env, ready)
            &&& ready is Ok
            &&& exists|end: EnvV, ran: UiuaResult<()>| #[trigger]
                did_run_assembly(t, env, with_top_code(c, best@).assembly, end, ran)
                    && values_pushed(t, v, end, ran, sig.outputs, span, call, w)
        };
    let program = program_with(c, best@);
    assert(program == with_top_code(c, best@));
    let (end, ran) = choose|end: EnvV, ran: UiuaResult<()>| #[trigger]
        did_run_assembly(t, env, program.assembly, end, ran) && values_pushed(
            t,
            v,
            end,
            ran,
            sig.outputs,
            span,
            call,
            w,
        );
    assert(did_compile_operand_word(t, v, operand, c, Ok((code, sig))));
    assert(operand_run(t, v, operand, c, code, sig, best, env, ready, end, ran));
    let whole_sig = Signature { args: 0, outputs: sig.outputs };
    match ran {
        Ok(_) => {
            let values = last_values(end.stack, sig.outputs as nat);
            lemma_finished(v, span, call, whole_sig, pushes(values));
            assert(pushes_each(pushes(values), values));
            assert(left_on_top(end.stack, sig.outputs, values));
        },
        Err(error) => {
            let (noted, values) = choose|noted: CompilerV, values: Seq<Value>|
                #![trigger failure_noted(t, v, span, error, noted), pushes(values)]
                {
                    &&& failure_noted(t, v, span, error, noted)
                    &&& values.len() == sig.outputs
                    &&& forall|i: int| 0 <= i < values.len() ==> is_default(#[trigger] values[i])
                    &&& w == finished(noted, span, call, whole_sig, pushes(values))
                };
            lemma_finished(noted, span, call, whole_sig, pushes(values));
            assert(comes_to(v, w, span, call, whole_sig, pushes(values)));
            assert(pushes_each(pushes(values), values));
            assert forall|i: int| 0 <= i < values.len() implies holds_nothing(
                #[trigger] values[i],
            ) by {
                assert(is_default(values[i]));
            }
            if v.errors.len() == 0 {
                let text = choose|text: String| #[trigger]
                    did_error_text(t, error, text) && noted == with_error(
                        v,
                        span,
                        Message::ComptimeFailed { error: text },
                    );
                let said = UiuaError::Fatal {
                    span,
                    message: Message::ComptimeFailed { error: text },
                };
                assert(did_error_text(t, error, text));
                assert(w.errors =~= seq![said]);
            }
        },
    }
}

/// Code cannot be run while compiling where it cannot be compiled, where it takes arguments, or
/// where the program cannot be loaded. The compiler is then as it was.
pub proof fn law_comptime_refused<T: Toolchain>(
    t: &T,
    v: CompilerV,
    prim: Primitive,
    operand: Sp<WordV>,
    span: CodeSpan,
    call: bool,
    w: CompilerV,
    e: UiuaError,
)
    requires
        v.pre_eval_mode != PreEvalMode::Lsp,
        comptime_done(t, v, prim, operand, span, call, w, Err(e)),
    ensures
        w == v,
        exists|c: CompilerV, out: UiuaResult<(Vec<Instr>, Signature)>| #[trigger]
            did_compile_operand_word(t, v, operand, c, out) && match out {
                Err(d) => d == e,
                Ok((code, sig)) => if sig.args > 0 {
                    exists|text: String| #[trigger]
                        did_prim_text(t, prim, text) && e == (UiuaError::Fatal {
                            span,
                            message: Message::ComptimeArguments { prim: text, args: sig.args },
                        })
                } else {
                    exists|best: Vec<Instr>, env: EnvV|
                        #![trigger
                            did_run_top_slices(t, prepared_env(program_with(c, best@)), env, Err(e))
                        ]
                        did_optimize_instrs(t, c, code@, true, best) && did_run_top_slices(
                            t,
                            prepared_env(program_with(c, best@)),
                            env,
                            Err(e),
                        )
                },
            },
{
    let (c, out) = choose|c: CompilerV, out: UiuaResult<(Vec<Instr>, Signature)>| #[trigger]
        did_compile_operand_word(t, v, operand, c, out) && match out {
            Err(d) => d == e,
            Ok((code, sig)) => if sig.args > 0 {
                arguments_refused(t, prim, sig.args, span, Err(e))
            } else {
                code_run(t, v, c, code@, sig.outputs, span, call, w, Err(e))
            },
        };
    if let Ok((code, sig)) = out {
        if sig.args == 0 {
            let (best, env, ready) = choose|best: Vec<Instr>, env: EnvV, ready: UiuaResult<()>|
                #![trigger did_run_top_slices(t, prepared_env(with_top_code(c, best@)), env, ready)]
                {
                    &&& did_optimize_instrs(t, c, code@, true, best)
                    &&& did_run_top_slices(t, prepared_env(with_top_code(c, best@)), env, ready)
                    &&& ready == Err::<(), UiuaError>(e)
                };
            assert(program_with(c, best@) == with_top_code(c, best@));
            assert(did_run_top_slices(t, prepared_env(program_with(c, best@)), env, Err(e)));
        }
    }
}

/// Where only the language server looks at the code, nothing is run: the operand is compiled as it
/// would be without the modifier.
pub proof fn law_comptime_only_looks<T: Toolchain>(
    t: &T,
    v: CompilerV,
    prim: Primitive,
    operand: Sp<WordV>,
    span: CodeSpan,
    call: bool,
    w: CompilerV,
    res: UiuaResult<()>,
)
    requires
        v.pre_eval_mode == PreEvalMode::Lsp,
        comptime_done(t, v, prim, operand, span, call, w, res),
    ensures
        did_word(t, v, operand, call, w, res),
{
}

/// A comptime is done with its operand, at the place of the modifier.
pub proof fn law_comptime_compiled<T: Toolchain>(
    t: &T,
    v: CompilerV,
    m: ModifiedV,
    call: bool,
    w: CompilerV,
    res: UiuaResult<()>,
)
    requires
        form_compiled(t, v, Primitive::Comptime, m, call, w, res),
    ensures
        comptime_done(
            t,
            v,
            Primitive::Comptime,
            code_words(m.operands)[0],
            m.modifier.span,
            call,
            w,
            res,
        ),
{
}

/// A quote that succeeds has run its operand, which came to a single push of a list of characters,
/// and compiled them as code in the place of the operand. Nothing of the push is left.
pub proof fn law_quote_compiled<T: Toolchain>(
    t: &T,
    v: CompilerV,
    m: ModifiedV,
    call: bool,
    w: CompilerV,
    res: UiuaResult<()>,
)
    requires
        form_compiled(t, v, Primitive::Quote, m, call, w, res),
        res is Ok,
    ensures
        exists|u: CompilerV, ran: UiuaResult<()>, value: Value, text: Seq<char>|
            #![trigger
                comptime_done(
                    t,
                    CompilerV { frames: v.frames.push(Seq::empty()), ..v },
                    Primitive::Quote,
                    code_words(m.operands)[0],
                    m.modifier.span,
                    true,
                    u,
                    ran,
                ),
                is_char_list(value, text)
            ]
            {
                &&& comptime_done(
                    t,
                    CompilerV { frames: v.frames.push(Seq::empty()), ..v },
                    Primitive::Quote,
                    code_words(m.operands)[0],
                    m.modifier.span,
                    true,
                    u,
                    ran,
                )
                &&& ran is Ok
                &&& u.frames.last() == seq![Instr::Push(value)]
                &&& is_char_list(value, text)
                &&& quoted(
                    t,
                    CompilerV { frames: u.frames.drop_last(), ..u },
                    text,
                    m.modifier.span,
                    call,
                    w,
                    res,
                )
            },
{
    let span = m.modifier.span;
    let begun = CompilerV { frames: v.frames.push(Seq::empty()), ..v };
    let word = code_words(m.operands)[0];
    let (u, ran) = choose|u: CompilerV, ran: UiuaResult<()>| #[trigger]
        comptime_done(t, begun, Primitive::Quote, word, span, true, u, ran) && match ran {
            Err(_) => false,
            Ok(_) => exists|text: UiuaResult<Vec<char>>| #[trigger]
                is_pushed_text(u.frames.last(), span, text) && match text {
                    Err(_) => false,
                    Ok(text) => quoted(t, without_frame(u), text@, span, call, w, res),
                },
        };
    let text = choose|text: UiuaResult<Vec<char>>| #[trigger]
        is_pushed_text(u.frames.last(), span, text) && match text {
            Err(_) => false,
            Ok(text) => quoted(t, without_frame(u), text@, span, call, w, res),
        };
    let value = u.frames.last()[0]->Push_0;
    assert(u.frames.last() =~= seq![Instr::Push(value)]);
    assert(is_char_list(value, text->Ok_0@));
}

/// A value is a list of the characters of a text.
pub open spec fn is_char_list(value: Value, text: Seq<char>) -> bool {
    &&& value matches Value::Char(array)
    &&& array.data@ == text
    &&& array.shape@.len() == 1
}

/// Where the operand of a quote ran but did not come to a list of characters, the quote fails at
/// its place and says so: that nothing was pushed, that the value has another kind, or that it has
/// another number of axes. Nothing of what it pushed is left.
pub proof fn law_quote_refused(
    code: Seq<Instr>,
    span: CodeSpan,
    res: UiuaResult<Vec<char>>,
)
    requires
        is_pushed_text(code, span, res),
    ensures
        res is Ok <==> code.len() == 1 && code[0] is Push && code[0]->Push_0 is Char
            && code[0]->Push_0->Char_0.shape@.len() == 1,
        res matches Err(e) ==> (e matches UiuaError::Fatal { span: at, message } && at == span && (
        if code.len() != 1 || !(code[0] is Push) {
            message == Message::QuoteNotString
        } else {
            match code[0]->Push_0 {
                Value::Char(array) => message == (Message::QuoteRank {
                    rank: array.shape@.len() as usize,
                }),
                Value::Num(_) | Value::Byte(_) => message matches Message::QuoteKind { kind }
                    && kind@ == "number"@,
                Value::Complex(_) => message matches Message::QuoteKind { kind } && kind@
                    == "complex"@,
                Value::Boxes(_) => message matches Message::QuoteKind { kind } && kind@ == "box"@,
            }
        })),
{
}

/// Where a quote fails, its operand could not be run, came to no text, or the text could not be
/// compiled. The function that the operand was compiled into is gone again in the last two cases.
pub proof fn law_quote_stops<T: Toolchain>(
    t: &T,
    v: CompilerV,
    m: ModifiedV,
    call: bool,
    w: CompilerV,
    e: UiuaError,
)
    requires
        form_compiled(t, v, Primitive::Quote, m, call, w, Err(e)),
    ensures
        exists|u: CompilerV, ran: UiuaResult<()>|
            {
                &&& #[trigger] comptime_done(
                    t,
                    CompilerV { frames: v.frames.push(Seq::empty()), ..v },
                    Primitive::Quote,
                    code_words(m.operands)[0],
                    m.modifier.span,
                    true,
                    u,
                    ran,
                )
                &&& match ran {
                    Err(d) => w == u && d == e,
                    Ok(_) => exists|text: UiuaResult<Vec<char>>| #[trigger]
                        is_pushed_text(u.frames.last(), m.modifier.span, text) && match text {
                            Err(d) => d == e && w == (CompilerV {
                                frames: u.frames.drop_last(),
                                ..u
                            }),
                            Ok(text) => quoted(
                                t,
                                CompilerV { frames: u.frames.drop_last(), ..u },
                                text@,
                                m.modifier.span,
                                call,
                                w,
                                Err(e),
                            ),
                        },
                }
            },
{
    let span = m.modifier.span;
    let begun = CompilerV { frames: v.frames.push(Seq::empty()), ..v };
    let word = code_words(m.operands)[0];
    let (u, ran) = choose|u: CompilerV, ran: UiuaResult<()>| #[trigger]
        comptime_done(t, begun, Primitive::Quote, word, span, true, u, ran) && match ran {
            Err(d) => w == u && d == e,
            Ok(_) => exists|text: UiuaResult<Vec<char>>| #[trigger]
                is_pushed_text(u.frames.last(), span, text) && match text {
                    Err(d) => w == without_frame(u) && d == e,
                    Ok(text) => quoted(t, without_frame(u), text@, span, call, w, Err(e)),
                },
        };
    assert(comptime_done(t, begun, Primitive::Quote, word, span, true, u, ran));
}

} // verus!
