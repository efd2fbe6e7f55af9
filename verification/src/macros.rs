//! The use of macros as modifiers.
use crate::compiler::{
    is_stack_empty, next_function, next_span, well_formed, with_body, with_instr, with_span,
    ArrayMacro, ArrayMacroV, Compiler, CompilerV, EnvV, StackMacro, StackMacroV,
};
use crate::eco::{bytes_extend, bytes_new, bytes_of};
use crate::env::prepared_env;
use crate::expand::{macro_expanded, only_code, with_expansion};
use crate::instr::{Function, Instr};
use crate::keeping::{
    code_fits, lemma_kept_anyway, lemma_kept_aside, lemma_kept_on, place_kept,
};
use crate::message::{traced, UiuaError, UiuaResult};
use crate::names::{names_of, LocalName};
use crate::pack::{func_word, func_words};
use crate::prim::Signature;
use crate::quote::quoted;
use crate::scope::{lemma_kept_scoped, lemma_scope_entered, scope_entered, scope_left};
use crate::span::{merged, CodeSpan, Sp};
use crate::table::Expansion;
use crate::text::{add_row, operand_chars, operand_text, rows_joined};
use crate::toolchain::{
    did_as_string, did_call_function, did_compile_operand_word, did_compile_words, did_format_word,
    did_into_rows, did_run_top_slices, did_sig_of, orderly, Toolchain,
};
use crate::value::{is_boxed_texts, is_byte_pairs, Value};
use crate::word::{
    branches_view, clone_words, code_words, sp_view, words_view, FunctionId, Modified, ModifiedV,
    Word, WordV,
};
use ecow::EcoVec;
use indexmap::IndexMap;
use vstd::prelude::*;

verus! {

/// A compiler that has pushed the function that a macro came to, and calls it if the modifier is
/// called.
pub open spec fn macro_called(
    v: CompilerV,
    name: String,
    sig: Signature,
    code: Seq<Instr>,
    span: CodeSpan,
    call: bool,
) -> CompilerV {
    let func = next_function(v, FunctionId::Named(name), sig, code);
    let pushed = with_instr(with_body(v, code), Instr::PushFunc(func));
    if call {
        with_instr(with_span(pushed, span), Instr::Call(next_span(pushed)))
    } else {
        pushed
    }
}

/// What was done with the words that a macro was expanded to.
pub open spec fn expansion_compiled<T: Toolchain>(
    t: &T,
    v: CompilerV,
    name: String,
    names: Seq<(Seq<char>, LocalName)>,
    words: Seq<Sp<WordV>>,
    span: CodeSpan,
    call: bool,
    w: CompilerV,
    res: UiuaResult<()>,
) -> bool {
    exists|y: CompilerV, code: UiuaResult<Vec<Instr>>| #[trigger]
        did_compile_words(t, scope_entered(v, names), words, true, y, code) && {
            let x = scope_left(y, names);
            match code {
                Err(e) => w == x && res == Err::<(), UiuaError>(e),
                Ok(code) => exists|sig: UiuaResult<Signature>| #[trigger]
                    did_sig_of(t, x, code@, span, sig) && match sig {
                        Err(e) => w == x && res == Err::<(), UiuaError>(e),
                        Ok(sig) => res is Ok && w == macro_called(x, name, sig, code@, span, call),
                    },
            }
        }
}

/// What was done with the use of a macro that is expanded word by word.
pub open spec fn stack_macro_used<T: Toolchain>(
    t: &T,
    v: CompilerV,
    name: String,
    mac: StackMacroV,
    m: ModifiedV,
    call: bool,
    w: CompilerV,
    res: UiuaResult<()>,
) -> bool {
    let span = m.modifier.span;
    exists|u: CompilerV, words: Seq<Sp<WordV>>, out: UiuaResult<()>| #[trigger]
        macro_expanded(t, v, name, mac.words, m.operands, span, u, words, out) && match out {
            Err(e) => w == u && res == Err::<(), UiuaError>(e),
            Ok(_) => expansion_compiled(t, u, name, mac.names, words, span, call, w, res),
        }
}

/// The operands that a macro is run on: the functions of a pack count as operands.
pub open spec fn run_operands(m: ModifiedV) -> Seq<Sp<WordV>> {
    let words = code_words(m.operands);
    if words.len() == 1 && words[0].value is Switch {
        words[0].value->Switch_0.branches.map_values(|b| func_word(b))
    } else {
        words
    }
}

/// The low byte of a count.
pub open spec fn low_byte(n: usize) -> u8 {
    (n % 256) as u8
}

/// Some operands were compiled one after the other, and these are the low bytes of their numbers
/// of arguments and outputs.
pub open spec fn signatures_read<T: Toolchain>(
    t: &T,
    v: CompilerV,
    operands: Seq<Sp<WordV>>,
    w: CompilerV,
    data: Seq<u8>,
) -> bool
    decreases operands.len(),
{
    if operands.len() == 0 {
        w == v && data.len() == 0
    } else {
        let before = data.take(data.len() - 2);
        data.len() >= 2 && exists|mid: CompilerV, code: Vec<Instr>, sig: Signature| #[trigger]
            did_compile_operand_word(t, mid, operands.last(), w, Ok((code, sig)))
                && signatures_read(t, v, operands.drop_last(), mid, before) && data == before
                + seq![low_byte(sig.args), low_byte(sig.outputs)]
    }
}

/// One of some operands could not be compiled, after those before it were.
pub open spec fn signatures_failed<T: Toolchain>(
    t: &T,
    v: CompilerV,
    operands: Seq<Sp<WordV>>,
    e: UiuaError,
) -> bool {
    exists|i: int, mid: CompilerV, w: CompilerV, data: Seq<u8>| #[trigger]
        did_compile_operand_word(t, mid, operands[i], w, Err(e)) && #[trigger] signatures_read(
            t,
            v,
            operands.take(i),
            mid,
            data,
        ) && 0 <= i < operands.len()
}

/// The signatures of the operands that a macro is run on, for a function of two arguments, as a
/// table of bytes.
pub open spec fn operand_signatures<T: Toolchain>(
    t: &T,
    v: CompilerV,
    function: Function,
    operands: Seq<Sp<WordV>>,
    res: UiuaResult<Option<Value>>,
) -> bool {
    if function.sig.args == 2 {
        match res {
            Err(e) => signatures_failed(t, v, operands, e),
            Ok(None) => false,
            Ok(Some(value)) => exists|w: CompilerV, data: Seq<u8>| #[trigger]
                signatures_read(t, v, operands, w, data) && is_byte_pairs(
                    value,
                    operands.len(),
                    data,
                ),
        }
    } else {
        res == Ok::<Option<Value>, UiuaError>(None)
    }
}

/// The texts of the operands that a macro is run on.
pub open spec fn operand_texts<T: Toolchain>(
    t: &T,
    v: CompilerV,
    operands: Seq<Sp<WordV>>,
    texts: Seq<Seq<char>>,
) -> bool {
    &&& texts.len() == operands.len()
    &&& forall|i: int|
        0 <= i < operands.len() ==> is_operand_text(t, v, operands[i], #[trigger] texts[i])
}

pub open spec fn is_operand_text<T: Toolchain>(
    t: &T,
    v: CompilerV,
    operand: Sp<WordV>,
    text: Seq<char>,
) -> bool {
    exists|formatted: String| #[trigger]
        did_format_word(t, operand, v.assembly.inputs, formatted) && text == operand_chars(
            formatted@,
            operand.value is Func,
        )
}

/// The stack that the function of a macro is called on.
pub open spec fn is_macro_stack(
    before: Seq<Value>,
    sigs: Option<Value>,
    texts: Seq<Seq<char>>,
    stack: Seq<Value>,
) -> bool {
    exists|value: Value| #[trigger]
        is_boxed_texts(value, texts) && stack == match sigs {
            Some(table) => before.push(table).push(value),
            None => before.push(value),
        }
}

/// What each row of a value has to be, as it is said where one is something else.
pub open spec fn row_requirement() -> Seq<char> {
    "Macro output rows must be strings"@
}

/// Some rows are these texts.
pub open spec fn rows_are<T: Toolchain>(
    t: &T,
    env: EnvV,
    rows: Seq<Value>,
    texts: Seq<Seq<char>>,
) -> bool {
    &&& texts.len() == rows.len()
    &&& forall|i: int| 0 <= i < rows.len() ==> is_row_text(t, env, rows[i], #[trigger] texts[i])
}

pub open spec fn is_row_text<T: Toolchain>(t: &T, env: EnvV, row: Value, text: Seq<char>) -> bool {
    exists|s: String| #[trigger]
        did_as_string(t, env, row, row_requirement(), Ok(s)) && s@ == text
}

/// The code that the value which a macro came to stands for: its text, or the texts of its rows.
pub open spec fn is_macro_code<T: Toolchain>(
    t: &T,
    env: EnvV,
    value: Value,
    res: UiuaResult<String>,
) -> bool {
    exists|whole: UiuaResult<String>| #[trigger]
        did_as_string(t, env, value, ""@, whole) && match whole {
            Ok(s) => res == Ok::<String, UiuaError>(s),
            Err(_) => exists|rows: Vec<Value>| #[trigger]
                did_into_rows(t, value, rows) && is_rows_code(t, env, rows@, res),
        }
}

pub open spec fn is_rows_code<T: Toolchain>(
    t: &T,
    env: EnvV,
    rows: Seq<Value>,
    res: UiuaResult<String>,
) -> bool {
    match res {
        Ok(code) => exists|texts: Seq<Seq<char>>| #[trigger]
            rows_are(t, env, rows, texts) && code@ == rows_joined(texts),
        Err(e) => exists|i: int, texts: Seq<Seq<char>>| #[trigger]
            did_as_string(t, env, rows[i], row_requirement(), Err(e)) && #[trigger] rows_are(
                t,
                env,
                rows.take(i),
                texts,
            ) && 0 <= i < rows.len(),
    }
}

/// A compiler with another runtime for macros.
pub open spec fn with_env(v: CompilerV, env: EnvV) -> CompilerV {
    CompilerV { env, ..v }
}

/// What came of the call of a macro's function in the runtime `env`: the code that the macro
/// makes, and the runtime as the macro left it.
pub open spec fn macro_run<T: Toolchain>(
    t: &T,
    env: EnvV,
    function: Function,
    sigs: Option<Value>,
    texts: Seq<Seq<char>>,
    end: EnvV,
    res: UiuaResult<String>,
) -> bool {
    exists|stack: Seq<Value>, after: EnvV, called: UiuaResult<()>| #[trigger]
        did_call_function(t, EnvV { stack, ..env }, function, after, called) && is_macro_stack(
            env.stack,
            sigs,
            texts,
            stack,
        ) && match called {
            Err(e) => end == after && res == Err::<String, UiuaError>(e),
            Ok(_) => if after.stack.len() == 0 {
                end == after && (res matches Err(e) && is_stack_empty(e, "macro result"@))
            } else {
                &&& end == (EnvV { stack: after.stack.drop_last(), ..after })
                &&& is_macro_code(t, end, after.stack.last(), res)
            },
        }
}

/// What came of getting the runtime of macros ready and calling a macro's function in it.
pub open spec fn macro_evaluated<T: Toolchain>(
    t: &T,
    v: CompilerV,
    function: Function,
    sigs: Option<Value>,
    texts: Seq<Seq<char>>,
    w: CompilerV,
    res: UiuaResult<String>,
) -> bool {
    exists|env: EnvV, ready: UiuaResult<()>| #[trigger]
        did_run_top_slices(t, prepared_env(v), env, ready) && w == with_env(v, w.env)
            && match ready {
            Err(e) => w.env == env && res == Err::<String, UiuaError>(e),
            Ok(_) => macro_run(t, env, function, sigs, texts, w.env, res),
        }
}

/// What was done with the code that a macro made.
pub open spec fn macro_code_compiled<T: Toolchain>(
    t: &T,
    v: CompilerV,
    name: String,
    names: Seq<(Seq<char>, LocalName)>,
    text: String,
    m: ModifiedV,
    call: bool,
    w: CompilerV,
    res: UiuaResult<()>,
) -> bool {
    let span = m.modifier.span;
    let noted = with_expansion(v, merged(span, m.operands.last().span), name, text);
    exists|y: CompilerV| #[trigger]
        quoted(t, scope_entered(noted, names), text@, span, call, y, res) && w == scope_left(
            y,
            names,
        )
}

/// What was done with the use of a macro that is run.
pub open spec fn array_macro_used<T: Toolchain>(
    t: &T,
    v: CompilerV,
    name: String,
    mac: ArrayMacroV,
    m: ModifiedV,
    call: bool,
    w: CompilerV,
    res: UiuaResult<()>,
) -> bool {
    let operands = run_operands(m);
    exists|sigs: UiuaResult<Option<Value>>| #[trigger]
        operand_signatures(t, v, mac.function, operands, sigs) && match sigs {
            Err(e) => w == v && res == Err::<(), UiuaError>(e),
            Ok(sigs) => exists|texts: Seq<Seq<char>>, x: CompilerV, code: UiuaResult<String>|
                #![trigger macro_evaluated(t, v, mac.function, sigs, texts, x, code)]
                {
                    &&& operand_texts(t, v, operands, texts)
                    &&& macro_evaluated(t, v, mac.function, sigs, texts, x, code)
                    &&& match code {
                        Err(e) => w == x && res == Err::<(), UiuaError>(
                            traced(e, m.modifier.span),
                        ),
                        Ok(text) => macro_code_compiled(
                            t,
                            x,
                            name,
                            mac.names,
                            text,
                            m,
                            call,
                            w,
                            res,
                        ),
                    }
                },
        }
}

/// The low byte of a count.
fn make_low_byte(n: usize) -> (res: u8)
    ensures
        res == low_byte(n),
{
    (n % 256) as u8
}

/// The operands that a macro is run on.
fn find_run_operands(m: &Modified) -> (res: Vec<Sp<Word>>)
    ensures
        words_view(res@) == run_operands(m@),
{
    let words = only_code(&m.operands);
    let ghost all = words_view(words@);
    if words.len() == 1 {
        if let Word::Switch(sw) = &words[0].value {
            let ghost branches = branches_view(sw.branches@);
            assert(all[0].value == WordV::Switch(sw@));
            let res = func_words(&sw.branches);
            assert(words_view(res@) =~= branches.map_values(|b| func_word(b)));
            return res;
        }
        assert(!(all[0].value is Switch));
    }
    words
}

impl Compiler {
    /// Uses a macro that is expanded word by word.
    pub fn use_stack_macro<T: Toolchain>(
        &mut self,
        t: &T,
        name: &String,
        mac: StackMacro,
        m: &Modified,
        call: bool,
    ) -> (res: UiuaResult<()>)
        requires
            orderly(t),
            well_formed(old(self)@),
            m@.operands.len() > 0,
        ensures
            stack_macro_used(t, old(self)@, *name, mac@, m@, call, final(self)@, res),
            place_kept(old(self)@, final(self)@, res is Ok),
    {
        let ghost v = self@;
        let ghost mac_view = mac@;
        let mut words = mac.words;
        let out = self.expand_macro(
            t,
            name.clone(),
            &mut words,
            clone_words(&m.operands),
            m.modifier.span.clone(),
        );
        let ghost u = self@;
        assert(macro_expanded(
            t,
            v,
            *name,
            mac_view.words,
            m@.operands,
            m.modifier.span,
            u,
            words_view(words@),
            out,
        ));
        if let Err(e) = out {
            proof {
                lemma_kept_anyway(v, u, true);
            }
            return Err(e);
        }
        let res = self.compile_expansion(t, name, mac.names, &words, &m.modifier.span, call);
        proof {
            lemma_kept_on(v, u, self@, res is Ok);
        }
        res
    }

    /// Compiles the words that a macro was expanded to, in a scope with the names of the macro.
    fn compile_expansion<T: Toolchain>(
        &mut self,
        t: &T,
        name: &String,
        names: IndexMap<String, LocalName>,
        words: &Vec<Sp<Word>>,
        span: &CodeSpan,
        call: bool,
    ) -> (res: UiuaResult<()>)
        requires
            orderly(t),
            well_formed(old(self)@),
        ensures
            expansion_compiled(
                t,
                old(self)@,
                *name,
                names_of(names),
                words_view(words@),
                *span,
                call,
                final(self)@,
                res,
            ),
            place_kept(old(self)@, final(self)@, res is Ok),
    {
        let ghost v = self@;
        let ghost given = names_of(names);
        let ghost entered = scope_entered(v, given);
        let compile = |comp: &mut Compiler| -> (r: UiuaResult<Vec<Instr>>)
            requires
                orderly(t),
            ensures
                did_compile_words(t, old(comp)@, words_view(words@), true, final(comp)@, r),
                place_kept(old(comp)@, final(comp)@, r is Ok),
                r matches Ok(code) ==> code_fits(old(comp)@, final(comp)@, code@),
            { comp.do_compile_words(t, words, true) };
        let code = self.temp_scope(names, compile);
        let ghost x = self@;
        proof {
            let m = choose|m: &mut Compiler|
                #![trigger call_ensures(compile, (m,), code)]
                {
                    &&& call_ensures(compile, (m,), code)
                    &&& (*m)@ == entered
                    &&& x == scope_left((*final(m))@, given)
                };
            let y = (*final(m))@;
            assert(did_compile_words(t, entered, words_view(words@), true, y, code));
            lemma_kept_scoped(v, given, y, code is Ok);
            lemma_scope_entered(v, given);
        }
        match code {
            Err(e) => Err(e),
            Ok(instrs) => {
                let sig = t.sig_of(self, &instrs, span);
                assert(did_sig_of(t, x, instrs@, *span, sig));
                match sig {
                    Err(e) => {
                        proof {
                            lemma_kept_anyway(v, x, true);
                        }
                        Err(e)
                    },
                    Ok(sig) => {
                        let func = self.make_function(
                            FunctionId::Named(name.clone()),
                            sig,
                            instrs,
                        );
                        let ghost made = self@;
                        self.push_instr(Instr::PushFunc(func));
                        let ghost pushed = self@;
                        proof {
                            lemma_kept_on(v, x, made, true);
                            lemma_kept_on(v, made, pushed, true);
                        }
                        if call {
                            let at: usize = self.add_span(span.clone());
                            let ghost spanned = self@;
                            self.push_instr(Instr::Call(at));
                            proof {
                                lemma_kept_on(v, pushed, spanned, true);
                                lemma_kept_on(v, spanned, self@, true);
                            }
                        }
                        Ok(())
                    },
                }
            },
        }
    }

    /// The signatures of the operands that a macro is run on, for a function of two arguments. The
    /// operands are compiled in a copy of the compiler.
    fn read_signatures<T: Toolchain>(
        &self,
        t: &T,
        function: &Function,
        operands: &Vec<Sp<Word>>,
    ) -> (res: UiuaResult<Option<Value>>)
        requires
            orderly(t),
        ensures
            operand_signatures(t, self@, *function, words_view(operands@), res),
    {
        if function.signature().args != 2 {
            return Ok(None);
        }
        let ghost v = self@;
        let ghost all = words_view(operands@);
        let mut comp = self.clone();
        let mut data: EcoVec<u8> = bytes_new();
        for i in 0..operands.len()
            invariant
                orderly(t),
                v == self@,
                function.sig.args == 2,
                all == words_view(operands@),
                signatures_read(t, v, all.take(i as int), comp@, bytes_of(data)),
        {
            let ghost mid = comp@;
            let ghost before = bytes_of(data);
            assert(all.take(i + 1).drop_last() =~= all.take(i as int));
            assert(all.take(i + 1).last() == sp_view(operands@[i as int]));
            let out = comp.do_compile_operand_word(t, &operands[i]);
            match out {
                Err(e) => {
                    assert(did_compile_operand_word(t, mid, all[i as int], comp@, Err(e)));
                    assert(signatures_failed(t, v, all, e));
                    return Err(e);
                },
                Ok((instrs, sig)) => {
                    let pair: [u8; 2] = [make_low_byte(sig.args), make_low_byte(sig.outputs)];
                    bytes_extend(&mut data, pair.as_slice());
                    proof {
                        assert(pair@ =~= seq![low_byte(sig.args), low_byte(sig.outputs)]);
                        assert(did_compile_operand_word(
                            t,
                            mid,
                            all.take(i + 1).last(),
                            comp@,
                            Ok((instrs, sig)),
                        ));
                        let now = bytes_of(data);
                        assert(now.take(now.len() - 2) =~= before);
                    }
                },
            }
        }
        assert(all.take(all.len() as int) =~= all);
        let ghost bytes = bytes_of(data);
        let value = Value::byte_pairs(operands.len(), data);
        assert(signatures_read(t, v, all, comp@, bytes));
        Ok(Some(value))
    }

    /// The texts of the operands that a macro is run on.
    fn read_texts<T: Toolchain>(&self, t: &T, operands: &Vec<Sp<Word>>) -> (res: Vec<String>)
        ensures
            operand_texts(
                t,
                self@,
                words_view(operands@),
                res@.map_values(|s: String| s@),
            ),
    {
        let ghost all = words_view(operands@);
        let mut texts: Vec<String> = Vec::new();
        for i in 0..operands.len()
            invariant
                all == words_view(operands@),
                texts@.len() == i,
                forall|j: int|
                    0 <= j < i ==> is_operand_text(t, self@, all[j], (#[trigger] texts@[j])@),
        {
            let word = &operands[i];
            let formatted = t.format_word(word, &self.assembly.inputs);
            assert(did_format_word(t, all[i as int], self@.assembly.inputs, formatted));
            let is_func = match &word.value {
                Word::Func(_) => true,
                _ => false,
            };
            assert(is_func == all[i as int].value is Func);
            texts.push(operand_text(formatted.as_str(), is_func));
        }
        texts
    }

    /// The code that the value which a macro came to stands for.
    fn read_macro_code<T: Toolchain>(&self, t: &T, value: Value) -> (res: UiuaResult<String>)
        ensures
            is_macro_code(t, self@.env, value, res),
    {
        let ghost env = self@.env;
        let whole = t.as_string(&self.macro_env, &value, "");
        assert(did_as_string(t, env, value, ""@, whole));
        if let Ok(code) = whole {
            return Ok(code);
        }
        let rows = t.into_rows(value);
        assert(did_into_rows(t, value, rows));
        let mut code = String::new();
        let ghost mut texts: Seq<Seq<char>> = Seq::empty();
        assert(code@ =~= rows_joined(texts));
        for i in 0..rows.len()
            invariant
                env == self@.env,
                did_as_string(t, env, value, ""@, whole),
                whole is Err,
                did_into_rows(t, value, rows),
                rows_are(t, env, rows@.take(i as int), texts),
                code@ == rows_joined(texts),
        {
            let out = t.as_string(&self.macro_env, &rows[i], "Macro output rows must be strings");
            assert(did_as_string(t, env, rows@[i as int], row_requirement(), out));
            match out {
                Err(e) => {
                    assert(is_rows_code(t, env, rows@, Err(e)));
                    return Err(e);
                },
                Ok(s) => {
                    add_row(&mut code, s.as_str());
                    proof {
                        let before = texts;
                        texts = texts.push(s@);
                        assert(texts.drop_last() =~= before);
                        assert(is_row_text(t, env, rows@[i as int], s@));
                        assert forall|j: int| 0 <= j < i + 1 implies is_row_text(
                            t,
                            env,
                            rows@.take(i + 1)[j],
                            #[trigger] texts[j],
                        ) by {
                            if j < i {
                                assert(texts[j] == before[j]);
                                assert(rows@.take(i as int)[j] == rows@[j]);
                            }
                        }
                    }
                },
            }
        }
        assert(rows@.take(rows@.len() as int) =~= rows@);
        assert(is_rows_code(t, env, rows@, Ok(code)));
        Ok(code)
    }

    /// Calls the function of a macro.
    fn run_macro<T: Toolchain>(
        &mut self,
        t: &T,
        function: &Function,
        sigs: Option<Value>,
        texts: &Vec<String>,
    ) -> (res: UiuaResult<String>)
        requires
            orderly(t),
            well_formed(old(self)@),
        ensures
            macro_evaluated(
                t,
                old(self)@,
                *function,
                sigs,
                texts@.map_values(|s: String| s@),
                final(self)@,
                res,
            ),
            place_kept(old(self)@, final(self)@, true),
    {
        let ghost v = self@;
        let ghost chars = texts@.map_values(|s: String| s@);
        let ready = self.prepare_env(t);
        let ghost env = self@.env;
        assert(did_run_top_slices(t, prepared_env(v), env, ready));
        if let Err(e) = ready {
            return Err(e);
        }
        if let Some(table) = sigs {
            self.macro_env.push(table);
        }
        let value = Value::boxed_texts(texts);
        self.macro_env.push(value);
        let ghost stack = self@.env.stack;
        assert(is_boxed_texts(value, chars));
        assert(is_macro_stack(env.stack, sigs, chars, stack));
        assert(self.macro_env@ =~= (EnvV { stack, ..env }));
        let called = self.macro_env.do_call_function(t, function);
        let ghost after = self@.env;
        assert(did_call_function(t, EnvV { stack, ..env }, *function, after, called));
        proof {
            assert(self@ =~= with_env(v, after));
            lemma_kept_env(v, self@);
        }
        if let Err(e) = called {
            return Err(e);
        }
        let popped = self.macro_env.pop("macro result");
        proof {
            assert(self@ =~= with_env(v, self@.env));
            lemma_kept_env(v, self@);
        }
        let value = match popped {
            Err(e) => return Err(e),
            Ok(value) => value,
        };
        self.read_macro_code(t, value)
    }

    /// Compiles the code that a macro made, in a scope with the names of the macro.
    fn compile_macro_code<T: Toolchain>(
        &mut self,
        t: &T,
        name: &String,
        names: IndexMap<String, LocalName>,
        text: String,
        m: &Modified,
        call: bool,
    ) -> (res: UiuaResult<()>)
        requires
            orderly(t),
            well_formed(old(self)@),
            m@.operands.len() > 0,
        ensures
            macro_code_compiled(
                t,
                old(self)@,
                *name,
                names_of(names),
                text,
                m@,
                call,
                final(self)@,
                res,
            ),
            place_kept(old(self)@, final(self)@, res is Ok),
    {
        let ghost v = self@;
        let ghost given = names_of(names);
        let span = &m.modifier.span;
        let last = m.operands[m.operands.len() - 1].span.clone();
        assert(last == m@.operands.last().span);
        let full = span.clone().merge(last);
        self.code_meta.macro_expansions.insert(
            full,
            Expansion { name: name.clone(), text: text.clone() },
        );
        let ghost noted = self@;
        let ghost entered = scope_entered(noted, given);
        proof {
            assert(noted =~= with_expansion(
                v,
                merged(*span, m@.operands.last().span),
                *name,
                text,
            ));
            lemma_kept_aside(v, v, noted, true);
        }
        let compile = |comp: &mut Compiler| -> (r: UiuaResult<()>)
            requires
                orderly(t),
            ensures
                quoted(t, old(comp)@, text@, *span, call, final(comp)@, r),
                place_kept(old(comp)@, final(comp)@, r is Ok),
            { comp.quote(t, text.as_str(), span, call) };
        let res = self.temp_scope(names, compile);
        let ghost x = self@;
        proof {
            let c = choose|c: &mut Compiler|
                #![trigger call_ensures(compile, (c,), res)]
                {
                    &&& call_ensures(compile, (c,), res)
                    &&& (*c)@ == entered
                    &&& x == scope_left((*final(c))@, given)
                };
            let y = (*final(c))@;
            assert(quoted(t, entered, text@, *span, call, y, res));
            lemma_kept_scoped(noted, given, y, res is Ok);
            lemma_kept_on(v, noted, x, res is Ok);
        }
        res
    }

    /// Uses a macro that is run.
    pub fn use_array_macro<T: Toolchain>(
        &mut self,
        t: &T,
        name: &String,
        mac: ArrayMacro,
        m: &Modified,
        call: bool,
    ) -> (res: UiuaResult<()>)
        requires
            orderly(t),
            well_formed(old(self)@),
            m@.operands.len() > 0,
        ensures
            array_macro_used(t, old(self)@, *name, mac@, m@, call, final(self)@, res),
            place_kept(old(self)@, final(self)@, res is Ok),
    {
        let ghost v = self@;
        let operands = find_run_operands(m);
        let ghost words = run_operands(m@);
        let sigs = self.read_signatures(t, &mac.function, &operands);
        assert(operand_signatures(t, v, mac.function, words, sigs));
        let sigs = match sigs {
            Err(e) => return Err(e),
            Ok(sigs) => sigs,
        };
        let texts = self.read_texts(t, &operands);
        let ghost chars = texts@.map_values(|s: String| s@);
        let code = self.run_macro(t, &mac.function, sigs, &texts);
        let ghost x = self@;
        assert(macro_evaluated(t, v, mac.function, sigs, chars, x, code));
        match code {
            Err(e) => {
                proof {
                    lemma_kept_anyway(v, x, true);
                }
                Err(e.trace_macro(m.modifier.span.clone()))
            },
            Ok(text) => {
                let res = self.compile_macro_code(t, name, mac.names, text, m, call);
                proof {
                    lemma_kept_on(v, x, self@, res is Ok);
                }
                res
            },
        }
    }
}

/// A compiler whose runtime for macros has no more bindings than its assembly stays in its place.
proof fn lemma_kept_env(v: CompilerV, w: CompilerV)
    requires
        w == with_env(v, w.env),
        w.env.assembly.bindings.len() <= v.assembly.bindings.len(),
    ensures
        place_kept(v, w, true),
{
}

} // verus!
