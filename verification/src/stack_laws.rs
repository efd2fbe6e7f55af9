//! What the modifiers that arrange values on the stack come to, from their operands to the code.
use crate::codegen::{
    both_code, both_sig, bracket_code, bracket_sig, by_code, cascade_code, cascade_count,
    cascade_sig, content_code, copy_temp, dip_code, fork_code, fork_sig, gap_code, if_any,
    narrow_code, on_code, pop_temp, push_temp, repeated, unbox_code, unbox_each,
};
use crate::compiler::{emitted, next_span, with_span, CompilerV};
use crate::effects::{
    has_effect, law_both_signature, law_bracket_signature, law_by_signature, law_cascade_signature,
    law_dip_signature, law_fork_signature, law_gap_signature, law_on_signature,
};
use crate::inline::form_compiled;
use crate::instr::Instr;
use crate::meaning::{
    acts, below, law_both_meaning, law_bracket_meaning, law_by_meaning, law_cascade_meaning,
    law_dip_meaning, law_fork_meaning, law_gap_meaning, law_on_meaning, law_redundant_cascade, top,
    Meaning, Others,
};
use crate::message::{Diagnostic, DiagnosticKind, Message, UiuaError, UiuaResult};
use crate::outcome::{
    comes_to, comes_to_stated, fits, is_span, lemma_emitted, lemma_finished, only_code_differs,
};
use crate::prim::{ImplPrimitive, Primitive, Signature};
use crate::span::{merged, CodeSpan, Sp};
use crate::stacking::{
    arranged_code, arranged_sig, both_emitted, cascade_noted, dip_noted, fork_noted, last_dup,
    two_compiled,
};
use crate::toolchain::{did_compile_operand_word, did_prim_text, moderate, orderly, Toolchain};
use crate::value::Value;
use crate::word::{code_words, ModifiedV, WordV};
use vstd::prelude::*;

verus! {

/// What instructions take and leave.
pub type Given = spec_fn(Instr) -> Signature;

/// An operand was compiled by itself, to some code with a signature, and the modifier came to code
/// of its own with its own signature. `n` stands for the place of the modifier.
pub open spec fn one_arranged<T: Toolchain>(
    t: &T,
    v: CompilerV,
    word: Sp<WordV>,
    u: CompilerV,
    code: Vec<Instr>,
    sig: Signature,
    span: CodeSpan,
    call: bool,
    n: usize,
    whole: Seq<Instr>,
    whole_sig: Signature,
    w: CompilerV,
) -> bool {
    &&& did_compile_operand_word(t, v, word, u, Ok((code, sig)))
    &&& is_span(w, n, span)
    &&& only_code_differs(u, w)
    &&& comes_to_stated(u, w, span, call, whole_sig, whole)
}

/// Two operands were compiled by themselves, one after the other, and the modifier came to code of
/// its own with its own signature.
pub open spec fn two_arranged<T: Toolchain>(
    t: &T,
    v: CompilerV,
    first: Sp<WordV>,
    second: Sp<WordV>,
    between: CompilerV,
    u: CompilerV,
    a: (Vec<Instr>, Signature),
    b: (Vec<Instr>, Signature),
    span: CodeSpan,
    call: bool,
    n: usize,
    whole: Seq<Instr>,
    whole_sig: Signature,
    w: CompilerV,
) -> bool {
    &&& did_compile_operand_word(t, v, first, between, Ok(a))
    &&& did_compile_operand_word(t, between, second, u, Ok(b))
    &&& is_span(w, n, span)
    &&& only_code_differs(u, w)
    &&& comes_to_stated(u, w, span, call, whole_sig, whole)
}

/// One of two operands could not be compiled: the first, or the second after it.
pub open spec fn two_failed<T: Toolchain>(
    t: &T,
    v: CompilerV,
    first: Sp<WordV>,
    second: Sp<WordV>,
    w: CompilerV,
    e: UiuaError,
) -> bool {
    ||| did_compile_operand_word(t, v, first, w, Err(e))
    ||| exists|between: CompilerV, a: (Vec<Instr>, Signature)|
        #![trigger did_compile_operand_word(t, v, first, between, Ok(a))]
        did_compile_operand_word(t, v, first, between, Ok(a)) && did_compile_operand_word(
            t,
            between,
            second,
            w,
            Err(e),
        )
}

proof fn lemma_moderate<T: Toolchain>(
    t: &T,
    v: CompilerV,
    word: Sp<WordV>,
    u: CompilerV,
    code: Vec<Instr>,
    sig: Signature,
)
    requires
        orderly(t),
        did_compile_operand_word(t, v, word, u, Ok((code, sig))),
    ensures
        moderate(sig),
{
    reveal(orderly);
}

/// What has come of a dip, gap, on or by whose operand was compiled.
proof fn lemma_arranged<T: Toolchain>(
    t: &T,
    v: CompilerV,
    prim: Primitive,
    m: ModifiedV,
    call: bool,
    w: CompilerV,
) -> (out: (CompilerV, Vec<Instr>, Signature, usize))
    requires
        orderly(t),
        fits(w),
        prim == Primitive::Dip || prim == Primitive::Gap || prim == Primitive::On || prim
            == Primitive::By,
        form_compiled(t, v, prim, m, call, w, Ok(())),
    ensures
        moderate(out.2),
        one_arranged(
            t,
            v,
            m.operands[0],
            out.0,
            out.1,
            out.2,
            m.modifier.span,
            call,
            out.3,
            arranged_code(prim, out.1@, out.2, out.3),
            arranged_sig(prim, out.2),
            w,
        ),
        w.diagnostics == dip_noted(out.0, prim, out.2, m.modifier.span).diagnostics,
{
    let span = m.modifier.span;
    let (u, out) = choose|u: CompilerV, out: UiuaResult<(Vec<Instr>, Signature)>| #[trigger]
        did_compile_operand_word(t, v, m.operands[0], u, out) && match out {
            Err(e) => false,
            Ok((code, sig)) => {
                let noted = dip_noted(u, prim, sig, span);
                w == emitted(
                    with_span(noted, span),
                    span,
                    call,
                    arranged_sig(prim, sig),
                    arranged_code(prim, code@, sig, next_span(noted)),
                )
            },
        };
    let (code, sig) = out->Ok_0;
    let noted = dip_noted(u, prim, sig, span);
    let n = next_span(noted);
    lemma_moderate(t, v, m.operands[0], u, code, sig);
    lemma_emitted(
        with_span(noted, span),
        span,
        call,
        arranged_sig(prim, sig),
        arranged_code(prim, code@, sig, n),
    );
    (u, code, sig, n)
}

/// A dip compiles its operand and comes to code that leaves the top value where it is and does
/// what the operand does below it. That code has one argument and one output more. A style
/// is only suggested where the function that is being compiled ends in a duplicate and the operand
/// has one argument and one output.
pub proof fn law_dip_compiled<T: Toolchain>(
    t: &T,
    v: CompilerV,
    m: ModifiedV,
    call: bool,
    w: CompilerV,
    res: UiuaResult<()>,
    others: Others,
    f: Meaning,
    given: Given,
)
    requires
        orderly(t),
        fits(w),
        form_compiled(t, v, Primitive::Dip, m, call, w, res),
    ensures
        match res {
            Err(e) => did_compile_operand_word(t, v, m.operands[0], w, Err(e)),
            Ok(_) => exists|
                u: CompilerV,
                code: Vec<Instr>,
                sig: Signature,
                n: usize,
                whole: Seq<Instr>,
                whole_sig: Signature,
            |
                {
                    &&& #[trigger] one_arranged(
                        t,
                        v,
                        m.operands[0],
                        u,
                        code,
                        sig,
                        m.modifier.span,
                        call,
                        n,
                        whole,
                        whole_sig,
                        w,
                    )
                    &&& whole == dip_code(code@, n)
                    &&& whole_sig.args == sig.args + 1
                    &&& whole_sig.outputs == sig.outputs + 1
                    &&& has_effect(given, code@, sig) ==> has_effect(given, whole, whole_sig)
                    &&& acts(others, code@, sig.args as nat, f) ==> acts(
                        others,
                        whole,
                        whole_sig.args as nat,
                        |x: Seq<Value>| f(x.drop_last()).push(x.last()),
                    )
                    &&& on_is_suggested(u, sig, m.modifier.span, w)
                },
        },
{
    if res is Ok {
        let (u, code, sig, n) = lemma_arranged(t, v, Primitive::Dip, m, call, w);
        if has_effect(given, code@, sig) {
            law_dip_signature(given, code@, sig, n);
        }
        if acts(others, code@, sig.args as nat, f) {
            law_dip_meaning(others, code@, sig, f, n);
        }
        if let Some(dup) = last_dup(u) {
            assert(is_span(u, u.frames.last().last()->Prim_1, dup));
        }
        assert(on_is_suggested(u, sig, m.modifier.span, w));
    }
}

/// On is suggested in place of a dip exactly where the function that is being compiled ends in a
/// duplicate whose place is known and the function of the dip has one argument and one output.
pub open spec fn on_is_suggested(
    u: CompilerV,
    sig: Signature,
    span: CodeSpan,
    w: CompilerV,
) -> bool {
    let suits = sig.args == 1 && sig.outputs == 1 && u.frames.len() > 0;
    let code = u.frames.last();
    &&& forall|n: usize, dup: CodeSpan|
        #![trigger is_span(u, n, dup)]
        suits && code.len() > 0 && code.last() == Instr::Prim(Primitive::Dup, n) && is_span(
            u,
            n,
            dup,
        ) ==> w.diagnostics == u.diagnostics.push(
            Diagnostic {
                message: Message::PreferOnOverDip,
                kind: DiagnosticKind::Style,
                span: merged(span, dup),
            },
        )
    &&& !suits || code.len() == 0 || !(code.last() is Prim) || code.last()->Prim_0
        != Primitive::Dup || (forall|dup: CodeSpan| !#[trigger] is_span(
        u,
        code.last()->Prim_1,
        dup,
    )) ==> w.diagnostics == u.diagnostics
}

/// A gap compiles its operand and comes to code that drops the top value and then does what the
/// operand does.
pub proof fn law_gap_compiled<T: Toolchain>(
    t: &T,
    v: CompilerV,
    m: ModifiedV,
    call: bool,
    w: CompilerV,
    res: UiuaResult<()>,
    others: Others,
    f: Meaning,
    given: Given,
)
    requires
        orderly(t),
        fits(w),
        form_compiled(t, v, Primitive::Gap, m, call, w, res),
    ensures
        match res {
            Err(e) => did_compile_operand_word(t, v, m.operands[0], w, Err(e)),
            Ok(_) => exists|
                u: CompilerV,
                code: Vec<Instr>,
                sig: Signature,
                n: usize,
                whole: Seq<Instr>,
                whole_sig: Signature,
            |
                {
                    &&& #[trigger] one_arranged(
                        t,
                        v,
                        m.operands[0],
                        u,
                        code,
                        sig,
                        m.modifier.span,
                        call,
                        n,
                        whole,
                        whole_sig,
                        w,
                    )
                    &&& whole == gap_code(code@, n)
                    &&& whole_sig.args == sig.args + 1
                    &&& whole_sig.outputs == sig.outputs
                    &&& has_effect(given, code@, sig) ==> has_effect(given, whole, whole_sig)
                    &&& acts(others, code@, sig.args as nat, f) ==> acts(
                        others,
                        whole,
                        whole_sig.args as nat,
                        |x: Seq<Value>| f(x.drop_last()),
                    )
                    &&& w.diagnostics == u.diagnostics
                },
        },
{
    if res is Ok {
        let (u, code, sig, n) = lemma_arranged(t, v, Primitive::Gap, m, call, w);
        if has_effect(given, code@, sig) {
            law_gap_signature(given, code@, sig, n);
        }
        if acts(others, code@, sig.args as nat, f) {
            law_gap_meaning(others, code@, sig, f, n);
        }
    }
}

/// An on compiles its operand and comes to code that does what the operand does and keeps the first
/// argument on top.
pub proof fn law_on_compiled<T: Toolchain>(
    t: &T,
    v: CompilerV,
    m: ModifiedV,
    call: bool,
    w: CompilerV,
    res: UiuaResult<()>,
    others: Others,
    f: Meaning,
    given: Given,
)
    requires
        orderly(t),
        fits(w),
        form_compiled(t, v, Primitive::On, m, call, w, res),
    ensures
        match res {
            Err(e) => did_compile_operand_word(t, v, m.operands[0], w, Err(e)),
            Ok(_) => exists|
                u: CompilerV,
                code: Vec<Instr>,
                sig: Signature,
                n: usize,
                whole: Seq<Instr>,
                whole_sig: Signature,
            |
                {
                    &&& #[trigger] one_arranged(
                        t,
                        v,
                        m.operands[0],
                        u,
                        code,
                        sig,
                        m.modifier.span,
                        call,
                        n,
                        whole,
                        whole_sig,
                        w,
                    )
                    &&& whole == on_code(code@, sig, n)
                    &&& whole_sig.args == if sig.args == 0 {
                        1
                    } else {
                        sig.args
                    }
                    &&& whole_sig.outputs == sig.outputs + 1
                    &&& has_effect(given, code@, sig) ==> has_effect(given, whole, whole_sig)
                    &&& acts(others, code@, sig.args as nat, f) ==> acts(
                        others,
                        whole,
                        whole_sig.args as nat,
                        |x: Seq<Value>| f(top(x, sig.args as nat)).push(x.last()),
                    )
                    &&& w.diagnostics == u.diagnostics
                },
        },
{
    if res is Ok {
        let (u, code, sig, n) = lemma_arranged(t, v, Primitive::On, m, call, w);
        if has_effect(given, code@, sig) {
            law_on_signature(given, code@, sig, n);
        }
        if acts(others, code@, sig.args as nat, f) {
            law_on_meaning(others, code@, sig, f, n);
        }
    }
}

/// A by compiles its operand and comes to code that does what the operand does and keeps the last
/// argument below what comes out. Where the operand has no arguments, it does what the operand
/// does.
pub proof fn law_by_compiled<T: Toolchain>(
    t: &T,
    v: CompilerV,
    m: ModifiedV,
    call: bool,
    w: CompilerV,
    res: UiuaResult<()>,
    others: Others,
    f: Meaning,
    given: Given,
)
    requires
        orderly(t),
        fits(w),
        form_compiled(t, v, Primitive::By, m, call, w, res),
    ensures
        match res {
            Err(e) => did_compile_operand_word(t, v, m.operands[0], w, Err(e)),
            Ok(_) => exists|
                u: CompilerV,
                code: Vec<Instr>,
                sig: Signature,
                n: usize,
                whole: Seq<Instr>,
                whole_sig: Signature,
            |
                {
                    &&& #[trigger] one_arranged(
                        t,
                        v,
                        m.operands[0],
                        u,
                        code,
                        sig,
                        m.modifier.span,
                        call,
                        n,
                        whole,
                        whole_sig,
                        w,
                    )
                    &&& whole == by_code(code@, sig, n)
                    &&& whole_sig.args == sig.args
                    &&& whole_sig.outputs == sig.outputs + 1
                    &&& sig.args == 0 ==> whole == code@
                    &&& sig.args > 0 && has_effect(given, code@, sig) ==> has_effect(
                        given,
                        whole,
                        whole_sig,
                    )
                    &&& sig.args > 0 && acts(others, code@, sig.args as nat, f) ==> acts(
                        others,
                        whole,
                        whole_sig.args as nat,
                        |x: Seq<Value>| seq![x[0]] + f(x),
                    )
                    &&& w.diagnostics == u.diagnostics
                },
        },
{
    if res is Ok {
        let (u, code, sig, n) = lemma_arranged(t, v, Primitive::By, m, call, w);
        if sig.args > 0 && has_effect(given, code@, sig) {
            law_by_signature(given, code@, sig, n);
        }
        if sig.args > 0 && acts(others, code@, sig.args as nat, f) {
            law_by_meaning(others, code@, sig, f, n);
        }
    }
}

/// The two operands of a modifier that were compiled one after the other.
proof fn lemma_two_compiled<T: Toolchain>(
    t: &T,
    v: CompilerV,
    first: Sp<WordV>,
    second: Sp<WordV>,
    u: CompilerV,
    a: (Vec<Instr>, Signature),
    b: (Vec<Instr>, Signature),
) -> (between: CompilerV)
    requires
        orderly(t),
        two_compiled(t, v, first, second, u, Ok((a, b))),
    ensures
        did_compile_operand_word(t, v, first, between, Ok(a)),
        did_compile_operand_word(t, between, second, u, Ok(b)),
        moderate(a.1),
        moderate(b.1),
{
    let (between, out) = choose|between: CompilerV, out: UiuaResult<(Vec<Instr>, Signature)>|
        #[trigger]
        did_compile_operand_word(t, v, first, between, out) && out == Ok::<
            (Vec<Instr>, Signature),
            UiuaError,
        >(a) && did_compile_operand_word(t, between, second, u, Ok(b));
    lemma_moderate(t, v, first, between, a.0, a.1);
    lemma_moderate(t, between, second, u, b.0, b.1);
    between
}

/// The failure of one of two operands.
pub proof fn lemma_two_failed<T: Toolchain>(
    t: &T,
    v: CompilerV,
    first: Sp<WordV>,
    second: Sp<WordV>,
    w: CompilerV,
    e: UiuaError,
)
    requires
        two_compiled(t, v, first, second, w, Err(e)),
    ensures
        two_failed(t, v, first, second, w, e),
{
    let (u, a) = choose|u: CompilerV, a: UiuaResult<(Vec<Instr>, Signature)>| #[trigger]
        did_compile_operand_word(t, v, first, u, a) && match a {
            Err(d) => w == u && d == e,
            Ok(_) => did_compile_operand_word(t, u, second, w, Err(e)),
        };
    if a is Ok {
        assert(did_compile_operand_word(t, v, first, u, Ok(a->Ok_0)));
    }
}

/// A bracket compiles its operands in order and comes to code that gives the first function the
/// first arguments and the second the others. What the first leaves is on top.
pub proof fn law_bracket_compiled<T: Toolchain>(
    t: &T,
    v: CompilerV,
    m: ModifiedV,
    call: bool,
    w: CompilerV,
    res: UiuaResult<()>,
    others: Others,
    f: Meaning,
    g: Meaning,
    given: Given,
)
    requires
        orderly(t),
        fits(w),
        form_compiled(t, v, Primitive::Bracket, m, call, w, res),
    ensures
        match res {
            Err(e) => two_failed(t, v, code_words(m.operands)[0], code_words(m.operands)[1], w, e),
            Ok(_) => exists|
                between: CompilerV,
                u: CompilerV,
                a: (Vec<Instr>, Signature),
                b: (Vec<Instr>, Signature),
                n: usize,
                whole: Seq<Instr>,
                whole_sig: Signature,
            |
                {
                    &&& #[trigger] two_arranged(
                        t,
                        v,
                        code_words(m.operands)[0],
                        code_words(m.operands)[1],
                        between,
                        u,
                        a,
                        b,
                        m.modifier.span,
                        call,
                        n,
                        whole,
                        whole_sig,
                        w,
                    )
                    &&& whole == bracket_code(a.0@, a.1, b.0@, n)
                    &&& whole_sig.args == a.1.args + b.1.args
                    &&& whole_sig.outputs == a.1.outputs + b.1.outputs
                    &&& has_effect(given, a.0@, a.1) && has_effect(given, b.0@, b.1) ==> has_effect(
                        given,
                        whole,
                        whole_sig,
                    )
                    &&& acts(others, a.0@, a.1.args as nat, f) && acts(
                        others,
                        b.0@,
                        b.1.args as nat,
                        g,
                    ) ==> acts(
                        others,
                        whole,
                        whole_sig.args as nat,
                        |x: Seq<Value>| g(below(x, a.1.args as nat)) + f(top(x, a.1.args as nat)),
                    )
                    &&& w.diagnostics == u.diagnostics
                },
        },
{
    let span = m.modifier.span;
    let words = code_words(m.operands);
    let (u, out) = choose|
        u: CompilerV,
        out: UiuaResult<((Vec<Instr>, Signature), (Vec<Instr>, Signature))>,
    | #[trigger]
        two_compiled(t, v, words[0], words[1], u, out) && match out {
            Err(e) => w == u && res == Err::<(), UiuaError>(e),
            Ok(((a, a_sig), (b, b_sig))) => {
                &&& res is Ok
                &&& w == emitted(
                    with_span(u, span),
                    span,
                    call,
                    bracket_sig(a_sig, b_sig),
                    bracket_code(a@, a_sig, b@, next_span(u)),
                )
            },
        };
    match out {
        Err(e) => lemma_two_failed(t, v, words[0], words[1], w, e),
        Ok((a, b)) => {
            let between = lemma_two_compiled(t, v, words[0], words[1], u, a, b);
            let n = next_span(u);
            let whole = bracket_code(a.0@, a.1, b.0@, n);
            let whole_sig = bracket_sig(a.1, b.1);
            lemma_emitted(with_span(u, span), span, call, whole_sig, whole);
            if has_effect(given, a.0@, a.1) && has_effect(given, b.0@, b.1) {
                law_bracket_signature(given, a.0@, a.1, b.0@, b.1, n);
            }
            if acts(others, a.0@, a.1.args as nat, f) && acts(others, b.0@, b.1.args as nat, g) {
                law_bracket_meaning(others, a.0@, a.1, f, b.0@, b.1, g, n);
            }
            assert(two_arranged(
                t,
                v,
                words[0],
                words[1],
                between,
                u,
                a,
                b,
                span,
                call,
                n,
                whole,
                whole_sig,
                w,
            ));
        },
    }
}

/// A compiler that has suggested on in place of a fork, where the first function of the fork is
/// identity. Else it is as it was.
pub open spec fn on_suggested_for_fork(
    v: CompilerV,
    first: Sp<WordV>,
    span: CodeSpan,
) -> CompilerV {
    if first.value == WordV::Primitive(Primitive::Identity) {
        CompilerV {
            diagnostics: v.diagnostics.push(
                Diagnostic {
                    message: Message::PreferOnOverFork,
                    kind: DiagnosticKind::Style,
                    span: merged(span, first.span),
                },
            ),
            ..v
        }
    } else {
        v
    }
}

/// A fork compiles its operands in order and comes to code that gives both functions the same first
/// arguments. What the first leaves is on top.
pub proof fn law_fork_compiled<T: Toolchain>(
    t: &T,
    v: CompilerV,
    m: ModifiedV,
    call: bool,
    w: CompilerV,
    res: UiuaResult<()>,
    others: Others,
    f: Meaning,
    g: Meaning,
    given: Given,
)
    requires
        orderly(t),
        fits(w),
        form_compiled(t, v, Primitive::Fork, m, call, w, res),
    ensures
        ({
            let first = code_words(m.operands)[0];
            let second = code_words(m.operands)[1];
            let noted = on_suggested_for_fork(v, first, m.modifier.span);
            match res {
                Err(e) => two_failed(t, noted, first, second, w, e),
                Ok(_) => exists|
                    between: CompilerV,
                    u: CompilerV,
                    a: (Vec<Instr>, Signature),
                    b: (Vec<Instr>, Signature),
                    n: usize,
                    whole: Seq<Instr>,
                    whole_sig: Signature,
                |
                    {
                        &&& #[trigger] two_arranged(
                            t,
                            noted,
                            first,
                            second,
                            between,
                            u,
                            a,
                            b,
                            m.modifier.span,
                            call,
                            n,
                            whole,
                            whole_sig,
                            w,
                        )
                        &&& whole == fork_code(a.0@, a.1, b.0@, b.1, n)
                        &&& whole_sig.args == if a.1.args >= b.1.args {
                            a.1.args
                        } else {
                            b.1.args
                        }
                        &&& whole_sig.outputs == a.1.outputs + b.1.outputs
                        &&& has_effect(given, a.0@, a.1) && has_effect(given, b.0@, b.1)
                            ==> has_effect(given, whole, whole_sig)
                        &&& acts(others, a.0@, a.1.args as nat, f) && acts(
                            others,
                            b.0@,
                            b.1.args as nat,
                            g,
                        ) ==> acts(
                            others,
                            whole,
                            whole_sig.args as nat,
                            |x: Seq<Value>| g(top(x, b.1.args as nat)) + f(top(x, a.1.args as nat)),
                        )
                        &&& w.diagnostics == u.diagnostics
                    },
            }
        }),
{
    let span = m.modifier.span;
    let words = code_words(m.operands);
    let noted = on_suggested_for_fork(v, words[0], span);
    assert(noted == fork_noted(v, words[0], span));
    let (u, out) = choose|
        u: CompilerV,
        out: UiuaResult<((Vec<Instr>, Signature), (Vec<Instr>, Signature))>,
    | #[trigger]
        two_compiled(t, noted, words[0], words[1], u, out) && match out {
            Err(e) => w == u && res == Err::<(), UiuaError>(e),
            Ok(((a, a_sig), (b, b_sig))) => {
                &&& res is Ok
                &&& w == emitted(
                    with_span(u, span),
                    span,
                    call,
                    fork_sig(a_sig, b_sig),
                    fork_code(a@, a_sig, b@, b_sig, next_span(u)),
                )
            },
        };
    match out {
        Err(e) => lemma_two_failed(t, noted, words[0], words[1], w, e),
        Ok((a, b)) => {
            let between = lemma_two_compiled(t, noted, words[0], words[1], u, a, b);
            let n = next_span(u);
            let whole = fork_code(a.0@, a.1, b.0@, b.1, n);
            let whole_sig = fork_sig(a.1, b.1);
            lemma_emitted(with_span(u, span), span, call, whole_sig, whole);
            if has_effect(given, a.0@, a.1) && has_effect(given, b.0@, b.1) {
                law_fork_signature(given, a.0@, a.1, b.0@, b.1, n);
            }
            if acts(others, a.0@, a.1.args as nat, f) && acts(others, b.0@, b.1.args as nat, g) {
                law_fork_meaning(others, a.0@, a.1, f, b.0@, b.1, g, n);
            }
            assert(two_arranged(
                t,
                noted,
                words[0],
                words[1],
                between,
                u,
                a,
                b,
                span,
                call,
                n,
                whole,
                whole_sig,
                w,
            ));
        },
    }
}

/// A cascade compiles its operands in order and comes to code that runs the second function and
/// gives what it leaves to the first, with as many of the second one's arguments below as the first
/// one lacks. Where it lacks none, that code is the one of the second function before that of the
/// first. Advice is given where the second function leaves more than the first one takes.
pub proof fn law_cascade_compiled<T: Toolchain>(
    t: &T,
    v: CompilerV,
    m: ModifiedV,
    call: bool,
    w: CompilerV,
    res: UiuaResult<()>,
    others: Others,
    f: Meaning,
    g: Meaning,
    given: Given,
)
    requires
        orderly(t),
        fits(w),
        form_compiled(t, v, Primitive::Cascade, m, call, w, res),
    ensures
        match res {
            Err(e) => two_failed(t, v, code_words(m.operands)[0], code_words(m.operands)[1], w, e),
            Ok(_) => exists|
                between: CompilerV,
                u: CompilerV,
                a: (Vec<Instr>, Signature),
                b: (Vec<Instr>, Signature),
                n: usize,
                whole: Seq<Instr>,
                whole_sig: Signature,
            |
                {
                    let lacks = a.1.args - b.1.outputs;
                    &&& #[trigger] two_arranged(
                        t,
                        v,
                        code_words(m.operands)[0],
                        code_words(m.operands)[1],
                        between,
                        u,
                        a,
                        b,
                        m.modifier.span,
                        call,
                        n,
                        whole,
                        whole_sig,
                        w,
                    )
                    &&& whole == cascade_code(a.0@, a.1, b.0@, b.1, n)
                    &&& lacks <= 0 ==> whole == b.0@ + a.0@
                    &&& whole_sig.args == if lacks > b.1.args {
                        lacks
                    } else {
                        b.1.args as int
                    }
                    &&& whole_sig.outputs == if lacks - b.1.outputs > a.1.outputs {
                        lacks - b.1.outputs
                    } else {
                        a.1.outputs as int
                    }
                    &&& has_effect(given, a.0@, a.1) && has_effect(given, b.0@, b.1) && 0 <= lacks
                        <= b.1.args && lacks - b.1.outputs <= a.1.outputs ==> has_effect(
                        given,
                        whole,
                        whole_sig,
                    )
                    &&& acts(others, a.0@, a.1.args as nat, f) && acts(
                        others,
                        b.0@,
                        b.1.args as nat,
                        g,
                    ) && lacks >= 0 && (forall|x: Seq<Value>|
                        x.len() == b.1.args ==> (#[trigger] g(x)).len() == b.1.outputs) ==> acts(
                        others,
                        whole,
                        whole_sig.args as nat,
                        |x: Seq<Value>|
                            below(x, b.1.args as nat) + f(
                                g(top(x, b.1.args as nat)) + top(x, lacks as nat),
                            ),
                    )
                    &&& if lacks < 0 {
                        exists|text: String| #[trigger]
                            did_prim_text(t, Primitive::Cascade, text) && w.diagnostics
                                == u.diagnostics.push(
                                Diagnostic {
                                    message: Message::CascadeRedundant { prim: text },
                                    kind: DiagnosticKind::Advice,
                                    span: m.modifier.span,
                                },
                            )
                    } else {
                        w.diagnostics == u.diagnostics
                    }
                },
        },
{
    let span = m.modifier.span;
    let words = code_words(m.operands);
    let (u, out) = choose|
        u: CompilerV,
        out: UiuaResult<((Vec<Instr>, Signature), (Vec<Instr>, Signature))>,
    | #[trigger]
        two_compiled(t, v, words[0], words[1], u, out) && match out {
            Err(e) => w == u && res == Err::<(), UiuaError>(e),
            Ok(((a, a_sig), (b, b_sig))) => {
                &&& res is Ok
                &&& exists|noted: CompilerV| #[trigger]
                    cascade_noted(t, with_span(u, span), a_sig, b_sig, span, noted) && w == emitted(
                        noted,
                        span,
                        call,
                        cascade_sig(a_sig, b_sig),
                        cascade_code(a@, a_sig, b@, b_sig, next_span(u)),
                    )
            },
        };
    match out {
        Err(e) => lemma_two_failed(t, v, words[0], words[1], w, e),
        Ok((a, b)) => {
            let between = lemma_two_compiled(t, v, words[0], words[1], u, a, b);
            let n = next_span(u);
            let whole = cascade_code(a.0@, a.1, b.0@, b.1, n);
            let whole_sig = cascade_sig(a.1, b.1);
            let noted = choose|noted: CompilerV| #[trigger]
                cascade_noted(t, with_span(u, span), a.1, b.1, span, noted) && w == emitted(
                    noted,
                    span,
                    call,
                    whole_sig,
                    whole,
                );
            lemma_emitted(noted, span, call, whole_sig, whole);
            let lacks = a.1.args - b.1.outputs;
            if lacks <= 0 {
                law_redundant_cascade(a.0@, a.1, b.0@, b.1, n);
            }
            if has_effect(given, a.0@, a.1) && has_effect(given, b.0@, b.1) && 0 <= lacks
                <= b.1.args && lacks - b.1.outputs <= a.1.outputs {
                law_cascade_signature(given, a.0@, a.1, b.0@, b.1, n);
            }
            if acts(others, a.0@, a.1.args as nat, f) && acts(others, b.0@, b.1.args as nat, g)
                && lacks >= 0 && (forall|x: Seq<Value>|
                x.len() == b.1.args ==> (#[trigger] g(x)).len() == b.1.outputs) {
                law_cascade_meaning(others, a.0@, a.1, f, b.0@, b.1, g, n);
            }
            assert(two_arranged(
                t,
                v,
                words[0],
                words[1],
                between,
                u,
                a,
                b,
                span,
                call,
                n,
                whole,
                whole_sig,
                w,
            ));
        },
    }
}

/// A both compiles its operand once and comes to code that does what the operand does with two sets
/// of arguments. What comes of the first set is on top. A trace is done at once for both.
pub proof fn law_both_compiled<T: Toolchain>(
    t: &T,
    v: CompilerV,
    m: ModifiedV,
    call: bool,
    w: CompilerV,
    res: UiuaResult<()>,
    others: Others,
    f: Meaning,
    given: Given,
)
    requires
        orderly(t),
        fits(w),
        form_compiled(t, v, Primitive::Both, m, call, w, res),
    ensures
        match res {
            Err(e) => did_compile_operand_word(t, v, code_words(m.operands)[0], w, Err(e)),
            Ok(_) => exists|u: CompilerV, code: Vec<Instr>, sig: Signature|
                {
                    &&& #[trigger] did_compile_operand_word(
                        t,
                        v,
                        code_words(m.operands)[0],
                        u,
                        Ok((code, sig)),
                    )
                    &&& forall|n: usize|
                        code@ == seq![Instr::Prim(Primitive::Trace, n)] ==> #[trigger] comes_to(
                            u,
                            w,
                            m.modifier.span,
                            call,
                            Signature { args: 2, outputs: 2 },
                            seq![Instr::ImplPrim(ImplPrimitive::BothTrace, n)],
                        )
                    &&& code@.len() != 1 || !(code@[0] is Prim) || code@[0]->Prim_0
                        != Primitive::Trace ==> exists|
                        n: usize,
                        whole: Seq<Instr>,
                        whole_sig: Signature,
                    |
                        {
                            &&& #[trigger] one_arranged(
                                t,
                                v,
                                code_words(m.operands)[0],
                                u,
                                code,
                                sig,
                                m.modifier.span,
                                call,
                                n,
                                whole,
                                whole_sig,
                                w,
                            )
                            &&& whole == both_code(code@, sig, n)
                            &&& whole_sig.args == 2 * sig.args
                            &&& whole_sig.outputs == 2 * sig.outputs
                            &&& has_effect(given, code@, sig) ==> has_effect(
                                given,
                                whole,
                                whole_sig,
                            )
                            &&& acts(others, code@, sig.args as nat, f) ==> acts(
                                others,
                                whole,
                                whole_sig.args as nat,
                                |x: Seq<Value>|
                                    f(below(x, sig.args as nat)) + f(top(x, sig.args as nat)),
                            )
                        }
                    &&& only_code_differs(u, w)
                    &&& w.diagnostics == u.diagnostics
                },
        },
{
    let span = m.modifier.span;
    let word = code_words(m.operands)[0];
    if res is Ok {
        let (u, out) = choose|u: CompilerV, out: UiuaResult<(Vec<Instr>, Signature)>| #[trigger]
            did_compile_operand_word(t, v, word, u, out) && match out {
                Err(e) => false,
                Ok((code, sig)) => w == both_emitted(u, code@, sig, span, call),
            };
        let (code, sig) = out->Ok_0;
        lemma_moderate(t, v, word, u, code, sig);
        if code@.len() == 1 && code@[0] is Prim && code@[0]->Prim_0 == Primitive::Trace {
            let at = code@[0]->Prim_1;
            let trace = seq![Instr::ImplPrim(ImplPrimitive::BothTrace, at)];
            lemma_finished(u, span, call, Signature { args: 2, outputs: 2 }, trace);
            assert forall|n: usize|
                code@ == seq![Instr::Prim(Primitive::Trace, n)] implies #[trigger] comes_to(
                u,
                w,
                span,
                call,
                Signature { args: 2, outputs: 2 },
                seq![Instr::ImplPrim(ImplPrimitive::BothTrace, n)],
            ) by {
                assert(code@[0] == Instr::Prim(Primitive::Trace, n));
            }
        } else {
            let n = next_span(u);
            let whole = both_code(code@, sig, n);
            lemma_emitted(with_span(u, span), span, call, both_sig(sig), whole);
            if has_effect(given, code@, sig) {
                law_both_signature(given, code@, sig, n);
            }
            if acts(others, code@, sig.args as nat, f) {
                law_both_meaning(others, code@, sig, f, n);
            }
            assert(one_arranged(
                t,
                v,
                word,
                u,
                code,
                sig,
                span,
                call,
                n,
                whole,
                both_sig(sig),
                w,
            ));
            assert forall|k: usize|
                code@ == seq![Instr::Prim(Primitive::Trace, k)] implies #[trigger] comes_to(
                u,
                w,
                span,
                call,
                Signature { args: 2, outputs: 2 },
                seq![Instr::ImplPrim(ImplPrimitive::BothTrace, k)],
            ) by {
                assert(code@[0] == Instr::Prim(Primitive::Trace, k));
            }
        }
        assert(did_compile_operand_word(t, v, word, u, Ok((code, sig))));
    }
}

/// The number of the place that an instruction is attributed to, where it has one.
pub open spec fn place_of(instr: Instr) -> Option<usize> {
    match instr {
        Instr::Prim(_, span) => Some(span),
        Instr::ImplPrim(_, span) => Some(span),
        Instr::Call(span) => Some(span),
        Instr::PushTemp { span, .. } => Some(span),
        Instr::PopTemp { span, .. } => Some(span),
        Instr::CopyToTemp { span, .. } => Some(span),
        Instr::PushLocals { span, .. } => Some(span),
        Instr::MatchFormatPattern { span, .. } => Some(span),
        _ => None,
    }
}

/// Every instruction of some code is one of the operands', or it is attributed to a place.
pub open spec fn attributed(whole: Seq<Instr>, n: usize, operands: Seq<Instr>) -> bool {
    forall|i: int|
        #![trigger whole[i]]
        0 <= i < whole.len() ==> operands.contains(whole[i]) || place_of(whole[i]) == Some(n)
}

proof fn lemma_attributed_concat(a: Seq<Instr>, b: Seq<Instr>, n: usize, operands: Seq<Instr>)
    requires
        attributed(a, n, operands),
        attributed(b, n, operands),
    ensures
        attributed(a + b, n, operands),
{
    let whole = a + b;
    assert forall|i: int|
        #![trigger whole[i]]
        0 <= i < whole.len() implies operands.contains(whole[i]) || place_of(whole[i]) == Some(
        n,
    ) by {
        if i < a.len() {
            assert(whole[i] == a[i]);
        } else {
            assert(whole[i] == b[i - a.len()]);
        }
    }
}

proof fn lemma_unboxing_attributed(k: nat, n: usize, operands: Seq<Instr>)
    ensures
        attributed(unbox_each(k, n), n, operands),
    decreases k,
{
    if k > 0 {
        lemma_unboxing_attributed((k - 1) as nat, n, operands);
        lemma_attributed_concat(
            unbox_each((k - 1) as nat, n),
            seq![Instr::ImplPrim(ImplPrimitive::UnBox, n), pop_temp(1, n)],
            n,
            operands,
        );
    }
}

/// What modifiers add to the code of their operands is attributed to the place of the modifier, all
/// of it.
pub proof fn law_instructions_attributed(
    a: Seq<Instr>,
    a_sig: Signature,
    b: Seq<Instr>,
    b_sig: Signature,
    n: usize,
)
    ensures
        attributed(dip_code(a, n), n, a),
        attributed(gap_code(a, n), n, a),
        attributed(on_code(a, a_sig, n), n, a),
        attributed(by_code(a, a_sig, n), n, a),
        attributed(both_code(a, a_sig, n), n, a),
        attributed(content_code(a, a_sig, n), n, a),
        attributed(bracket_code(a, a_sig, b, n), n, a + b),
        attributed(fork_code(a, a_sig, b, b_sig, n), n, a + b),
        attributed(cascade_code(a, a_sig, b, b_sig, n), n, a + b),
{
    let all = a + b;
    assert forall|i: int|
        #![trigger a[i]]
        0 <= i < a.len() implies a.contains(a[i]) && all.contains(a[i]) by {
        assert(all[i] == a[i]);
    }
    assert forall|i: int| #![trigger b[i]] 0 <= i < b.len() implies all.contains(b[i]) by {
        assert(all[i + a.len()] == b[i]);
    }
    assert(attributed(a, n, a));
    assert(attributed(a, n, all));
    assert(attributed(b, n, all));
    let dup = Instr::Prim(Primitive::Dup, n);
    let pop = Instr::Prim(Primitive::Pop, n);
    let others = (a_sig.args - 1) as usize;
    let back = seq![pop_temp(1, n)];
    let top_aside = seq![push_temp(1, n)];
    lemma_attributed_concat(top_aside, a, n, a);
    lemma_attributed_concat(top_aside + a, back, n, a);
    lemma_attributed_concat(seq![pop], a, n, a);
    let kept = seq![copy_temp(1, n)];
    lemma_attributed_concat(kept, a, n, a);
    lemma_attributed_concat(kept + a, back, n, a);
    assert(attributed(on_code(a, a_sig, n), n, a));
    lemma_attributed_concat(seq![dup], a, n, a);
    lemma_attributed_concat(seq![push_temp(others, n), dup, pop_temp(others, n)], a, n, a);
    let aside = seq![push_temp(a_sig.args, n)];
    let again = seq![pop_temp(a_sig.args, n)];
    lemma_attributed_concat(aside, a, n, a);
    lemma_attributed_concat(aside + a, again, n, a);
    lemma_attributed_concat(aside + a + again, a, n, a);
    lemma_attributed_concat(aside, b, n, all);
    lemma_attributed_concat(aside + b, again, n, all);
    lemma_attributed_concat(aside + b + again, a, n, all);
    let unbox = seq![Instr::ImplPrim(ImplPrimitive::UnBox, n)];
    lemma_unboxing_attributed(others as nat, n, a);
    lemma_attributed_concat(seq![push_temp(others, n)], unbox_each(others as nat, n), n, a);
    lemma_attributed_concat(
        seq![push_temp(others, n)] + unbox_each(others as nat, n),
        unbox,
        n,
        a,
    );
    assert(attributed(unbox_code(a_sig.args, n), n, a));
    lemma_attributed_concat(unbox_code(a_sig.args, n), a, n, a);
    let copy = if_any(a_sig.args, copy_temp(a_sig.args, n));
    let narrow = narrow_code(a_sig.args, b_sig.args, n);
    let fewer = if_any(a_sig.args, pop_temp(a_sig.args, n));
    if a_sig.args > b_sig.args {
        let pops = repeated(pop, (a_sig.args - b_sig.args) as nat);
        assert(attributed(pops, n, all));
        lemma_attributed_concat(seq![push_temp(b_sig.args, n)], pops, n, all);
        lemma_attributed_concat(
            seq![push_temp(b_sig.args, n)] + pops,
            seq![pop_temp(b_sig.args, n)],
            n,
            all,
        );
    }
    assert(attributed(narrow, n, all));
    lemma_attributed_concat(copy, narrow, n, all);
    lemma_attributed_concat(copy + narrow, b, n, all);
    lemma_attributed_concat(copy + narrow + b, fewer, n, all);
    lemma_attributed_concat(copy + narrow + b + fewer, a, n, all);
    let count = cascade_count(a_sig, b_sig);
    let copied = if_any(count, copy_temp(count, n));
    let popped = if_any(count, pop_temp(count, n));
    lemma_attributed_concat(copied, b, n, all);
    lemma_attributed_concat(copied + b, popped, n, all);
    lemma_attributed_concat(copied + b + popped, a, n, all);
}

} // verus!
