//! What the modifiers that undo and guard functions come to, from their operands to the code.
use crate::assembly::AssemblyV;
use crate::codegen::under_code;
use crate::compiler::{
    finished, next_span, with_function, with_instr, with_span, CompilerV, PreEvalMode,
};
use crate::guarded::{fill_value_compiled, pieces_begun, pieces_finished, tried_pushed};
use crate::inline::form_compiled;
use crate::instr::Instr;
use crate::inverse::{inverted, under_emitted, under_finished};
use crate::message::{Message, UiuaError, UiuaResult};
use crate::outcome::{
    code_added, comes_to, fits, function_added, is_span, lemma_code_added, lemma_finished,
    lemma_function_added, only_code_differs,
};
use crate::pattern::has_pattern_matching;
use crate::prim::{ImplPrimitive, Primitive, Signature};
use crate::span::{CodeSpan, Sp, Span};
use crate::stack_laws::{lemma_two_failed, two_failed};
use crate::stacking::two_compiled;
use crate::toolchain::{
    did_compile_operand_word, did_invert_instrs, did_sig_of, did_under_instrs, did_word, Toolchain,
};
use crate::word::{code_words, FunctionId, ModifiedV, WordV};
use vstd::prelude::*;

verus! {

/// A compiler that only has one more span, that of a place.
pub open spec fn place_noted(u: CompilerV, span: CodeSpan) -> CompilerV {
    CompilerV {
        assembly: AssemblyV { spans: u.assembly.spans.push(Span::Code(span)), ..u.assembly },
        ..u
    }
}

/// The operand of an un was compiled, its code was inverted, and the signature of the inverse was
/// found.
pub open spec fn inverse_found<T: Toolchain>(
    t: &T,
    v: CompilerV,
    word: Sp<WordV>,
    u: CompilerV,
    code: Vec<Instr>,
    sig: Signature,
    x: CompilerV,
    inverse: Vec<Instr>,
    inverse_sig: Signature,
) -> bool {
    &&& did_compile_operand_word(t, v, word, u, Ok((code, sig)))
    &&& did_invert_instrs(t, place_noted(u, word.span), code@, x, Some(inverse))
    &&& did_sig_of(t, x, inverse@, word.span, Ok(inverse_sig))
}

/// The operand of an un was compiled, and its code could not be inverted, or the inverse has no
/// signature.
pub open spec fn inverse_missed<T: Toolchain>(
    t: &T,
    v: CompilerV,
    word: Sp<WordV>,
    u: CompilerV,
    code: Vec<Instr>,
    sig: Signature,
    w: CompilerV,
    e: UiuaError,
) -> bool {
    &&& did_compile_operand_word(t, v, word, u, Ok((code, sig)))
    &&& {
        ||| did_invert_instrs(t, place_noted(u, word.span), code@, w, None) && e
            == (UiuaError::Fatal { span: word.span, message: Message::NoInverse })
        ||| exists|inverse: Vec<Instr>| #[trigger]
            did_invert_instrs(t, place_noted(u, word.span), code@, w, Some(inverse)) && did_sig_of(
                t,
                w,
                inverse@,
                word.span,
                Err(e),
            )
    }
}

/// An un compiles its operand and comes to the inverse of its code, with the signature that the
/// inverse has. So a function that it makes states the signature of its own body.
pub proof fn law_un_compiled<T: Toolchain>(
    t: &T,
    v: CompilerV,
    m: ModifiedV,
    call: bool,
    w: CompilerV,
    res: UiuaResult<()>,
)
    requires
        fits(w),
        form_compiled(t, v, Primitive::Un, m, call, w, res),
    ensures
        ({
            let word = code_words(m.operands)[0];
            match res {
                Err(e) => {
                    ||| did_compile_operand_word(t, v, word, w, Err(e))
                    ||| exists|u: CompilerV, code: Vec<Instr>, sig: Signature| #[trigger]
                        inverse_missed(t, v, word, u, code, sig, w, e)
                },
                Ok(_) => exists|
                    u: CompilerV,
                    code: Vec<Instr>,
                    sig: Signature,
                    x: CompilerV,
                    inverse: Vec<Instr>,
                    inverse_sig: Signature,
                |
                    {
                        &&& #[trigger] inverse_found(
                            t,
                            v,
                            word,
                            u,
                            code,
                            sig,
                            x,
                            inverse,
                            inverse_sig,
                        )
                        &&& comes_to(x, w, m.modifier.span, call, inverse_sig, inverse@)
                        &&& only_code_differs(x, w)
                        &&& w.diagnostics == x.diagnostics
                    },
            }
        }),
{
    let word = code_words(m.operands)[0];
    let span = m.modifier.span;
    let (u, out) = choose|u: CompilerV, out: UiuaResult<(Vec<Instr>, Signature)>| #[trigger]
        did_compile_operand_word(t, v, word, u, out) && match out {
            Err(e) => w == u && res == Err::<(), UiuaError>(e),
            Ok((code, _)) => inverted(
                t,
                with_span(u, word.span),
                code@,
                word.span,
                span,
                call,
                w,
                res,
            ),
        };
    if let Ok((code, sig)) = out {
        let noted = place_noted(u, word.span);
        assert(noted == with_span(u, word.span));
        let (x, inverse) = choose|x: CompilerV, inverse: Option<Vec<Instr>>| #[trigger]
            did_invert_instrs(t, noted, code@, x, inverse) && match inverse {
                None => w == x && res == Err::<(), UiuaError>(
                    UiuaError::Fatal { span: word.span, message: Message::NoInverse },
                ),
                Some(inv) => exists|s: UiuaResult<Signature>| #[trigger]
                    did_sig_of(t, x, inv@, word.span, s) && match s {
                        Err(e) => w == x && res == Err::<(), UiuaError>(e),
                        Ok(s) => res is Ok && w == finished(x, span, call, s, inv@),
                    },
            };
        match inverse {
            None => {
                assert(inverse_missed(t, v, word, u, code, sig, w, res->Err_0));
            },
            Some(inv) => {
                let s = choose|s: UiuaResult<Signature>| #[trigger]
                    did_sig_of(t, x, inv@, word.span, s) && match s {
                        Err(e) => w == x && res == Err::<(), UiuaError>(e),
                        Ok(s) => res is Ok && w == finished(x, span, call, s, inv@),
                    };
                match s {
                    Err(e) => {
                        assert(did_invert_instrs(t, noted, code@, w, Some(inv)));
                        assert(inverse_missed(t, v, word, u, code, sig, w, e));
                    },
                    Ok(s) => {
                        lemma_finished(x, span, call, s, inv@);
                        assert(inverse_found(t, v, word, u, code, sig, x, inv, s));
                    },
                }
            },
        }
    }
}

/// The operands of an under were compiled in order, the code of the first was split for the
/// signature of the second, and the signatures of both parts were found.
pub open spec fn under_found<T: Toolchain>(
    t: &T,
    v: CompilerV,
    first: Sp<WordV>,
    second: Sp<WordV>,
    between: CompilerV,
    u: CompilerV,
    f: (Vec<Instr>, Signature),
    g: (Vec<Instr>, Signature),
    x: CompilerV,
    before: (Vec<Instr>, Signature),
    after: (Vec<Instr>, Signature),
) -> bool {
    &&& did_compile_operand_word(t, v, first, between, Ok(f))
    &&& did_compile_operand_word(t, between, second, u, Ok(g))
    &&& did_under_instrs(t, u, f.0@, g.1, x, Some((before.0, after.0)))
    &&& did_sig_of(t, x, before.0@, first.span, Ok(before.1))
    &&& did_sig_of(t, x, after.0@, first.span, Ok(after.1))
}

/// An under compiles its operands in order and comes to what has to be done before the second
/// function, the second function, and what has to be done after it. Where it is called, the
/// signatures of what comes before and after are stated around them. Else it is a function with the
/// signature that all of it has.
pub proof fn law_under_compiled<T: Toolchain>(
    t: &T,
    v: CompilerV,
    m: ModifiedV,
    call: bool,
    w: CompilerV,
    res: UiuaResult<()>,
)
    requires
        fits(w),
        form_compiled(t, v, Primitive::Under, m, call, w, res),
        res is Ok,
    ensures
        exists|
            between: CompilerV,
            u: CompilerV,
            f: (Vec<Instr>, Signature),
            g: (Vec<Instr>, Signature),
            x: CompilerV,
            before: (Vec<Instr>, Signature),
            after: (Vec<Instr>, Signature),
        |
            {
                &&& #[trigger] under_found(
                    t,
                    v,
                    code_words(m.operands)[0],
                    code_words(m.operands)[1],
                    between,
                    u,
                    f,
                    g,
                    x,
                    before,
                    after,
                )
                &&& only_code_differs(x, w)
                &&& w.diagnostics == x.diagnostics
                &&& if call {
                    code_added(
                        x,
                        w,
                        seq![Instr::PushSig(before.1)] + before.0@ + seq![Instr::PopSig] + g.0@
                            + seq![Instr::PushSig(after.1)] + after.0@ + seq![Instr::PopSig],
                    )
                } else {
                    exists|sig: Signature| #[trigger]
                        did_sig_of(
                            t,
                            x,
                            before.0@ + g.0@ + after.0@,
                            m.modifier.span,
                            Ok(sig),
                        ) && function_added(
                            x,
                            w,
                            FunctionId::Anonymous(m.modifier.span),
                            sig,
                            before.0@ + g.0@ + after.0@,
                        )
                }
            },
{
    let words = code_words(m.operands);
    let span = m.modifier.span;
    let (u, out) = choose|
        u: CompilerV,
        out: UiuaResult<((Vec<Instr>, Signature), (Vec<Instr>, Signature))>,
    | #[trigger]
        two_compiled(t, v, words[0], words[1], u, out) && match out {
            Err(e) => false,
            Ok(((f, _), (g, g_sig))) => exists|
                x: CompilerV,
                parts: Option<(Vec<Instr>, Vec<Instr>)>,
            | #[trigger]
                did_under_instrs(t, u, f@, g_sig, x, parts) && match parts {
                    None => false,
                    Some((before, after)) => under_emitted(
                        t,
                        x,
                        before@,
                        g@,
                        after@,
                        words[0].span,
                        span,
                        call,
                        w,
                        Ok(()),
                    ),
                },
        };
    let (f, g) = out->Ok_0;
    let (between, compiled) = choose|
        between: CompilerV,
        compiled: UiuaResult<(Vec<Instr>, Signature)>,
    | #[trigger]
        did_compile_operand_word(t, v, words[0], between, compiled) && compiled == Ok::<
            (Vec<Instr>, Signature),
            UiuaError,
        >(f) && did_compile_operand_word(t, between, words[1], u, Ok(g));
    let (x, parts) = choose|x: CompilerV, parts: Option<(Vec<Instr>, Vec<Instr>)>| #[trigger]
        did_under_instrs(t, u, f.0@, g.1, x, parts) && match parts {
            None => false,
            Some((before, after)) => under_emitted(
                t,
                x,
                before@,
                g.0@,
                after@,
                words[0].span,
                span,
                call,
                w,
                Ok(()),
            ),
        };
    let (before, after) = parts->0;
    let before_found = choose|sig: UiuaResult<Signature>| #[trigger]
        did_sig_of(t, x, before@, words[0].span, sig) && match sig {
            Err(_) => false,
            Ok(before_sig) => exists|after_sig: UiuaResult<Signature>| #[trigger]
                did_sig_of(t, x, after@, words[0].span, after_sig) && match after_sig {
                    Err(_) => false,
                    Ok(after_sig) => under_finished(
                        t,
                        x,
                        under_code(before@, before_sig, g.0@, after@, after_sig, call),
                        span,
                        call,
                        w,
                        Ok(()),
                    ),
                },
        };
    let before_sig = before_found->Ok_0;
    let after_found = choose|after_sig: UiuaResult<Signature>| #[trigger]
        did_sig_of(t, x, after@, words[0].span, after_sig) && match after_sig {
            Err(_) => false,
            Ok(after_sig) => under_finished(
                t,
                x,
                under_code(before@, before_sig, g.0@, after@, after_sig, call),
                span,
                call,
                w,
                Ok(()),
            ),
        };
    let after_sig = after_found->Ok_0;
    assert(under_found(
        t,
        v,
        words[0],
        words[1],
        between,
        u,
        f,
        g,
        x,
        (before, before_sig),
        (after, after_sig),
    ));
    let code = under_code(before@, before_sig, g.0@, after@, after_sig, call);
    if call {
        lemma_code_added(x, code);
    } else {
        let found = choose|sig: UiuaResult<Signature>| #[trigger]
            did_sig_of(t, x, code, span, sig) && match sig {
                Err(_) => false,
                Ok(sig) => w == with_function(x, span, sig, code),
            };
        lemma_function_added(x, span, found->Ok_0, code);
        assert(did_sig_of(t, x, before@ + g.0@ + after@, span, Ok(found->Ok_0)));
    }
}

/// An under fails where one of its operands cannot be compiled, where there is no way to undo the
/// first, or where a part of it has no signature. It does not fail else.
pub proof fn law_under_refused<T: Toolchain>(
    t: &T,
    v: CompilerV,
    m: ModifiedV,
    call: bool,
    w: CompilerV,
    e: UiuaError,
)
    requires
        form_compiled(t, v, Primitive::Under, m, call, w, Err(e)),
    ensures
        ({
            let first = code_words(m.operands)[0];
            let second = code_words(m.operands)[1];
            ||| two_failed(t, v, first, second, w, e)
            ||| exists|
                between: CompilerV,
                u: CompilerV,
                f: (Vec<Instr>, Signature),
                g: (Vec<Instr>, Signature),
            |
                {
                    &&& #[trigger] did_compile_operand_word(t, v, first, between, Ok(f))
                    &&& #[trigger] did_compile_operand_word(t, between, second, u, Ok(g))
                    &&& {
                        ||| did_under_instrs(t, u, f.0@, g.1, w, None) && e == (UiuaError::Fatal {
                            span: first.span,
                            message: Message::NoInverse,
                        })
                        ||| exists|code: Seq<Instr>, at: CodeSpan| #[trigger]
                            did_sig_of(t, w, code, at, Err(e))
                    }
                }
        }),
{
    let words = code_words(m.operands);
    let (u, out) = choose|
        u: CompilerV,
        out: UiuaResult<((Vec<Instr>, Signature), (Vec<Instr>, Signature))>,
    | #[trigger]
        two_compiled(t, v, words[0], words[1], u, out) && match out {
            Err(d) => w == u && d == e,
            Ok(((f, _), (g, g_sig))) => exists|
                x: CompilerV,
                parts: Option<(Vec<Instr>, Vec<Instr>)>,
            | #[trigger]
                did_under_instrs(t, u, f@, g_sig, x, parts) && match parts {
                    None => w == x && e == (UiuaError::Fatal {
                        span: words[0].span,
                        message: Message::NoInverse,
                    }),
                    Some((before, after)) => under_emitted(
                        t,
                        x,
                        before@,
                        g@,
                        after@,
                        words[0].span,
                        m.modifier.span,
                        call,
                        w,
                        Err(e),
                    ),
                },
        };
    match out {
        Err(_) => lemma_two_failed(t, v, words[0], words[1], w, e),
        Ok((f, g)) => {
            let (between, compiled) = choose|
                between: CompilerV,
                compiled: UiuaResult<(Vec<Instr>, Signature)>,
            | #[trigger]
                did_compile_operand_word(t, v, words[0], between, compiled) && compiled == Ok::<
                    (Vec<Instr>, Signature),
                    UiuaError,
                >(f) && did_compile_operand_word(t, between, words[1], u, Ok(g));
            assert(did_compile_operand_word(t, v, words[0], between, Ok(f)));
            assert(did_compile_operand_word(t, between, words[1], u, Ok(g)));
        },
    }
}

/// A compiler that is about to compile the parts of a modifier into the current function where the
/// modifier is called, else into a function of their own.
pub open spec fn parts_begun(v: CompilerV, call: bool) -> CompilerV {
    if call {
        v
    } else {
        CompilerV { frames: v.frames.push(Seq::empty()), ..v }
    }
}

/// The parts of a modifier are all there: nothing more is done where the modifier is called. Else
/// the function that holds them is finished, and pushed with the signature that its code has.
pub open spec fn parts_ended<T: Toolchain>(
    t: &T,
    x: CompilerV,
    span: CodeSpan,
    call: bool,
    w: CompilerV,
) -> bool {
    if call {
        w == x
    } else {
        let code = x.frames.last();
        let y = CompilerV { frames: x.frames.drop_last(), ..x };
        exists|sig: Signature| #[trigger]
            did_sig_of(t, y, code, span, Ok(sig)) && function_added(
                y,
                w,
                FunctionId::Anonymous(span),
                sig,
                code,
            ) && only_code_differs(y, w) && w.diagnostics == y.diagnostics
    }
}

pub proof fn lemma_parts_ended<T: Toolchain>(
    t: &T,
    x: CompilerV,
    span: CodeSpan,
    call: bool,
    w: CompilerV,
)
    requires
        fits(w),
        pieces_finished(t, x, span, call, w, Ok(())),
    ensures
        parts_ended(t, x, span, call, w),
{
    if !call {
        let code = x.frames.last();
        let y = CompilerV { frames: x.frames.drop_last(), ..x };
        let sig = choose|sig: UiuaResult<Signature>| #[trigger]
            did_sig_of(t, y, code, span, sig) && match sig {
                Err(_) => false,
                Ok(sig) => w == with_function(y, span, sig, code),
            };
        lemma_function_added(y, span, sig->Ok_0, code);
        assert(did_sig_of(t, y, code, span, Ok(sig->Ok_0)));
    }
}

/// A word was compiled, and nothing was wrong with it.
pub open spec fn word_compiled<T: Toolchain>(
    t: &T,
    v: CompilerV,
    word: Sp<WordV>,
    call: bool,
    w: CompilerV,
) -> bool {
    exists|res: UiuaResult<()>| #[trigger] did_word(t, v, word, call, w, res) && res is Ok
}

/// The operands of a fill were compiled one after the other: the value to fill with, which is the
/// second one, first and in the mode of the language server, and then the function in the mode as
/// it was.
pub open spec fn fill_parts<T: Toolchain>(
    t: &T,
    v: CompilerV,
    m: ModifiedV,
    call: bool,
    u: CompilerV,
    x: CompilerV,
) -> bool {
    let begun = parts_begun(v, call);
    &&& word_compiled(
        t,
        CompilerV { pre_eval_mode: PreEvalMode::Lsp, ..begun },
        code_words(m.operands)[1],
        false,
        u,
    )
    &&& word_compiled(
        t,
        CompilerV { pre_eval_mode: v.pre_eval_mode, ..u },
        code_words(m.operands)[0],
        false,
        x,
    )
}

/// A fill compiles its second operand and then its first, each to a function, and hands both to the
/// instruction that fills.
pub proof fn law_fill_compiled<T: Toolchain>(
    t: &T,
    v: CompilerV,
    m: ModifiedV,
    call: bool,
    w: CompilerV,
    res: UiuaResult<()>,
)
    requires
        fits(w),
        form_compiled(t, v, Primitive::Fill, m, call, w, res),
        res is Ok,
    ensures
        exists|u: CompilerV, x: CompilerV, y: CompilerV, n: usize|
            #![trigger fill_parts(t, v, m, call, u, x), is_span(y, n, m.modifier.span)]
            {
                &&& fill_parts(t, v, m, call, u, x)
                &&& is_span(y, n, m.modifier.span)
                &&& code_added(x, y, seq![Instr::Prim(Primitive::Fill, n)])
                &&& only_code_differs(x, y)
                &&& y.diagnostics == x.diagnostics
                &&& parts_ended(t, y, m.modifier.span, call, w)
            },
{
    let span = m.modifier.span;
    let words = code_words(m.operands);
    let begun = parts_begun(v, call);
    assert(begun == pieces_begun(v, call));
    let (u, first) = choose|u: CompilerV, first: UiuaResult<()>| #[trigger]
        fill_value_compiled(t, begun, words[1], u, first) && match first {
            Err(_) => false,
            Ok(_) => exists|x: CompilerV, second: UiuaResult<()>| #[trigger]
                did_word(t, u, words[0], false, x, second) && match second {
                    Err(_) => false,
                    Ok(_) => pieces_finished(
                        t,
                        with_instr(
                            with_span(x, span),
                            Instr::Prim(Primitive::Fill, next_span(x)),
                        ),
                        span,
                        call,
                        w,
                        Ok(()),
                    ),
                },
        };
    let inner = choose|inner: CompilerV| #[trigger]
        did_word(
            t,
            CompilerV { pre_eval_mode: PreEvalMode::Lsp, ..begun },
            words[1],
            false,
            inner,
            first,
        ) && u == (CompilerV { pre_eval_mode: v.pre_eval_mode, ..inner });
    let (x, second) = choose|x: CompilerV, second: UiuaResult<()>| #[trigger]
        did_word(t, u, words[0], false, x, second) && match second {
            Err(_) => false,
            Ok(_) => pieces_finished(
                t,
                with_instr(with_span(x, span), Instr::Prim(Primitive::Fill, next_span(x))),
                span,
                call,
                w,
                Ok(()),
            ),
        };
    let instr = Instr::Prim(Primitive::Fill, next_span(x));
    let y = with_instr(with_span(x, span), instr);
    lemma_code_added(with_span(x, span), seq![instr]);
    lemma_parts_ended(t, y, span, call, w);
    assert(fill_parts(t, v, m, call, inner, x));
    assert(is_span(y, next_span(x), span));
}

/// The operands of a try were compiled one after the other: the handler, which is the second one,
/// first and to a function, and then the one that is tried, by itself.
pub open spec fn try_parts<T: Toolchain>(
    t: &T,
    v: CompilerV,
    m: ModifiedV,
    call: bool,
    u: CompilerV,
    x: CompilerV,
    code: Vec<Instr>,
    sig: Signature,
) -> bool {
    &&& word_compiled(t, parts_begun(v, call), code_words(m.operands)[1], false, u)
    &&& did_compile_operand_word(t, u, code_words(m.operands)[0], x, Ok((code, sig)))
}

/// A function from some code is pushed, and handed to an instruction directly after it.
pub open spec fn function_handed_over(
    x: CompilerV,
    y: CompilerV,
    place: CodeSpan,
    sig: Signature,
    code: Seq<Instr>,
    instr: Instr,
) -> bool {
    exists|z: CompilerV| #[trigger]
        function_added(x, z, FunctionId::Anonymous(place), sig, code) && code_added(
            z,
            y,
            seq![instr],
        ) && only_code_differs(z, y) && only_code_differs(x, z)
        && y.diagnostics == x.diagnostics
}

/// A try compiles each of its operands once: the second one, its handler, and then the first one,
/// which is tried. The tried function is pushed directly before the instruction that tries it, on
/// top of the handler, with its own code and signature. Which instruction that is depends on
/// whether the code of the tried function matches patterns.
pub proof fn law_try_compiled<T: Toolchain>(
    t: &T,
    v: CompilerV,
    m: ModifiedV,
    call: bool,
    w: CompilerV,
    res: UiuaResult<()>,
)
    requires
        fits(w),
        form_compiled(t, v, Primitive::Try, m, call, w, res),
        res is Ok,
    ensures
        exists|
            u: CompilerV,
            x: CompilerV,
            code: Vec<Instr>,
            sig: Signature,
            y: CompilerV,
            n: usize,
        |
            #![trigger try_parts(t, v, m, call, u, x, code, sig), is_span(y, n, m.modifier.span)]
            {
                &&& try_parts(t, v, m, call, u, x, code, sig)
                &&& is_span(y, n, m.modifier.span)
                &&& function_handed_over(
                    x,
                    y,
                    code_words(m.operands)[0].span,
                    sig,
                    code@,
                    if has_pattern_matching(code@, x.assembly.instrs) {
                        Instr::ImplPrim(ImplPrimitive::TryPattern, n)
                    } else {
                        Instr::Prim(Primitive::Try, n)
                    },
                )
                &&& parts_ended(t, y, m.modifier.span, call, w)
            },
{
    let span = m.modifier.span;
    let words = code_words(m.operands);
    let begun = parts_begun(v, call);
    assert(begun == pieces_begun(v, call));
    let (u, first) = choose|u: CompilerV, first: UiuaResult<()>| #[trigger]
        did_word(t, begun, words[1], false, u, first) && match first {
            Err(_) => false,
            Ok(_) => exists|x: CompilerV, second: UiuaResult<(Vec<Instr>, Signature)>| #[trigger]
                did_compile_operand_word(t, u, words[0], x, second) && match second {
                    Err(_) => false,
                    Ok((code, sig)) => pieces_finished(
                        t,
                        tried_pushed(x, code@, sig, words[0].span, span),
                        span,
                        call,
                        w,
                        Ok(()),
                    ),
                },
        };
    let (x, second) = choose|x: CompilerV, second: UiuaResult<(Vec<Instr>, Signature)>| #[trigger]
        did_compile_operand_word(t, u, words[0], x, second) && match second {
            Err(_) => false,
            Ok((code, sig)) => pieces_finished(
                t,
                tried_pushed(x, code@, sig, words[0].span, span),
                span,
                call,
                w,
                Ok(()),
            ),
        };
    let (code, sig) = second->Ok_0;
    let n = next_span(x);
    let instr = if has_pattern_matching(code@, x.assembly.instrs) {
        Instr::ImplPrim(ImplPrimitive::TryPattern, n)
    } else {
        Instr::Prim(Primitive::Try, n)
    };
    let y = tried_pushed(x, code@, sig, words[0].span, span);
    let z = with_function(with_span(x, span), words[0].span, sig, code@);
    assert(y == with_instr(z, instr));
    lemma_code_added(z, seq![instr]);
    lemma_parts_ended(t, y, span, call, w);
    assert(y.assembly.instrs.len() >= z.assembly.instrs.len());
    lemma_function_added(with_span(x, span), words[0].span, sig, code@);
    assert(function_added(x, z, FunctionId::Anonymous(words[0].span), sig, code@));
    assert(only_code_differs(x, z));
    assert(try_parts(t, v, m, call, u, x, code, sig));
    assert(is_span(y, n, span));
}

/// Where a try fails, one of its operands could not be compiled, or the function that holds its
/// parts has no signature.
pub proof fn law_try_refused<T: Toolchain>(
    t: &T,
    v: CompilerV,
    m: ModifiedV,
    call: bool,
    w: CompilerV,
    e: UiuaError,
)
    requires
        form_compiled(t, v, Primitive::Try, m, call, w, Err(e)),
    ensures
        ({
            let words = code_words(m.operands);
            ||| did_word(t, parts_begun(v, call), words[1], false, w, Err(e))
            ||| exists|u: CompilerV| #[trigger]
                word_compiled(t, parts_begun(v, call), words[1], false, u) && (
                did_compile_operand_word(t, u, words[0], w, Err(e)) || (!call && exists|
                    code: Seq<Instr>,
                | #[trigger]
                    did_sig_of(t, w, code, m.modifier.span, Err(e))))
        }),
{
    let words = code_words(m.operands);
    let begun = parts_begun(v, call);
    assert(begun == pieces_begun(v, call));
    let (u, first) = choose|u: CompilerV, first: UiuaResult<()>| #[trigger]
        did_word(t, begun, words[1], false, u, first) && match first {
            Err(d) => w == u && d == e,
            Ok(_) => exists|x: CompilerV, second: UiuaResult<(Vec<Instr>, Signature)>| #[trigger]
                did_compile_operand_word(t, u, words[0], x, second) && match second {
                    Err(d) => w == x && d == e,
                    Ok((code, sig)) => pieces_finished(
                        t,
                        tried_pushed(x, code@, sig, words[0].span, m.modifier.span),
                        m.modifier.span,
                        call,
                        w,
                        Err(e),
                    ),
                },
        };
    if first is Ok {
        assert(word_compiled(t, begun, words[1], false, u));
    }
}

/// Where a fill fails, one of its operands could not be compiled, or the function that holds its
/// parts has no signature. The mode is as it was before the value to fill with was compiled.
pub proof fn law_fill_refused<T: Toolchain>(
    t: &T,
    v: CompilerV,
    m: ModifiedV,
    call: bool,
    w: CompilerV,
    e: UiuaError,
)
    requires
        form_compiled(t, v, Primitive::Fill, m, call, w, Err(e)),
    ensures
        ({
            let words = code_words(m.operands);
            let looking = CompilerV {
                pre_eval_mode: PreEvalMode::Lsp,
                ..parts_begun(v, call)
            };
            exists|u: CompilerV, first: UiuaResult<()>|
                {
                    let back = CompilerV { pre_eval_mode: v.pre_eval_mode, ..u };
                    &&& #[trigger] did_word(t, looking, words[1], false, u, first)
                    &&& match first {
                        Err(d) => d == e && w == back,
                        Ok(_) => did_word(t, back, words[0], false, w, Err(e)) || (!call && exists|
                            code: Seq<Instr>,
                        | #[trigger]
                            did_sig_of(t, w, code, m.modifier.span, Err(e))),
                    }
                }
        }),
{
    let words = code_words(m.operands);
    let begun = parts_begun(v, call);
    assert(begun == pieces_begun(v, call));
    let looking = CompilerV { pre_eval_mode: PreEvalMode::Lsp, ..begun };
    let span = m.modifier.span;
    let (back, first) = choose|back: CompilerV, first: UiuaResult<()>| #[trigger]
        fill_value_compiled(t, begun, words[1], back, first) && match first {
            Err(d) => w == back && d == e,
            Ok(_) => exists|x: CompilerV, second: UiuaResult<()>| #[trigger]
                did_word(t, back, words[0], false, x, second) && match second {
                    Err(d) => w == x && d == e,
                    Ok(_) => pieces_finished(
                        t,
                        with_instr(
                            with_span(x, span),
                            Instr::Prim(Primitive::Fill, next_span(x)),
                        ),
                        span,
                        call,
                        w,
                        Err(e),
                    ),
                },
        };
    let u = choose|u: CompilerV| #[trigger]
        did_word(t, looking, words[1], false, u, first) && back == (CompilerV {
            pre_eval_mode: v.pre_eval_mode,
            ..u
        });
    assert(did_word(t, looking, words[1], false, u, first));
}

} // verus!
