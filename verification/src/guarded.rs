//! The modifiers that guard a function: fill and try.
use crate::compiler::{
    next_span, well_formed, with_frame, with_function, with_instr, with_span, without_frame,
    Compiler, CompilerV, PreEvalMode,
};
use crate::instr::Instr;
use crate::keeping::{
    lemma_frame_well_formed, lemma_kept_anyway, lemma_kept_aside, lemma_kept_framed,
    lemma_kept_framed_failure, lemma_kept_on, place_kept,
};
use crate::message::{UiuaError, UiuaResult};
use crate::pattern::{has_pattern_matching, instrs_have_pattern_matching};
use crate::prim::{ImplPrimitive, Primitive, Signature};
use crate::span::{CodeSpan, Sp};
use crate::toolchain::{did_compile_operand_word, did_sig_of, did_word, orderly, Toolchain};
use crate::word::{code_words, sp_view, Modified, ModifiedV, Word, WordV};
use vstd::prelude::*;

verus! {

/// A compiler about to compile a modifier piece by piece: into the current function where the
/// modifier is called, else into a new one.
pub open spec fn pieces_begun(v: CompilerV, call: bool) -> CompilerV {
    if call {
        v
    } else {
        with_frame(v)
    }
}

/// What was done when the last piece of a modifier was there: the new function, if there is one,
/// was finished and pushed.
pub open spec fn pieces_finished<T: Toolchain>(
    t: &T,
    v: CompilerV,
    span: CodeSpan,
    call: bool,
    w: CompilerV,
    res: UiuaResult<()>,
) -> bool {
    if call {
        w == v && res is Ok
    } else {
        let code = v.frames.last();
        let u = without_frame(v);
        exists|sig: UiuaResult<Signature>| #[trigger]
            did_sig_of(t, u, code, span, sig) && match sig {
                Err(e) => w == u && res == Err::<(), UiuaError>(e),
                Ok(sig) => w == with_function(u, span, sig, code) && res is Ok,
            }
    }
}

/// A compiler in another mode.
pub open spec fn in_mode(v: CompilerV, mode: PreEvalMode) -> CompilerV {
    CompilerV { pre_eval_mode: mode, ..v }
}

/// The value to fill with was compiled: nothing in it is run meanwhile.
pub open spec fn fill_value_compiled<T: Toolchain>(
    t: &T,
    v: CompilerV,
    word: Sp<WordV>,
    w: CompilerV,
    res: UiuaResult<()>,
) -> bool {
    exists|u: CompilerV| #[trigger]
        did_word(t, in_mode(v, PreEvalMode::Lsp), word, false, u, res) && w == in_mode(
            u,
            v.pre_eval_mode,
        )
}

/// What was done with a fill.
pub open spec fn filled<T: Toolchain>(
    t: &T,
    v: CompilerV,
    m: ModifiedV,
    call: bool,
    w: CompilerV,
    res: UiuaResult<()>,
) -> bool {
    let span = m.modifier.span;
    let words = code_words(m.operands);
    exists|u: CompilerV, first: UiuaResult<()>| #[trigger]
        fill_value_compiled(t, pieces_begun(v, call), words[1], u, first) && match first {
            Err(e) => w == u && res == Err::<(), UiuaError>(e),
            Ok(_) => exists|x: CompilerV, second: UiuaResult<()>| #[trigger]
                did_word(t, u, words[0], false, x, second) && match second {
                    Err(e) => w == x && res == Err::<(), UiuaError>(e),
                    Ok(_) => pieces_finished(
                        t,
                        with_instr(
                            with_span(x, span),
                            Instr::Prim(Primitive::Fill, next_span(x)),
                        ),
                        span,
                        call,
                        w,
                        res,
                    ),
                },
        }
}

/// A compiler that has made the function that is tried from its code, and pushes it with the
/// instruction that tries it. One that matches patterns is tried in another way.
pub open spec fn tried_pushed(
    v: CompilerV,
    code: Seq<Instr>,
    sig: Signature,
    tried: CodeSpan,
    span: CodeSpan,
) -> CompilerV {
    let spanned = with_span(v, span);
    let instr = if has_pattern_matching(code, v.assembly.instrs) {
        Instr::ImplPrim(ImplPrimitive::TryPattern, next_span(v))
    } else {
        Instr::Prim(Primitive::Try, next_span(v))
    };
    with_instr(with_function(spanned, tried, sig, code), instr)
}

/// What was done with a try.
pub open spec fn tried<T: Toolchain>(
    t: &T,
    v: CompilerV,
    m: ModifiedV,
    call: bool,
    w: CompilerV,
    res: UiuaResult<()>,
) -> bool {
    let span = m.modifier.span;
    let words = code_words(m.operands);
    exists|u: CompilerV, first: UiuaResult<()>| #[trigger]
        did_word(t, pieces_begun(v, call), words[1], false, u, first) && match first {
            Err(e) => w == u && res == Err::<(), UiuaError>(e),
            Ok(_) => exists|x: CompilerV, second: UiuaResult<(Vec<Instr>, Signature)>| #[trigger]
                did_compile_operand_word(t, u, words[0], x, second) && match second {
                    Err(e) => w == x && res == Err::<(), UiuaError>(e),
                    Ok((code, sig)) => pieces_finished(
                        t,
                        tried_pushed(x, code@, sig, words[0].span, span),
                        span,
                        call,
                        w,
                        res,
                    ),
                },
        }
}

/// What a fill does to the mode and in which order it compiles its operands: its value comes
/// first, in the mode of the language server. Where that fails, nothing else is compiled. Else the
/// function that is filled is compiled after it, in the mode as it was. The mode is as it was in
/// the end, whatever the outcome, where compiling that function in that mode keeps it.
pub proof fn law_fill_restores_mode<T: Toolchain>(
    t: &T,
    v: CompilerV,
    m: ModifiedV,
    call: bool,
    w: CompilerV,
    res: UiuaResult<()>,
)
    requires
        filled(t, v, m, call, w, res),
        keeps_mode(t, v.pre_eval_mode, code_words(m.operands)[0]),
    ensures
        w.pre_eval_mode == v.pre_eval_mode,
        exists|u: CompilerV, first: UiuaResult<()>|
            {
                &&& #[trigger] did_word(
                    t,
                    in_mode(pieces_begun(v, call), PreEvalMode::Lsp),
                    code_words(m.operands)[1],
                    false,
                    u,
                    first,
                )
                &&& match first {
                    Err(e) => w == in_mode(u, v.pre_eval_mode) && res == Err::<(), UiuaError>(e),
                    Ok(_) => exists|x: CompilerV, second: UiuaResult<()>| #[trigger]
                        did_word(
                            t,
                            in_mode(u, v.pre_eval_mode),
                            code_words(m.operands)[0],
                            false,
                            x,
                            second,
                        ),
                }
            },
{
}

/// A word keeps the mode when it is compiled in it.
pub open spec fn keeps_mode<T: Toolchain>(t: &T, mode: PreEvalMode, word: Sp<WordV>) -> bool {
    forall|u: CompilerV, x: CompilerV, res: UiuaResult<()>| #[trigger]
        did_word(t, u, word, false, x, res) && u.pre_eval_mode == mode ==> x.pre_eval_mode == mode
}

/// A step in a function that was begun for a modifier keeps what a failure keeps.
proof fn lemma_pieces_kept(v: CompilerV, call: bool, w: CompilerV, ok: bool)
    requires
        place_kept(pieces_begun(v, call), w, ok),
    ensures
        place_kept(v, w, false),
{
    if !call {
        lemma_kept_framed_failure(v, w, ok);
    } else {
        lemma_kept_anyway(v, w, ok);
    }
}

impl Compiler {
    /// Begins to compile a modifier piece by piece.
    pub(crate) fn begin_pieces(&mut self, call: bool)
        requires
            well_formed(old(self)@),
        ensures
            final(self)@ == pieces_begun(old(self)@, call),
            well_formed(final(self)@),
    {
        proof {
            lemma_frame_well_formed(self@);
        }
        if !call {
            self.open_function();
        }
    }

    /// Finishes a modifier that was compiled piece by piece.
    pub(crate) fn finish_pieces<T: Toolchain>(
        &mut self,
        t: &T,
        span: &CodeSpan,
        call: bool,
    ) -> (res: UiuaResult<()>)
        requires
            call || old(self)@.frames.len() > 0,
        ensures
            pieces_finished(t, old(self)@, *span, call, final(self)@, res),
            forall|v: CompilerV|
                well_formed(v) && #[trigger] place_kept(pieces_begun(v, call), old(self)@, true)
                    ==> place_kept(v, final(self)@, res is Ok),
    {
        let ghost now = self@;
        if call {
            return Ok(());
        }
        let instrs = self.close_function();
        let ghost u = self@;
        let ghost code = instrs@;
        let sig = t.sig_of(self, &instrs, span);
        assert(did_sig_of(t, u, code, *span, sig));
        let res: UiuaResult<()> = match sig {
            Err(e) => Err(e),
            Ok(sig) => {
                self.push_function(span.clone(), sig, instrs);
                Ok(())
            },
        };
        proof {
            assert forall|v: CompilerV|
                well_formed(v) && #[trigger] place_kept(
                    pieces_begun(v, call),
                    now,
                    true,
                ) implies place_kept(v, self@, res is Ok) by {
                lemma_kept_framed(v, now);
                if res is Ok {
                    lemma_kept_on(v, u, self@, true);
                } else {
                    lemma_kept_anyway(v, u, true);
                }
            }
        }
        res
    }

    fn fill_value<T: Toolchain>(&mut self, t: &T, word: &Sp<Word>) -> (res: UiuaResult<()>)
        requires
            orderly(t),
        ensures
            fill_value_compiled(t, old(self)@, sp_view(*word), final(self)@, res),
            place_kept(old(self)@, final(self)@, res is Ok),
    {
        let ghost v = self@;
        let mode = self.pre_eval_mode;
        self.pre_eval_mode = PreEvalMode::Lsp;
        let ghost looking = self@;
        let res = self.do_word(t, word, false);
        let ghost u = self@;
        self.pre_eval_mode = mode;
        proof {
            lemma_kept_aside(v, v, looking, true);
            lemma_kept_on(v, looking, u, res is Ok);
            assert(did_word(t, in_mode(v, PreEvalMode::Lsp), sp_view(*word), false, u, res));
            lemma_kept_aside(v, u, self@, res is Ok);
        }
        res
    }

    /// Compiles a fill.
    pub fn fill<T: Toolchain>(&mut self, t: &T, m: &Modified, call: bool) -> (res: UiuaResult<()>)
        requires
            orderly(t),
            well_formed(old(self)@),
            code_words(m@.operands).len() == 2,
        ensures
            filled(t, old(self)@, m@, call, final(self)@, res),
            place_kept(old(self)@, final(self)@, res is Ok),
    {
        let ghost v = self@;
        self.begin_pieces(call);
        let ghost begun = self@;
        let first = self.fill_value(t, m.code_operand(1));
        let ghost u = self@;
        if let Err(e) = first {
            proof {
                lemma_pieces_kept(v, call, u, false);
            }
            return Err(e);
        }
        let second = self.do_word(t, m.code_operand(0), false);
        let ghost x = self@;
        proof {
            lemma_kept_on(begun, u, x, second is Ok);
        }
        if let Err(e) = second {
            proof {
                lemma_pieces_kept(v, call, x, false);
            }
            return Err(e);
        }
        let span: usize = self.add_span(m.modifier.span.clone());
        let ghost spanned = self@;
        self.push_instr(Instr::Prim(Primitive::Fill, span));
        proof {
            lemma_kept_on(begun, x, spanned, true);
            lemma_kept_on(begun, spanned, self@, true);
        }
        self.finish_pieces(t, &m.modifier.span, call)
    }

    /// Compiles a try.
    pub fn try_<T: Toolchain>(&mut self, t: &T, m: &Modified, call: bool) -> (res: UiuaResult<()>)
        requires
            orderly(t),
            well_formed(old(self)@),
            code_words(m@.operands).len() == 2,
        ensures
            tried(t, old(self)@, m@, call, final(self)@, res),
            place_kept(old(self)@, final(self)@, res is Ok),
    {
        let ghost v = self@;
        self.begin_pieces(call);
        let ghost begun = self@;
        let first = self.do_word(t, m.code_operand(1), false);
        let ghost u = self@;
        if let Err(e) = first {
            proof {
                lemma_pieces_kept(v, call, u, false);
            }
            return Err(e);
        }
        let tried_word = m.code_operand(0);
        let second = self.do_compile_operand_word(t, tried_word);
        let ghost x = self@;
        proof {
            lemma_kept_on(begun, u, x, second is Ok);
        }
        match second {
            Err(e) => {
                proof {
                    lemma_pieces_kept(v, call, x, false);
                }
                Err(e)
            },
            Ok((instrs, sig)) => {
                let span: usize = self.add_span(m.modifier.span.clone());
                let ghost spanned = self@;
                let try_instr = if instrs_have_pattern_matching(
                    instrs.as_slice(),
                    &self.assembly,
                ) {
                    Instr::ImplPrim(ImplPrimitive::TryPattern, span)
                } else {
                    Instr::Prim(Primitive::Try, span)
                };
                self.push_function(tried_word.span.clone(), sig, instrs);
                let ghost made = self@;
                self.push_instr(try_instr);
                proof {
                    lemma_kept_on(begun, x, spanned, true);
                    lemma_kept_on(begun, spanned, made, true);
                    lemma_kept_on(begun, made, self@, true);
                }
                self.finish_pieces(t, &m.modifier.span, call)
            },
        }
    }
}

} // verus!
