//! The modifiers that undo functions: un and under.
use crate::codegen::{lemma_grounded_under, make_under, under_code};
use crate::compiler::{
    finished, well_formed, with_code, with_function, with_span, Compiler, CompilerV,
};
use crate::instr::{grounded, Instr};
use crate::keeping::{lemma_kept_anyway, lemma_kept_on, place_kept};
use crate::message::{Message, UiuaError, UiuaResult};
use crate::prim::Signature;
use crate::span::CodeSpan;
use crate::stacking::two_compiled;
use crate::toolchain::{
    did_compile_operand_word, did_invert_instrs, did_sig_of, did_under_instrs, orderly, Toolchain,
};
use crate::word::{code_words, Modified, ModifiedV};
use vstd::prelude::*;

verus! {

/// The refusal of a function that cannot be undone.
pub open spec fn no_inverse(span: CodeSpan) -> UiuaResult<()> {
    Err(UiuaError::Fatal { span, message: Message::NoInverse })
}

/// What was done with the code of the operand of an un.
pub open spec fn inverted<T: Toolchain>(
    t: &T,
    v: CompilerV,
    code: Seq<Instr>,
    operand: CodeSpan,
    span: CodeSpan,
    call: bool,
    w: CompilerV,
    res: UiuaResult<()>,
) -> bool {
    exists|u: CompilerV, inverse: Option<Vec<Instr>>| #[trigger]
        did_invert_instrs(t, v, code, u, inverse) && match inverse {
            None => w == u && res == no_inverse(operand),
            Some(inv) => exists|sig: UiuaResult<Signature>| #[trigger]
                did_sig_of(t, u, inv@, operand, sig) && match sig {
                    Err(e) => w == u && res == Err::<(), UiuaError>(e),
                    Ok(sig) => res is Ok && w == finished(u, span, call, sig, inv@),
                },
        }
}

/// What was done with an un.
pub open spec fn undone<T: Toolchain>(
    t: &T,
    v: CompilerV,
    m: ModifiedV,
    call: bool,
    w: CompilerV,
    res: UiuaResult<()>,
) -> bool {
    let word = code_words(m.operands)[0];
    exists|u: CompilerV, out: UiuaResult<(Vec<Instr>, Signature)>| #[trigger]
        did_compile_operand_word(t, v, word, u, out) && match out {
            Err(e) => w == u && res == Err::<(), UiuaError>(e),
            Ok((code, _)) => inverted(
                t,
                with_span(u, word.span),
                code@,
                word.span,
                m.modifier.span,
                call,
                w,
                res,
            ),
        }
}

/// What was done with the parts of an under once they were there. `span` is the place of the
/// modifier, `f_span` that of the function that is undone.
pub open spec fn under_emitted<T: Toolchain>(
    t: &T,
    v: CompilerV,
    before: Seq<Instr>,
    code: Seq<Instr>,
    after: Seq<Instr>,
    f_span: CodeSpan,
    span: CodeSpan,
    call: bool,
    w: CompilerV,
    res: UiuaResult<()>,
) -> bool {
    exists|before_sig: UiuaResult<Signature>| #[trigger]
        did_sig_of(t, v, before, f_span, before_sig) && match before_sig {
            Err(e) => w == v && res == Err::<(), UiuaError>(e),
            Ok(before_sig) => exists|after_sig: UiuaResult<Signature>| #[trigger]
                did_sig_of(t, v, after, f_span, after_sig) && match after_sig {
                    Err(e) => w == v && res == Err::<(), UiuaError>(e),
                    Ok(after_sig) => under_finished(
                        t,
                        v,
                        under_code(before, before_sig, code, after, after_sig, call),
                        span,
                        call,
                        w,
                        res,
                    ),
                },
        }
}

/// What was done with the code of an under: it was added, or made into a function of its
/// signature.
pub open spec fn under_finished<T: Toolchain>(
    t: &T,
    v: CompilerV,
    code: Seq<Instr>,
    span: CodeSpan,
    call: bool,
    w: CompilerV,
    res: UiuaResult<()>,
) -> bool {
    if call {
        res is Ok && w == with_code(v, code)
    } else {
        exists|sig: UiuaResult<Signature>| #[trigger]
            did_sig_of(t, v, code, span, sig) && match sig {
                Err(e) => w == v && res == Err::<(), UiuaError>(e),
                Ok(sig) => res is Ok && w == with_function(v, span, sig, code),
            }
    }
}

/// What was done with an under.
pub open spec fn under_done<T: Toolchain>(
    t: &T,
    v: CompilerV,
    m: ModifiedV,
    call: bool,
    w: CompilerV,
    res: UiuaResult<()>,
) -> bool {
    let words = code_words(m.operands);
    exists|
        u: CompilerV,
        out: UiuaResult<((Vec<Instr>, Signature), (Vec<Instr>, Signature))>,
    | #[trigger]
        two_compiled(t, v, words[0], words[1], u, out) && match out {
            Err(e) => w == u && res == Err::<(), UiuaError>(e),
            Ok(((f, _), (g, g_sig))) => exists|
                x: CompilerV,
                parts: Option<(Vec<Instr>, Vec<Instr>)>,
            | #[trigger]
                did_under_instrs(t, u, f@, g_sig, x, parts) && match parts {
                    None => w == x && res == no_inverse(words[0].span),
                    Some((before, after)) => under_emitted(
                        t,
                        x,
                        before@,
                        g@,
                        after@,
                        words[0].span,
                        m.modifier.span,
                        call,
                        w,
                        res,
                    ),
                },
        }
}

impl Compiler {
    /// Compiles an un.
    pub fn un<T: Toolchain>(&mut self, t: &T, m: &Modified, call: bool) -> (res: UiuaResult<()>)
        requires
            orderly(t),
            well_formed(old(self)@),
            code_words(m@.operands).len() == 1,
        ensures
            undone(t, old(self)@, m@, call, final(self)@, res),
            place_kept(old(self)@, final(self)@, res is Ok),
    {
        let ghost v = self@;
        let f = m.code_operand(0);
        let out = self.do_compile_operand_word(t, f);
        let ghost u = self@;
        match out {
            Err(e) => Err(e),
            Ok((instrs, _)) => {
                self.add_span(f.span.clone());
                let ghost spanned = self@;
                let inverse = self.do_invert_instrs(t, &instrs);
                let ghost x = self@;
                proof {
                    lemma_kept_on(v, u, spanned, true);
                    lemma_kept_on(v, spanned, x, true);
                    lemma_kept_anyway(v, x, true);
                    assert(did_invert_instrs(t, spanned, instrs@, x, inverse));
                }
                match inverse {
                    None => Err(self.fatal_error(f.span.clone(), Message::NoInverse)),
                    Some(inv) => {
                        let sig = t.sig_of(self, &inv, &f.span);
                        assert(did_sig_of(t, x, inv@, f.span, sig));
                        match sig {
                            Err(e) => Err(e),
                            Ok(sig) => {
                                self.finish(m.modifier.span.clone(), call, sig, inv);
                                proof {
                                    lemma_kept_on(v, x, self@, true);
                                }
                                Ok(())
                            },
                        }
                    },
                }
            },
        }
    }

    fn emit_under<T: Toolchain>(
        &mut self,
        t: &T,
        f_before: Vec<Instr>,
        g_instrs: Vec<Instr>,
        f_after: Vec<Instr>,
        f_span: &CodeSpan,
        span: &CodeSpan,
        call: bool,
    ) -> (res: UiuaResult<()>)
        requires
            well_formed(old(self)@),
            grounded(f_before@, old(self)@.assembly.instrs.len()),
            grounded(g_instrs@, old(self)@.assembly.instrs.len()),
            grounded(f_after@, old(self)@.assembly.instrs.len()),
        ensures
            under_emitted(
                t,
                old(self)@,
                f_before@,
                g_instrs@,
                f_after@,
                *f_span,
                *span,
                call,
                final(self)@,
                res,
            ),
            place_kept(old(self)@, final(self)@, res is Ok),
    {
        let ghost v = self@;
        let before_sig = t.sig_of(self, &f_before, f_span);
        assert(did_sig_of(t, v, f_before@, *f_span, before_sig));
        let before_sig = match before_sig {
            Err(e) => return Err(e),
            Ok(sig) => sig,
        };
        let after_sig = t.sig_of(self, &f_after, f_span);
        assert(did_sig_of(t, v, f_after@, *f_span, after_sig));
        let after_sig = match after_sig {
            Err(e) => return Err(e),
            Ok(sig) => sig,
        };
        proof {
            lemma_grounded_under(
                f_before@,
                before_sig,
                g_instrs@,
                f_after@,
                after_sig,
                call,
                v.assembly.instrs.len(),
            );
        }
        let instrs = make_under(f_before, before_sig, g_instrs, f_after, after_sig, call);
        if call {
            self.push_all_instrs(instrs);
            Ok(())
        } else {
            let sig = t.sig_of(self, &instrs, span);
            assert(did_sig_of(t, v, instrs@, *span, sig));
            match sig {
                Err(e) => Err(e),
                Ok(sig) => {
                    self.push_function(span.clone(), sig, instrs);
                    Ok(())
                },
            }
        }
    }

    /// Compiles an under.
    pub fn under<T: Toolchain>(&mut self, t: &T, m: &Modified, call: bool) -> (res: UiuaResult<()>)
        requires
            orderly(t),
            well_formed(old(self)@),
            code_words(m@.operands).len() == 2,
        ensures
            under_done(t, old(self)@, m@, call, final(self)@, res),
            place_kept(old(self)@, final(self)@, res is Ok),
    {
        let ghost v = self@;
        let f = m.code_operand(0);
        let out = self.compile_two(t, f, m.code_operand(1));
        let ghost u = self@;
        match out {
            Err(e) => Err(e),
            Ok(((f_instrs, _), (g_instrs, g_sig))) => {
                let parts = self.do_under_instrs(t, &f_instrs, g_sig);
                let ghost x = self@;
                proof {
                    lemma_kept_on(v, u, x, true);
                    lemma_kept_anyway(v, x, true);
                    assert(did_under_instrs(t, u, f_instrs@, g_sig, x, parts));
                }
                match parts {
                    None => Err(self.fatal_error(f.span.clone(), Message::NoInverse)),
                    Some((f_before, f_after)) => {
                        let res = self.emit_under(
                            t,
                            f_before,
                            g_instrs,
                            f_after,
                            &f.span,
                            &m.modifier.span,
                            call,
                        );
                        proof {
                            lemma_kept_on(v, x, self@, res is Ok);
                        }
                        res
                    },
                }
            },
        }
    }
}

} // verus!
