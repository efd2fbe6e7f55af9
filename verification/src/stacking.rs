//! The modifiers that arrange values on the stack: dip, gap, on, by, fork, cascade, bracket and
//! both.
use crate::codegen::{
    both_code, both_sig, bracket_code, bracket_sig, by_code, by_sig, cascade_code, cascade_sig,
    dip_code, dip_sig, fork_code, fork_sig, gap_code, gap_sig, lemma_grounded_one,
    lemma_grounded_two, make_both, make_bracket, make_by, make_cascade, make_cascade_sig, make_dip,
    make_fork, make_fork_sig, make_gap, make_on, on_code, on_sig,
};
use crate::compiler::{
    emitted, finished, last_instr_of, next_span, well_formed, with_diagnostic, with_span, Compiler,
    CompilerV,
};
use crate::instr::{grounded, Instr};
use crate::keeping::{lemma_kept_on, place_kept};
use crate::message::{DiagnosticKind, Message, UiuaError, UiuaResult};
use crate::prim::{ImplPrimitive, Primitive, Signature};
use crate::span::{merged, CodeSpan, Sp, Span};
use crate::toolchain::{did_compile_operand_word, did_prim_text, moderate, orderly, Toolchain};
use crate::word::{code_words, sp_view, Modified, ModifiedV, Word, WordV};
use vstd::prelude::*;

verus! {

/// The code of a dip, gap, on or by.
pub open spec fn arranged_code(
    prim: Primitive,
    code: Seq<Instr>,
    sig: Signature,
    span: usize,
) -> Seq<Instr> {
    match prim {
        Primitive::Dip => dip_code(code, span),
        Primitive::Gap => gap_code(code, span),
        Primitive::On => on_code(code, sig, span),
        _ => by_code(code, sig, span),
    }
}

/// The signature of a dip, gap, on or by.
pub open spec fn arranged_sig(prim: Primitive, sig: Signature) -> Signature {
    match prim {
        Primitive::Dip => dip_sig(sig),
        Primitive::Gap => gap_sig(sig),
        Primitive::On => on_sig(sig),
        _ => by_sig(sig),
    }
}

/// The place of the duplicate that the current function ends in, where it ends in one.
pub open spec fn last_dup(v: CompilerV) -> Option<CodeSpan> {
    match last_instr_of(v) {
        Some(Instr::Prim(Primitive::Dup, n)) => if n < v.assembly.spans.len() {
            match v.assembly.spans[n as int] {
                Span::Code(span) => Some(span),
                Span::Builtin => None,
            }
        } else {
            None
        },
        _ => None,
    }
}

/// A compiler that has suggested on in place of a dip of a function with one argument and one
/// output over a duplicate.
pub open spec fn dip_noted(
    v: CompilerV,
    prim: Primitive,
    sig: Signature,
    span: CodeSpan,
) -> CompilerV {
    match last_dup(v) {
        Some(dup) => if prim == Primitive::Dip && sig == (Signature { args: 1, outputs: 1 }) {
            with_diagnostic(v, Message::PreferOnOverDip, DiagnosticKind::Style, merged(span, dup))
        } else {
            v
        },
        None => v,
    }
}

/// What was done with a dip, gap, on or by.
pub open spec fn arranged<T: Toolchain>(
    t: &T,
    v: CompilerV,
    prim: Primitive,
    m: ModifiedV,
    call: bool,
    w: CompilerV,
    res: UiuaResult<()>,
) -> bool {
    let span = m.modifier.span;
    exists|u: CompilerV, out: UiuaResult<(Vec<Instr>, Signature)>| #[trigger]
        did_compile_operand_word(t, v, m.operands[0], u, out) && match out {
            Err(e) => w == u && res == Err::<(), UiuaError>(e),
            Ok((code, sig)) => {
                let noted = dip_noted(u, prim, sig, span);
                &&& res is Ok
                &&& w == emitted(
                    with_span(noted, span),
                    span,
                    call,
                    arranged_sig(prim, sig),
                    arranged_code(prim, code@, sig, next_span(noted)),
                )
            },
        }
}

/// Two operands were compiled, one after the other.
pub open spec fn two_compiled<T: Toolchain>(
    t: &T,
    v: CompilerV,
    first: Sp<WordV>,
    second: Sp<WordV>,
    w: CompilerV,
    res: UiuaResult<((Vec<Instr>, Signature), (Vec<Instr>, Signature))>,
) -> bool {
    exists|u: CompilerV, a: UiuaResult<(Vec<Instr>, Signature)>| #[trigger]
        did_compile_operand_word(t, v, first, u, a) && match a {
            Err(e) => w == u && res
                == Err::<((Vec<Instr>, Signature), (Vec<Instr>, Signature)), UiuaError>(e),
            Ok(a_out) => match res {
                Err(e) => did_compile_operand_word(t, u, second, w, Err(e)),
                Ok((x, b_out)) => x == a_out && did_compile_operand_word(
                    t,
                    u,
                    second,
                    w,
                    Ok(b_out),
                ),
            },
        }
}

/// A compiler that has suggested on in place of a fork with identity.
pub open spec fn fork_noted(v: CompilerV, first: Sp<WordV>, span: CodeSpan) -> CompilerV {
    if first.value == WordV::Primitive(Primitive::Identity) {
        with_diagnostic(
            v,
            Message::PreferOnOverFork,
            DiagnosticKind::Style,
            merged(span, first.span),
        )
    } else {
        v
    }
}

/// What was done with a fork.
pub open spec fn forked<T: Toolchain>(
    t: &T,
    v: CompilerV,
    m: ModifiedV,
    call: bool,
    w: CompilerV,
    res: UiuaResult<()>,
) -> bool {
    let span = m.modifier.span;
    let words = code_words(m.operands);
    exists|
        u: CompilerV,
        out: UiuaResult<((Vec<Instr>, Signature), (Vec<Instr>, Signature))>,
    | #[trigger]
        two_compiled(t, fork_noted(v, words[0], span), words[0], words[1], u, out) && match out {
            Err(e) => w == u && res == Err::<(), UiuaError>(e),
            Ok(((a, a_sig), (b, b_sig))) => {
                &&& res is Ok
                &&& w == emitted(
                    with_span(u, span),
                    span,
                    call,
                    fork_sig(a_sig, b_sig),
                    fork_code(a@, a_sig, b@, b_sig, next_span(u)),
                )
            },
        }
}

/// What has been noted of a cascade: advice where nothing is passed on to its first function.
pub open spec fn cascade_noted<T: Toolchain>(
    t: &T,
    v: CompilerV,
    a: Signature,
    b: Signature,
    span: CodeSpan,
    w: CompilerV,
) -> bool {
    if a.args < b.outputs {
        exists|text: String| #[trigger]
            did_prim_text(t, Primitive::Cascade, text) && w == with_diagnostic(
                v,
                Message::CascadeRedundant { prim: text },
                DiagnosticKind::Advice,
                span,
            )
    } else {
        w == v
    }
}

/// What was done with a cascade.
pub open spec fn cascaded<T: Toolchain>(
    t: &T,
    v: CompilerV,
    m: ModifiedV,
    call: bool,
    w: CompilerV,
    res: UiuaResult<()>,
) -> bool {
    let span = m.modifier.span;
    let words = code_words(m.operands);
    exists|
        u: CompilerV,
        out: UiuaResult<((Vec<Instr>, Signature), (Vec<Instr>, Signature))>,
    | #[trigger]
        two_compiled(t, v, words[0], words[1], u, out) && match out {
            Err(e) => w == u && res == Err::<(), UiuaError>(e),
            Ok(((a, a_sig), (b, b_sig))) => {
                &&& res is Ok
                &&& exists|noted: CompilerV| #[trigger]
                    cascade_noted(t, with_span(u, span), a_sig, b_sig, span, noted) && w == emitted(
                        noted,
                        span,
                        call,
                        cascade_sig(a_sig, b_sig),
                        cascade_code(a@, a_sig, b@, b_sig, next_span(u)),
                    )
            },
        }
}

/// What was done with a bracket.
pub open spec fn bracketed<T: Toolchain>(
    t: &T,
    v: CompilerV,
    m: ModifiedV,
    call: bool,
    w: CompilerV,
    res: UiuaResult<()>,
) -> bool {
    let span = m.modifier.span;
    let words = code_words(m.operands);
    exists|
        u: CompilerV,
        out: UiuaResult<((Vec<Instr>, Signature), (Vec<Instr>, Signature))>,
    | #[trigger]
        two_compiled(t, v, words[0], words[1], u, out) && match out {
            Err(e) => w == u && res == Err::<(), UiuaError>(e),
            Ok(((a, a_sig), (b, b_sig))) => {
                &&& res is Ok
                &&& w == emitted(
                    with_span(u, span),
                    span,
                    call,
                    bracket_sig(a_sig, b_sig),
                    bracket_code(a@, a_sig, b@, next_span(u)),
                )
            },
        }
}

/// What comes of the code of the operand of a both: a trace is done at once for both.
pub open spec fn both_emitted(
    u: CompilerV,
    code: Seq<Instr>,
    sig: Signature,
    span: CodeSpan,
    call: bool,
) -> CompilerV {
    if code.len() == 1 && code[0] is Prim && code[0]->Prim_0 == Primitive::Trace {
        finished(
            u,
            span,
            call,
            Signature { args: 2, outputs: 2 },
            seq![Instr::ImplPrim(ImplPrimitive::BothTrace, code[0]->Prim_1)],
        )
    } else {
        emitted(
            with_span(u, span),
            span,
            call,
            both_sig(sig),
            both_code(code, sig, next_span(u)),
        )
    }
}

/// What was done with a both.
pub open spec fn doubled<T: Toolchain>(
    t: &T,
    v: CompilerV,
    m: ModifiedV,
    call: bool,
    w: CompilerV,
    res: UiuaResult<()>,
) -> bool {
    exists|u: CompilerV, out: UiuaResult<(Vec<Instr>, Signature)>| #[trigger]
        did_compile_operand_word(t, v, code_words(m.operands)[0], u, out) && match out {
            Err(e) => w == u && res == Err::<(), UiuaError>(e),
            Ok((code, sig)) => res is Ok && w == both_emitted(
                u,
                code@,
                sig,
                m.modifier.span,
                call,
            ),
        }
}

impl Compiler {
    /// The place of the duplicate that the current function ends in.
    fn find_last_dup(&self) -> (res: Option<CodeSpan>)
        ensures
            res == last_dup(self@),
    {
        match self.last_instr() {
            Some(Instr::Prim(Primitive::Dup, n)) => if n < self.assembly.spans.len() {
                match &self.assembly.spans[n] {
                    Span::Code(span) => Some(span.clone()),
                    Span::Builtin => None,
                }
            } else {
                None
            },
            _ => None,
        }
    }

    /// Compiles a dip, gap, on or by.
    pub fn arrange<T: Toolchain>(
        &mut self,
        t: &T,
        prim: Primitive,
        m: &Modified,
        call: bool,
    ) -> (res: UiuaResult<()>)
        requires
            orderly(t),
            well_formed(old(self)@),
            m@.operands.len() > 0,
        ensures
            arranged(t, old(self)@, prim, m@, call, final(self)@, res),
            place_kept(old(self)@, final(self)@, res is Ok),
    {
        let ghost v = self@;
        assert(m@.operands[0] == sp_view(m.operands@[0]));
        let out = self.do_compile_operand_word(t, &m.operands[0]);
        let ghost u = self@;
        match out {
            Err(e) => Err(e),
            Ok((instrs, sig)) => {
                let ghost code = instrs@;
                if prim == Primitive::Dip && sig.args == 1 && sig.outputs == 1 {
                    if let Some(dup) = self.find_last_dup() {
                        let place = m.modifier.span.clone().merge(dup);
                        self.emit_diagnostic(
                            Message::PreferOnOverDip,
                            DiagnosticKind::Style,
                            place,
                        );
                    }
                }
                let ghost noted = self@;
                assert(noted == dip_noted(u, prim, sig, m.modifier.span));
                let span: usize = self.add_span(m.modifier.span.clone());
                let ghost spanned = self@;
                let (instrs, new_sig) = match prim {
                    Primitive::Dip => (
                        make_dip(instrs, span),
                        Signature::new(sig.args + 1, sig.outputs + 1),
                    ),
                    Primitive::Gap => (
                        make_gap(instrs, span),
                        Signature::new(sig.args + 1, sig.outputs),
                    ),
                    Primitive::On => (
                        make_on(instrs, sig, span),
                        Signature::new(
                            if sig.args == 0 {
                                1
                            } else {
                                sig.args
                            },
                            sig.outputs + 1,
                        ),
                    ),
                    _ => (make_by(instrs, sig, span), Signature::new(sig.args, sig.outputs + 1)),
                };
                proof {
                    lemma_grounded_one(code, sig, 0, span, spanned.assembly.instrs.len());
                }
                self.emit(m.modifier.span.clone(), call, new_sig, instrs);
                proof {
                    lemma_kept_on(v, u, noted, true);
                    lemma_kept_on(v, noted, spanned, true);
                    lemma_kept_on(v, spanned, self@, true);
                }
                Ok(())
            },
        }
    }

    /// Compiles two operands, one after the other.
    pub(crate) fn compile_two<T: Toolchain>(
        &mut self,
        t: &T,
        first: &Sp<Word>,
        second: &Sp<Word>,
    ) -> (res: UiuaResult<((Vec<Instr>, Signature), (Vec<Instr>, Signature))>)
        requires
            orderly(t),
            well_formed(old(self)@),
        ensures
            two_compiled(t, old(self)@, sp_view(*first), sp_view(*second), final(self)@, res),
            place_kept(old(self)@, final(self)@, res is Ok),
            res matches Ok(((a, a_sig), (b, b_sig))) ==> {
                &&& moderate(a_sig)
                &&& moderate(b_sig)
                &&& grounded(a@, final(self)@.assembly.instrs.len())
                &&& grounded(b@, final(self)@.assembly.instrs.len())
            },
    {
        let ghost v = self@;
        let a = self.do_compile_operand_word(t, first);
        let ghost u = self@;
        match a {
            Err(e) => Err(e),
            Ok(a_out) => {
                let b = self.do_compile_operand_word(t, second);
                proof {
                    lemma_kept_on(v, u, self@, b is Ok);
                }
                match b {
                    Err(e) => Err(e),
                    Ok(b_out) => Ok((a_out, b_out)),
                }
            },
        }
    }

    /// Compiles a fork.
    pub fn fork<T: Toolchain>(&mut self, t: &T, m: &Modified, call: bool) -> (res: UiuaResult<()>)
        requires
            orderly(t),
            well_formed(old(self)@),
            code_words(m@.operands).len() == 2,
        ensures
            forked(t, old(self)@, m@, call, final(self)@, res),
            place_kept(old(self)@, final(self)@, res is Ok),
    {
        let ghost v = self@;
        let first = m.code_operand(0);
        let second = m.code_operand(1);
        if let Word::Primitive(Primitive::Identity) = first.value {
            let place = m.modifier.span.clone().merge(first.span.clone());
            self.emit_diagnostic(Message::PreferOnOverFork, DiagnosticKind::Style, place);
        }
        let ghost noted = self@;
        assert(noted == fork_noted(v, sp_view(*first), m.modifier.span));
        let out = self.compile_two(t, first, second);
        let ghost u = self@;
        proof {
            lemma_kept_on(v, noted, u, out is Ok);
        }
        match out {
            Err(e) => Err(e),
            Ok(((a, a_sig), (b, b_sig))) => {
                let ghost a_code = a@;
                let ghost b_code = b@;
                let span: usize = self.add_span(m.modifier.span.clone());
                let ghost spanned = self@;
                let instrs = make_fork(a, a_sig, b, b_sig, span);
                proof {
                    let limit = spanned.assembly.instrs.len();
                    lemma_grounded_two(a_code, a_sig, b_code, b_sig, span, limit);
                }
                self.emit(m.modifier.span.clone(), call, make_fork_sig(a_sig, b_sig), instrs);
                proof {
                    lemma_kept_on(v, u, spanned, true);
                    lemma_kept_on(v, spanned, self@, true);
                }
                Ok(())
            },
        }
    }

    /// Compiles a cascade.
    pub fn cascade<T: Toolchain>(&mut self, t: &T, m: &Modified, call: bool) -> (res: UiuaResult<
        (),
    >)
        requires
            orderly(t),
            well_formed(old(self)@),
            code_words(m@.operands).len() == 2,
        ensures
            cascaded(t, old(self)@, m@, call, final(self)@, res),
            place_kept(old(self)@, final(self)@, res is Ok),
    {
        let ghost v = self@;
        let out = self.compile_two(t, m.code_operand(0), m.code_operand(1));
        let ghost u = self@;
        match out {
            Err(e) => Err(e),
            Ok(((a, a_sig), (b, b_sig))) => {
                let ghost a_code = a@;
                let ghost b_code = b@;
                let span: usize = self.add_span(m.modifier.span.clone());
                let ghost spanned = self@;
                if a_sig.args < b_sig.outputs {
                    let text = t.prim_text(Primitive::Cascade);
                    assert(did_prim_text(t, Primitive::Cascade, text));
                    self.emit_diagnostic(
                        Message::CascadeRedundant { prim: text },
                        DiagnosticKind::Advice,
                        m.modifier.span.clone(),
                    );
                }
                let ghost noted = self@;
                assert(cascade_noted(t, spanned, a_sig, b_sig, m.modifier.span, noted));
                let instrs = make_cascade(a, a_sig, b, b_sig, span);
                proof {
                    let limit = spanned.assembly.instrs.len();
                    lemma_grounded_two(a_code, a_sig, b_code, b_sig, span, limit);
                }
                self.emit(m.modifier.span.clone(), call, make_cascade_sig(a_sig, b_sig), instrs);
                proof {
                    lemma_kept_on(v, u, spanned, true);
                    lemma_kept_on(v, spanned, noted, true);
                    lemma_kept_on(v, noted, self@, true);
                }
                Ok(())
            },
        }
    }

    /// Compiles a bracket.
    pub fn bracket<T: Toolchain>(&mut self, t: &T, m: &Modified, call: bool) -> (res: UiuaResult<
        (),
    >)
        requires
            orderly(t),
            well_formed(old(self)@),
            code_words(m@.operands).len() == 2,
        ensures
            bracketed(t, old(self)@, m@, call, final(self)@, res),
            place_kept(old(self)@, final(self)@, res is Ok),
    {
        let ghost v = self@;
        let out = self.compile_two(t, m.code_operand(0), m.code_operand(1));
        let ghost u = self@;
        match out {
            Err(e) => Err(e),
            Ok(((a, a_sig), (b, b_sig))) => {
                let ghost a_code = a@;
                let ghost b_code = b@;
                let span: usize = self.add_span(m.modifier.span.clone());
                let ghost spanned = self@;
                let instrs = make_bracket(a, a_sig, b, span);
                proof {
                    let limit = spanned.assembly.instrs.len();
                    lemma_grounded_two(a_code, a_sig, b_code, b_sig, span, limit);
                }
                let sig = Signature::new(a_sig.args + b_sig.args, a_sig.outputs + b_sig.outputs);
                self.emit(m.modifier.span.clone(), call, sig, instrs);
                proof {
                    lemma_kept_on(v, u, spanned, true);
                    lemma_kept_on(v, spanned, self@, true);
                }
                Ok(())
            },
        }
    }

    /// Compiles a both.
    pub fn both<T: Toolchain>(&mut self, t: &T, m: &Modified, call: bool) -> (res: UiuaResult<()>)
        requires
            orderly(t),
            well_formed(old(self)@),
            code_words(m@.operands).len() == 1,
        ensures
            doubled(t, old(self)@, m@, call, final(self)@, res),
            place_kept(old(self)@, final(self)@, res is Ok),
    {
        let ghost v = self@;
        let out = self.do_compile_operand_word(t, m.code_operand(0));
        let ghost u = self@;
        match out {
            Err(e) => Err(e),
            Ok((instrs, sig)) => {
                let ghost code = instrs@;
                if instrs.len() == 1 {
                    if let Instr::Prim(Primitive::Trace, at) = instrs[0] {
                        let trace = vec![Instr::ImplPrim(ImplPrimitive::BothTrace, at)];
                        assert(trace@ =~= seq![Instr::ImplPrim(ImplPrimitive::BothTrace, at)]);
                        self.finish(m.modifier.span.clone(), call, Signature::new(2, 2), trace);
                        proof {
                            lemma_kept_on(v, u, self@, true);
                        }
                        return Ok(());
                    }
                }
                let span: usize = self.add_span(m.modifier.span.clone());
                let ghost spanned = self@;
                let instrs = make_both(instrs, sig, span);
                proof {
                    let limit = spanned.assembly.instrs.len();
                    lemma_grounded_two(code, sig, code, sig, span, limit);
                }
                let new_sig = Signature::new(sig.args * 2, sig.outputs * 2);
                self.emit(m.modifier.span.clone(), call, new_sig, instrs);
                proof {
                    lemma_kept_on(v, u, spanned, true);
                    lemma_kept_on(v, spanned, self@, true);
                }
                Ok(())
            },
        }
    }
}

} // verus!
