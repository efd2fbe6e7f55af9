//! The modifiers that go into arrays, where they are compiled in a special way: reduce, each, table
//! and content.
use crate::codegen::{content_code, lemma_grounded_one, make_content};
use crate::compiler::{
    finished, next_function, next_span, well_formed, with_body, with_diagnostic, with_span,
    Compiler, CompilerV,
};
use crate::instr::Instr;
use crate::keeping::{lemma_kept_on, place_kept};
use crate::message::{DiagnosticKind, Message, UiuaError, UiuaResult};
use crate::prim::{ImplPrimitive, Primitive, Signature};
use crate::span::CodeSpan;
use crate::toolchain::{
    did_compile_operand_word, did_instrs_as_flipped_primitive, did_is_pervasive, did_prim_text,
    orderly, Toolchain,
};
use crate::word::{code_words, FunctionId, Modified, ModifiedV, Modifier, ModifierV, Word, WordV};
use vstd::prelude::*;

verus! {

/// A compiler that has made a function at one place from some code, and emitted the code that
/// hands it to an instruction, for a modifier at another.
pub open spec fn function_handed(
    v: CompilerV,
    place: CodeSpan,
    code: Seq<Instr>,
    sig: Signature,
    instr: Instr,
    span: CodeSpan,
    call: bool,
    new_sig: Signature,
) -> CompilerV {
    let func = next_function(v, FunctionId::Anonymous(place), sig, code);
    finished(
        with_span(with_body(v, code), span),
        span,
        call,
        new_sig,
        seq![Instr::PushFunc(func), instr],
    )
}

/// The content that a reduce is applied to, where it is applied to one of a single function.
pub open spec fn reduced_content(m: ModifiedV) -> Option<ModifiedV> {
    match code_words(m.operands)[0].value {
        WordV::Modified(inner) => if inner.modifier.value == ModifierV::Primitive(
            Primitive::Content,
        ) && code_words(inner.operands).len() == 1 {
            Some(*inner)
        } else {
            None
        },
        _ => None,
    }
}

/// What was done with a reduce of a content.
pub open spec fn content_reduced<T: Toolchain>(
    t: &T,
    v: CompilerV,
    m: ModifiedV,
    inner: ModifiedV,
    call: bool,
    w: CompilerV,
    res: UiuaResult<()>,
) -> bool {
    exists|u: CompilerV, out: UiuaResult<(Vec<Instr>, Signature)>| #[trigger]
        did_compile_operand_word(t, v, code_words(inner.operands)[0], u, out) && match out {
            Err(e) => w == u && res == Err::<(), UiuaError>(e),
            Ok((code, sig)) => res is Ok && w == function_handed(
                u,
                inner.modifier.span,
                code@,
                sig,
                Instr::ImplPrim(ImplPrimitive::ReduceContent, next_span(u)),
                m.modifier.span,
                call,
                Signature { args: 1, outputs: 1 },
            ),
        }
}

/// What is said about an each of a function that goes into each element anyway.
pub open spec fn each_message<T: Toolchain>(
    t: &T,
    code: Seq<Instr>,
    v: CompilerV,
    message: Message,
) -> bool {
    exists|found: Option<(Primitive, bool)>| #[trigger]
        did_instrs_as_flipped_primitive(t, code, v.assembly, found) && match found {
            Some((prim, _)) => exists|pervasive: bool| #[trigger]
                did_is_pervasive(t, prim, pervasive) && if pervasive {
                    each_of_primitive(t, prim, message)
                } else {
                    each_of_function(t, message)
                },
            None => each_of_function(t, message),
        }
}

pub open spec fn each_of_primitive<T: Toolchain>(
    t: &T,
    prim: Primitive,
    message: Message,
) -> bool {
    message matches Message::EachOfPervasive { prim: text, each } && did_prim_text(t, prim, text)
        && did_prim_text(t, Primitive::Each, each)
}

pub open spec fn each_of_function<T: Toolchain>(t: &T, message: Message) -> bool {
    message matches Message::EachPervasive { each } && did_prim_text(t, Primitive::Each, each)
}

/// What was done with an each of a function that looks as if it goes into each element anyway.
pub open spec fn each_dropped<T: Toolchain>(
    t: &T,
    v: CompilerV,
    m: ModifiedV,
    call: bool,
    w: CompilerV,
    res: UiuaResult<()>,
) -> bool {
    let span = m.modifier.span;
    exists|u: CompilerV, out: UiuaResult<(Vec<Instr>, Signature)>| #[trigger]
        did_compile_operand_word(t, v, code_words(m.operands)[0], u, out) && match out {
            Err(e) => w == u && res == Err::<(), UiuaError>(e),
            Ok((code, sig)) => res is Ok && exists|message: Message| #[trigger]
                each_message(t, code@, u, message) && w == finished(
                    with_diagnostic(u, message, DiagnosticKind::Advice, span),
                    span,
                    call,
                    sig,
                    code@,
                ),
        }
}

/// What has been noted of a table: advice where its function has fewer than two arguments.
pub open spec fn table_noted<T: Toolchain>(
    t: &T,
    v: CompilerV,
    sig: Signature,
    operand: CodeSpan,
    w: CompilerV,
) -> bool {
    if sig.args == 0 {
        exists|table: String| #[trigger]
            did_prim_text(t, Primitive::Table, table) && w == with_diagnostic(
                v,
                Message::TableNoArguments { table },
                DiagnosticKind::Advice,
                operand,
            )
    } else if sig.args == 1 {
        exists|table: String, rows: String| #[trigger]
            did_prim_text(t, Primitive::Table, table) && #[trigger] did_prim_text(
                t,
                Primitive::Rows,
                rows,
            ) && w == with_diagnostic(
                v,
                Message::TableOneArgument { table, rows },
                DiagnosticKind::Advice,
                operand,
            )
    } else {
        w == v
    }
}

/// What was done with a table.
pub open spec fn tabled<T: Toolchain>(
    t: &T,
    v: CompilerV,
    m: ModifiedV,
    call: bool,
    w: CompilerV,
    res: UiuaResult<()>,
) -> bool {
    let word = code_words(m.operands)[0];
    exists|u: CompilerV, out: UiuaResult<(Vec<Instr>, Signature)>| #[trigger]
        did_compile_operand_word(t, v, word, u, out) && match out {
            Err(e) => w == u && res == Err::<(), UiuaError>(e),
            Ok((code, sig)) => res is Ok && exists|noted: CompilerV| #[trigger]
                table_noted(t, u, sig, word.span, noted) && w == function_handed(
                    noted,
                    word.span,
                    code@,
                    sig,
                    Instr::Prim(Primitive::Table, next_span(noted)),
                    m.modifier.span,
                    call,
                    sig,
                ),
        }
}

/// What was done with a content.
pub open spec fn contents_taken<T: Toolchain>(
    t: &T,
    v: CompilerV,
    m: ModifiedV,
    call: bool,
    w: CompilerV,
    res: UiuaResult<()>,
) -> bool {
    let span = m.modifier.span;
    exists|u: CompilerV, out: UiuaResult<(Vec<Instr>, Signature)>| #[trigger]
        did_compile_operand_word(t, v, code_words(m.operands)[0], u, out) && match out {
            Err(e) => w == u && res == Err::<(), UiuaError>(e),
            Ok((code, sig)) => res is Ok && w == finished(
                with_span(u, span),
                span,
                call,
                sig,
                content_code(code@, sig, next_span(u)),
            ),
        }
}

/// The content that a reduce is applied to, where it is applied to one of a single function.
pub fn find_reduced_content(m: &Modified) -> (res: Option<&Modified>)
    requires
        code_words(m@.operands).len() > 0,
    ensures
        match reduced_content(m@) {
            Some(inner) => res matches Some(out) && out@ == inner,
            None => res is None,
        },
{
    match &m.code_operand(0).value {
        Word::Modified(inner) => match &inner.modifier.value {
            Modifier::Primitive(Primitive::Content) => if inner.code_count() == 1 {
                Some(&**inner)
            } else {
                None
            },
            _ => None,
        },
        _ => None,
    }
}

impl Compiler {
    /// Makes a function at one place from some code, and emits the code that hands it to an
    /// instruction, for a modifier at another.
    fn hand_function(
        &mut self,
        place: CodeSpan,
        instrs: Vec<Instr>,
        sig: Signature,
        instr: Instr,
        span: CodeSpan,
        call: bool,
        new_sig: Signature,
    )
        requires
            well_formed(old(self)@),
            crate::instr::grounded(instrs@, old(self)@.assembly.instrs.len()),
            !(instr is PushFunc),
        ensures
            final(self)@ == function_handed(
                old(self)@,
                place,
                instrs@,
                sig,
                instr,
                span,
                call,
                new_sig,
            ),
            place_kept(old(self)@, final(self)@, true),
    {
        let ghost v = self@;
        let func = self.make_function(FunctionId::Anonymous(place), sig, instrs);
        let ghost made = self@;
        self.add_span(span.clone());
        let ghost spanned = self@;
        let code = vec![Instr::PushFunc(func), instr];
        assert(code@ =~= seq![Instr::PushFunc(func), instr]);
        self.finish(span, call, new_sig, code);
        proof {
            lemma_kept_on(v, made, spanned, true);
            lemma_kept_on(v, spanned, self@, true);
        }
    }

    /// Compiles a reduce of a content.
    pub fn reduce_content<T: Toolchain>(
        &mut self,
        t: &T,
        m: &Modified,
        inner: &Modified,
        call: bool,
    ) -> (res: UiuaResult<()>)
        requires
            orderly(t),
            well_formed(old(self)@),
            code_words(inner@.operands).len() == 1,
        ensures
            content_reduced(t, old(self)@, m@, inner@, call, final(self)@, res),
            place_kept(old(self)@, final(self)@, res is Ok),
    {
        let ghost v = self@;
        let out = self.do_compile_operand_word(t, inner.code_operand(0));
        let ghost u = self@;
        match out {
            Err(e) => Err(e),
            Ok((instrs, sig)) => {
                let span: usize = self.assembly.spans.len();
                self.hand_function(
                    inner.modifier.span.clone(),
                    instrs,
                    sig,
                    Instr::ImplPrim(ImplPrimitive::ReduceContent, span),
                    m.modifier.span.clone(),
                    call,
                    Signature::new(1, 1),
                );
                proof {
                    lemma_kept_on(v, u, self@, true);
                }
                Ok(())
            },
        }
    }

    /// What is said about an each of a function that goes into each element anyway.
    fn make_each_message<T: Toolchain>(&self, t: &T, instrs: &Vec<Instr>) -> (res: Message)
        ensures
            each_message(t, instrs@, self@, res),
    {
        let found = t.instrs_as_flipped_primitive(instrs, &self.assembly);
        assert(did_instrs_as_flipped_primitive(t, instrs@, self@.assembly, found));
        if let Some((prim, _)) = found {
            let pervasive = t.is_pervasive(prim);
            assert(did_is_pervasive(t, prim, pervasive));
            if pervasive {
                let text = t.prim_text(prim);
                let each = t.prim_text(Primitive::Each);
                let message = Message::EachOfPervasive { prim: text, each };
                assert(each_of_primitive(t, prim, message));
                return message;
            }
        }
        let each = t.prim_text(Primitive::Each);
        let message = Message::EachPervasive { each };
        assert(each_of_function(t, message));
        message
    }

    /// Compiles an each of a function that looks as if it goes into each element anyway.
    pub fn each<T: Toolchain>(&mut self, t: &T, m: &Modified, call: bool) -> (res: UiuaResult<()>)
        requires
            orderly(t),
            well_formed(old(self)@),
            code_words(m@.operands).len() == 1,
        ensures
            each_dropped(t, old(self)@, m@, call, final(self)@, res),
            place_kept(old(self)@, final(self)@, res is Ok),
    {
        let ghost v = self@;
        let out = self.do_compile_operand_word(t, m.code_operand(0));
        let ghost u = self@;
        match out {
            Err(e) => Err(e),
            Ok((instrs, sig)) => {
                let message = self.make_each_message(t, &instrs);
                let ghost said = message;
                self.emit_diagnostic(message, DiagnosticKind::Advice, m.modifier.span.clone());
                let ghost noted = self@;
                self.finish(m.modifier.span.clone(), call, sig, instrs);
                proof {
                    assert(each_message(t, instrs@, u, said));
                    lemma_kept_on(v, u, noted, true);
                    lemma_kept_on(v, noted, self@, true);
                }
                Ok(())
            },
        }
    }

    /// Compiles a table.
    pub fn table<T: Toolchain>(&mut self, t: &T, m: &Modified, call: bool) -> (res: UiuaResult<()>)
        requires
            orderly(t),
            well_formed(old(self)@),
            code_words(m@.operands).len() == 1,
        ensures
            tabled(t, old(self)@, m@, call, final(self)@, res),
            place_kept(old(self)@, final(self)@, res is Ok),
    {
        let ghost v = self@;
        let operand = m.code_operand(0);
        let out = self.do_compile_operand_word(t, operand);
        let ghost u = self@;
        match out {
            Err(e) => Err(e),
            Ok((instrs, sig)) => {
                if sig.args == 0 {
                    let table = t.prim_text(Primitive::Table);
                    assert(did_prim_text(t, Primitive::Table, table));
                    self.emit_diagnostic(
                        Message::TableNoArguments { table },
                        DiagnosticKind::Advice,
                        operand.span.clone(),
                    );
                } else if sig.args == 1 {
                    let table = t.prim_text(Primitive::Table);
                    let rows = t.prim_text(Primitive::Rows);
                    assert(did_prim_text(t, Primitive::Table, table));
                    assert(did_prim_text(t, Primitive::Rows, rows));
                    self.emit_diagnostic(
                        Message::TableOneArgument { table, rows },
                        DiagnosticKind::Advice,
                        operand.span.clone(),
                    );
                }
                let ghost noted = self@;
                proof {
                    assert(table_noted(t, u, sig, operand.span, noted));
                    if sig.args <= 1 {
                        lemma_kept_on(v, u, noted, true);
                    }
                }
                let span: usize = self.assembly.spans.len();
                self.hand_function(
                    operand.span.clone(),
                    instrs,
                    sig,
                    Instr::Prim(Primitive::Table, span),
                    m.modifier.span.clone(),
                    call,
                    sig,
                );
                proof {
                    lemma_kept_on(v, noted, self@, true);
                }
                Ok(())
            },
        }
    }

    /// Compiles a content.
    pub fn content<T: Toolchain>(&mut self, t: &T, m: &Modified, call: bool) -> (res: UiuaResult<
        (),
    >)
        requires
            orderly(t),
            well_formed(old(self)@),
            code_words(m@.operands).len() == 1,
        ensures
            contents_taken(t, old(self)@, m@, call, final(self)@, res),
            place_kept(old(self)@, final(self)@, res is Ok),
    {
        let ghost v = self@;
        let out = self.do_compile_operand_word(t, m.code_operand(0));
        let ghost u = self@;
        match out {
            Err(e) => Err(e),
            Ok((instrs, sig)) => {
                let ghost code = instrs@;
                let span: usize = self.add_span(m.modifier.span.clone());
                let ghost spanned = self@;
                proof {
                    lemma_grounded_one(code, sig, 0, span, spanned.assembly.instrs.len());
                }
                let instrs = make_content(instrs, sig, span);
                self.finish(m.modifier.span.clone(), call, sig, instrs);
                proof {
                    lemma_kept_on(v, u, spanned, true);
                    lemma_kept_on(v, spanned, self@, true);
                }
                Ok(())
            },
        }
    }
}

} // verus!
