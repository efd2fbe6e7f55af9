//! The modifiers that look at the code of their operand: stringify, quote and sig.
use crate::compiler::{
    finished, well_formed, with_frame, without_frame, Compiler, CompilerV,
};
use crate::comptime::comptime_done;
use crate::instr::Instr;
use crate::keeping::{
    lemma_frame_well_formed, lemma_kept_anyway, lemma_kept_framed, lemma_kept_framed_failure,
    lemma_kept_on, place_kept,
};
use crate::message::{Message, UiuaError, UiuaResult};
use crate::prim::{Primitive, Signature};
use crate::quote::quoted;
use crate::span::CodeSpan;
use crate::text::text_of;
use crate::toolchain::{did_compile_operand_word, did_format_word, orderly, Toolchain};
use crate::value::{is_count, is_text, kind_name_of, rank_of, Value};
use crate::word::{code_words, Modified, ModifiedV};
use vstd::prelude::*;
use vstd::string::*;

verus! {

/// What was done with a stringify: its operand as text is pushed.
pub open spec fn stringified<T: Toolchain>(
    t: &T,
    v: CompilerV,
    m: ModifiedV,
    call: bool,
    w: CompilerV,
    res: UiuaResult<()>,
) -> bool {
    &&& res is Ok
    &&& exists|text: String, value: Value| #[trigger]
        did_format_word(t, code_words(m.operands)[0], v.assembly.inputs, text)
            && #[trigger] is_text(value, text@) && w == finished(
            v,
            m.modifier.span,
            call,
            Signature { args: 0, outputs: 1 },
            seq![Instr::Push(value)],
        )
}

/// What was done with a sig: the number of outputs of its operand is pushed, then that of its
/// arguments.
pub open spec fn signed<T: Toolchain>(
    t: &T,
    v: CompilerV,
    m: ModifiedV,
    call: bool,
    w: CompilerV,
    res: UiuaResult<()>,
) -> bool {
    exists|u: CompilerV, out: UiuaResult<(Vec<Instr>, Signature)>| #[trigger]
        did_compile_operand_word(t, v, code_words(m.operands)[0], u, out) && match out {
            Err(e) => w == u && res == Err::<(), UiuaError>(e),
            Ok((_, sig)) => res is Ok && exists|outputs: Value, args: Value| #[trigger]
                is_count(outputs, sig.outputs) && #[trigger] is_count(args, sig.args) && w
                    == finished(
                    u,
                    m.modifier.span,
                    call,
                    Signature { args: 0, outputs: 2 },
                    seq![Instr::Push(outputs), Instr::Push(args)],
                ),
        }
}

/// The text that some code comes to: the text of the list of characters that it pushes, or why
/// there is none.
pub open spec fn is_pushed_text(
    code: Seq<Instr>,
    span: CodeSpan,
    res: UiuaResult<Vec<char>>,
) -> bool {
    if code.len() == 1 && code[0] is Push {
        let value = code[0]->Push_0;
        match value {
            Value::Char(array) => if rank_of(value) == 1 {
                res matches Ok(text) && text@ == array.data@
            } else {
                is_quote_failure(
                    res,
                    span,
                    |message: Message| message == Message::QuoteRank {
                        rank: rank_of(value) as usize,
                    },
                )
            },
            _ => is_quote_failure(
                res,
                span,
                |message: Message| message matches Message::QuoteKind { kind } && kind@
                    == kind_name_of(value),
            ),
        }
    } else {
        is_quote_failure(res, span, |message: Message| message == Message::QuoteNotString)
    }
}

pub open spec fn is_quote_failure(
    res: UiuaResult<Vec<char>>,
    span: CodeSpan,
    said: spec_fn(Message) -> bool,
) -> bool {
    res matches Err(UiuaError::Fatal { span: at, message }) && at == span && said(message)
}

/// What was done with a quote: its operand was run while compiling, and the text that came out was
/// compiled.
pub open spec fn quote_done<T: Toolchain>(
    t: &T,
    v: CompilerV,
    m: ModifiedV,
    call: bool,
    w: CompilerV,
    res: UiuaResult<()>,
) -> bool {
    let span = m.modifier.span;
    exists|u: CompilerV, ran: UiuaResult<()>| #[trigger]
        comptime_done(
            t,
            with_frame(v),
            Primitive::Quote,
            code_words(m.operands)[0],
            span,
            true,
            u,
            ran,
        ) && match ran {
            Err(e) => w == u && res == Err::<(), UiuaError>(e),
            Ok(_) => exists|text: UiuaResult<Vec<char>>| #[trigger]
                is_pushed_text(u.frames.last(), span, text) && match text {
                    Err(e) => w == without_frame(u) && res == Err::<(), UiuaError>(e),
                    Ok(text) => quoted(t, without_frame(u), text@, span, call, w, res),
                },
        }
}

/// The text that some code comes to.
fn pushed_text(instrs: &Vec<Instr>, span: &CodeSpan) -> (res: UiuaResult<Vec<char>>)
    ensures
        is_pushed_text(instrs@, *span, res),
{
    if instrs.len() == 1 {
        if let Instr::Push(value) = &instrs[0] {
            if let Value::Char(array) = value {
                let rank: usize = value.rank();
                if rank == 1 {
                    let mut text: Vec<char> = Vec::new();
                    for i in 0..array.data.len()
                        invariant
                            text@ == array.data@.take(i as int),
                    {
                        text.push(array.data[i]);
                        assert(text@ =~= array.data@.take(i + 1));
                    }
                    assert(array.data@.take(array.data@.len() as int) =~= array.data@);
                    return Ok(text);
                }
                return Err(
                    UiuaError::Fatal { span: span.clone(), message: Message::QuoteRank { rank } },
                );
            }
            let kind = value.kind_name().to_owned();
            return Err(
                UiuaError::Fatal { span: span.clone(), message: Message::QuoteKind { kind } },
            );
        }
    }
    Err(UiuaError::Fatal { span: span.clone(), message: Message::QuoteNotString })
}

impl Compiler {
    /// Compiles a stringify.
    pub fn stringify<T: Toolchain>(&mut self, t: &T, m: &Modified, call: bool) -> (res: UiuaResult<
        (),
    >)
        requires
            code_words(m@.operands).len() == 1,
        ensures
            stringified(t, old(self)@, m@, call, final(self)@, res),
            place_kept(old(self)@, final(self)@, res is Ok),
    {
        let ghost v = self@;
        let text = t.format_word(m.code_operand(0), &self.assembly.inputs);
        assert(did_format_word(t, code_words(m@.operands)[0], v.assembly.inputs, text));
        let value = Value::text(text.as_str());
        let instrs = vec![Instr::Push(value)];
        assert(instrs@ =~= seq![Instr::Push(value)]);
        self.finish(m.modifier.span.clone(), call, Signature::new(0, 1), instrs);
        assert(is_text(value, text@));
        Ok(())
    }

    /// Compiles a sig.
    pub fn sig<T: Toolchain>(&mut self, t: &T, m: &Modified, call: bool) -> (res: UiuaResult<()>)
        requires
            orderly(t),
            code_words(m@.operands).len() == 1,
        ensures
            signed(t, old(self)@, m@, call, final(self)@, res),
            place_kept(old(self)@, final(self)@, res is Ok),
    {
        let ghost v = self@;
        let out = self.do_compile_operand_word(t, m.code_operand(0));
        let ghost u = self@;
        match out {
            Err(e) => Err(e),
            Ok((_, sig)) => {
                let outputs = Value::count(sig.outputs);
                let args = Value::count(sig.args);
                let instrs = vec![Instr::Push(outputs), Instr::Push(args)];
                assert(instrs@ =~= seq![Instr::Push(outputs), Instr::Push(args)]);
                self.finish(m.modifier.span.clone(), call, Signature::new(0, 2), instrs);
                proof {
                    assert(is_count(outputs, sig.outputs));
                    assert(is_count(args, sig.args));
                    lemma_kept_on(v, u, self@, true);
                }
                Ok(())
            },
        }
    }

    /// Compiles a quote.
    pub fn quote_operand<T: Toolchain>(&mut self, t: &T, m: &Modified, call: bool) -> (res:
        UiuaResult<()>)
        requires
            orderly(t),
            well_formed(old(self)@),
            code_words(m@.operands).len() == 1,
        ensures
            quote_done(t, old(self)@, m@, call, final(self)@, res),
            place_kept(old(self)@, final(self)@, res is Ok),
    {
        let ghost v = self@;
        proof {
            lemma_frame_well_formed(v);
        }
        self.open_function();
        let ran = self.do_comptime(
            t,
            Primitive::Quote,
            m.code_operand(0),
            &m.modifier.span,
            true,
        );
        let ghost u = self@;
        if let Err(e) = ran {
            proof {
                lemma_kept_framed_failure(v, u, false);
            }
            return Err(e);
        }
        proof {
            lemma_kept_framed(v, u);
        }
        let instrs = self.close_function();
        let ghost closed = self@;
        let text = pushed_text(&instrs, &m.modifier.span);
        assert(is_pushed_text(u.frames.last(), m.modifier.span, text));
        match text {
            Err(e) => {
                proof {
                    lemma_kept_anyway(v, closed, true);
                }
                Err(e)
            },
            Ok(chars) => {
                let code = text_of(&chars);
                let res = self.quote(t, code.as_str(), &m.modifier.span, call);
                proof {
                    lemma_kept_on(v, closed, self@, res is Ok);
                }
                res
            },
        }
    }
}

} // verus!
