//! Instructions and the functions they call.
use crate::prim::{ImplPrimitive, Primitive, Signature};
use crate::value::Value;
use crate::word::FunctionId;
use std::rc::Rc;
use vstd::prelude::*;

verus! {

/// One of the stacks for values that are put aside.
#[derive(Debug, Clone, Copy, PartialEq, Eq, Structural)]
pub enum TempStack {
    Inline,
    Under,
}

/// A run of instructions in the assembly.
#[derive(Debug, Clone, Copy, PartialEq, Eq, Structural)]
pub struct FuncSlice {
    pub start: usize,
    pub len: usize,
}

/// A compiled function.
#[derive(Debug, PartialEq, Eq)]
pub struct Function {
    pub id: FunctionId,
    pub sig: Signature,
    pub slice: FuncSlice,
}

/// An instruction. The numbers called `span` are places in the assembly's list of spans.
#[derive(Debug, PartialEq, Eq)]
pub enum Instr {
    Push(Value),
    Prim(Primitive, usize),
    ImplPrim(ImplPrimitive, usize),
    PushFunc(Function),
    Call(usize),
    /// Moves values from the main stack to a stack for values put aside.
    PushTemp { stack: TempStack, count: usize, span: usize },
    /// Moves values back to the main stack.
    PopTemp { stack: TempStack, count: usize, span: usize },
    /// Copies values from the main stack to a stack for values put aside.
    CopyToTemp { stack: TempStack, count: usize, span: usize },
    /// Moves values from the main stack to a new set of local variables.
    PushLocals { count: usize, span: usize },
    /// Discards the latest set of local variables.
    PopLocals,
    /// States the signature of the code up to the matching `PopSig`.
    PushSig(Signature),
    PopSig,
    /// Matches a text against a pattern.
    MatchFormatPattern { parts: Rc<Vec<String>>, span: usize },
    /// Any other instruction, by its number.
    Other(usize),
}

impl Clone for Function {
    fn clone(&self) -> (res: Self)
        ensures
            res == *self,
    {
        Function { id: self.id.clone(), sig: self.sig, slice: self.slice }
    }
}

impl Clone for Instr {
    fn clone(&self) -> (res: Self)
        ensures
            res == *self,
    {
        match self {
            Instr::Push(value) => Instr::Push(value.clone()),
            Instr::Prim(prim, span) => Instr::Prim(*prim, *span),
            Instr::ImplPrim(prim, span) => Instr::ImplPrim(*prim, *span),
            Instr::PushFunc(f) => Instr::PushFunc(f.clone()),
            Instr::Call(span) => Instr::Call(*span),
            Instr::PushTemp { stack, count, span } => Instr::PushTemp {
                stack: *stack,
                count: *count,
                span: *span,
            },
            Instr::PopTemp { stack, count, span } => Instr::PopTemp {
                stack: *stack,
                count: *count,
                span: *span,
            },
            Instr::CopyToTemp { stack, count, span } => Instr::CopyToTemp {
                stack: *stack,
                count: *count,
                span: *span,
            },
            Instr::PushLocals { count, span } => Instr::PushLocals { count: *count, span: *span },
            Instr::PopLocals => Instr::PopLocals,
            Instr::PushSig(sig) => Instr::PushSig(*sig),
            Instr::PopSig => Instr::PopSig,
            Instr::MatchFormatPattern { parts, span } => Instr::MatchFormatPattern {
                parts: parts.clone(),
                span: *span,
            },
            Instr::Other(id) => Instr::Other(*id),
        }
    }
}

/// The instruction after the last one of a run.
pub open spec fn slice_end(slice: FuncSlice) -> nat {
    (slice.start + slice.len) as nat
}

/// The code of a function that is in the assembly.
pub open spec fn body_of(f: Function, assembly: Seq<Instr>) -> Seq<Instr> {
    assembly.subrange(f.slice.start as int, slice_end(f.slice) as int)
}

/// Every function that the code pushes lies before the given place in the assembly.
pub open spec fn grounded(code: Seq<Instr>, limit: nat) -> bool {
    forall|i: int|
        #![trigger code[i]]
        0 <= i < code.len() && code[i] is PushFunc ==> slice_end(code[i]->PushFunc_0.slice)
            <= limit
}

/// Every function that is pushed in the assembly lies before the instruction that pushes it.
pub open spec fn backward(assembly: Seq<Instr>) -> bool {
    forall|i: int|
        #![trigger assembly[i]]
        0 <= i < assembly.len() && assembly[i] is PushFunc ==> slice_end(
            assembly[i]->PushFunc_0.slice,
        ) <= i
}

} // verus!
