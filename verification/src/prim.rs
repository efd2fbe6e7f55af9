//! The primitives that modifiers are made of.
use vstd::prelude::*;

verus! {

/// A built-in function or modifier of the language.
#[derive(Debug, Clone, Copy, PartialEq, Eq, Structural)]
pub enum Primitive {
    Dip,
    Gap,
    On,
    By,
    Fork,
    Cascade,
    Bracket,
    Un,
    Under,
    Both,
    Fill,
    Try,
    Bind,
    Comptime,
    Reduce,
    Each,
    Rows,
    Table,
    Content,
    Stringify,
    Quote,
    Sig,
    Identity,
    Dup,
    Pop,
    Trace,
    /// Any other primitive, by its number, with the functions it takes if it is a modifier.
    Other { id: usize, args: usize },
}

/// A built-in operation that only the compiler produces.
#[derive(Debug, Clone, Copy, PartialEq, Eq, Structural)]
pub enum ImplPrimitive {
    UnBox,
    BothTrace,
    TryPattern,
    ReduceContent,
    MatchPattern,
    UnJoinPattern,
    /// Any other operation, by its number.
    Other(usize),
}

/// How many functions a primitive takes as a modifier.
pub open spec fn modifier_args(prim: Primitive) -> usize {
    match prim {
        Primitive::Fork | Primitive::Cascade | Primitive::Bracket | Primitive::Under
        | Primitive::Fill | Primitive::Try => 2,
        Primitive::Identity | Primitive::Dup | Primitive::Pop | Primitive::Trace => 0,
        Primitive::Other { id: _, args } => args,
        _ => 1,
    }
}

impl Primitive {
    /// How many functions the primitive takes as a modifier; none if it is a plain function.
    pub fn modifier_args(self) -> (res: usize)
        ensures
            res == modifier_args(self),
    {
        match self {
            Primitive::Fork | Primitive::Cascade | Primitive::Bracket | Primitive::Under
            | Primitive::Fill | Primitive::Try => 2,
            Primitive::Identity | Primitive::Dup | Primitive::Pop | Primitive::Trace => 0,
            Primitive::Other { id: _, args } => args,
            _ => 1,
        }
    }
}

/// How many values a function takes from the stack and how many it leaves there.
#[derive(Debug, Clone, Copy, PartialEq, Eq, Structural)]
pub struct Signature {
    pub args: usize,
    pub outputs: usize,
}

impl Signature {
    pub fn new(args: usize, outputs: usize) -> (res: Signature)
        ensures
            res == (Signature { args, outputs }),
    {
        Signature { args, outputs }
    }
}

} // verus!
