//! The items of a program.
use crate::prim::Signature;
use crate::span::{CodeSpan, Sp};
use crate::word::Word;
use vstd::prelude::*;

verus! {

/// The binding of a name.
#[derive(Debug, PartialEq, Eq)]
pub struct Binding {
    pub name: Sp<String>,
    pub public: bool,
    pub signature: Option<Sp<Signature>>,
    pub words: Vec<Sp<Word>>,
}

/// The import of a file.
#[derive(Debug, PartialEq, Eq)]
pub struct Import {
    pub name: Option<Sp<String>>,
    pub path: Sp<String>,
    pub items: Vec<Sp<String>>,
}

/// An item of a program.
#[derive(Debug, PartialEq, Eq)]
pub enum Item {
    /// Lines of words.
    Words(Vec<Vec<Sp<Word>>>),
    Binding(Binding),
    Import(Import),
    /// Items that are only compiled for testing.
    TestScope(CodeSpan),
}

} // verus!
