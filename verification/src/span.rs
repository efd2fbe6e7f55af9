//! Places in source text.
use vstd::prelude::*;

verus! {

/// A position in a source text.
#[derive(Debug, Clone, Copy, PartialEq, Eq, Structural)]
pub struct Loc {
    pub char_pos: u32,
    pub byte_pos: u32,
    pub line: u16,
    pub col: u16,
}

/// Where a piece of code comes from.
#[derive(Debug, PartialEq, Eq)]
pub enum InputSrc {
    /// One of the inputs, by its number.
    Input(usize),
    /// The expansion of the macro that was used at the given place.
    Macro(Box<CodeSpan>),
}

/// A stretch of code.
#[derive(Debug, PartialEq, Eq)]
pub struct CodeSpan {
    pub src: InputSrc,
    pub start: Loc,
    pub end: Loc,
}

/// What an instruction is attributed to.
#[derive(Debug, PartialEq, Eq)]
pub enum Span {
    Code(CodeSpan),
    Builtin,
}

/// A value together with the code that it was read from.
#[derive(Debug, PartialEq, Eq)]
pub struct Sp<T> {
    pub value: T,
    pub span: CodeSpan,
}

impl Clone for CodeSpan {
    fn clone(&self) -> (res: Self)
        ensures
            res == *self,
        decreases self,
    {
        let src = match &self.src {
            InputSrc::Input(i) => InputSrc::Input(*i),
            InputSrc::Macro(span) => InputSrc::Macro(Box::new((**span).clone())),
        };
        CodeSpan { src, start: self.start, end: self.end }
    }
}

impl Clone for InputSrc {
    fn clone(&self) -> (res: Self)
        ensures
            res == *self,
    {
        match self {
            InputSrc::Input(i) => InputSrc::Input(*i),
            InputSrc::Macro(span) => InputSrc::Macro(Box::new((**span).clone())),
        }
    }
}

impl Clone for Span {
    fn clone(&self) -> (res: Self)
        ensures
            res == *self,
    {
        match self {
            Span::Code(span) => Span::Code(span.clone()),
            Span::Builtin => Span::Builtin,
        }
    }
}

impl<T: Clone> Clone for Sp<T> {
    fn clone(&self) -> (res: Self)
        ensures
            res.span == self.span,
            cloned(self.value, res.value),
    {
        Sp { value: self.value.clone(), span: self.span.clone() }
    }
}

/// The span from the first to the last character of two spans.
pub open spec fn merged(a: CodeSpan, b: CodeSpan) -> CodeSpan {
    CodeSpan {
        src: a.src,
        start: if b.start.char_pos < a.start.char_pos {
            b.start
        } else {
            a.start
        },
        end: if b.end.char_pos > a.end.char_pos {
            b.end
        } else {
            a.end
        },
    }
}

impl CodeSpan {
    /// Whether two spans are the same.
    pub fn same(&self, other: &CodeSpan) -> (res: bool)
        ensures
            res == (*self == *other),
        decreases self,
    {
        if self.start != other.start || self.end != other.end {
            return false;
        }
        match (&self.src, &other.src) {
            (InputSrc::Input(a), InputSrc::Input(b)) => *a == *b,
            (InputSrc::Macro(a), InputSrc::Macro(b)) => (**a).same(&**b),
            _ => false,
        }
    }

    /// The span that reaches over both spans, in the source of the first.
    pub fn merge(self, other: CodeSpan) -> (res: CodeSpan)
        ensures
            res == merged(self, other),
    {
        let start = if other.start.char_pos < self.start.char_pos {
            other.start
        } else {
            self.start
        };
        let end = if other.end.char_pos > self.end.char_pos {
            other.end
        } else {
            self.end
        };
        CodeSpan { src: self.src, start, end }
    }

    /// Puts a value at this span.
    pub fn sp<T>(self, value: T) -> (res: Sp<T>)
        ensures
            res == (Sp { value, span: self }),
    {
        Sp { value, span: self }
    }
}

/// The span that reaches over two spans is in the source of the first. It starts where the one
/// that starts first does, and ends where the one that ends last does.
pub proof fn law_merged_reaches_over_both(a: CodeSpan, b: CodeSpan)
    ensures
        merged(a, b).src == a.src,
        merged(a, b).start == a.start || merged(a, b).start == b.start,
        merged(a, b).end == a.end || merged(a, b).end == b.end,
        merged(a, b).start.char_pos <= a.start.char_pos,
        merged(a, b).start.char_pos <= b.start.char_pos,
        merged(a, b).end.char_pos >= a.end.char_pos,
        merged(a, b).end.char_pos >= b.end.char_pos,
        a.start.char_pos == b.start.char_pos ==> merged(a, b).start == a.start,
        a.end.char_pos == b.end.char_pos ==> merged(a, b).end == a.end,
{
}

} // verus!
