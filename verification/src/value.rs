//! The values that code pushes on the stack.
use crate::eco::{bytes_clone, bytes_of};
use ecow::EcoVec;
use crate::text::text_chars;
use std::rc::Rc;
use vstd::prelude::*;

verus! {

/// A number.
#[derive(Debug, Clone, Copy, PartialEq, Eq, Structural)]
pub enum Number {
    /// A count.
    Whole(usize),
    /// Any other number, by its bits.
    Float(u64),
}

/// An array: the length along each axis, and the elements.
#[derive(Debug, PartialEq, Eq)]
pub struct Array<T> {
    pub shape: Rc<Vec<usize>>,
    pub data: Rc<Vec<T>>,
}

/// An array of bytes.
#[derive(Debug, PartialEq, Eq)]
pub struct Bytes {
    pub shape: Rc<Vec<usize>>,
    pub data: EcoVec<u8>,
}

/// A value in a box.
#[derive(Debug, PartialEq, Eq)]
pub struct Boxed(pub Value);

/// A value of the language.
#[derive(Debug, PartialEq, Eq)]
pub enum Value {
    Num(Array<Number>),
    Byte(Bytes),
    Complex(Array<(Number, Number)>),
    Char(Array<char>),
    Boxes(Array<Boxed>),
}

impl<T> Clone for Array<T> {
    fn clone(&self) -> (res: Self)
        ensures
            res == *self,
    {
        Array { shape: self.shape.clone(), data: self.data.clone() }
    }
}

impl Clone for Bytes {
    fn clone(&self) -> (res: Self)
        ensures
            res == *self,
    {
        Bytes { shape: self.shape.clone(), data: bytes_clone(&self.data) }
    }
}

impl Clone for Value {
    fn clone(&self) -> (res: Self)
        ensures
            res == *self,
    {
        match self {
            Value::Num(array) => Value::Num(array.clone()),
            Value::Byte(array) => Value::Byte(array.clone()),
            Value::Complex(array) => Value::Complex(array.clone()),
            Value::Char(array) => Value::Char(array.clone()),
            Value::Boxes(array) => Value::Boxes(array.clone()),
        }
    }
}

/// An array has the given axes and elements.
pub open spec fn array_is<T>(array: Array<T>, shape: Seq<usize>, data: Seq<T>) -> bool {
    array.shape@ == shape && array.data@ == data
}

/// A value is the list of the characters of a text.
pub open spec fn is_text(value: Value, text: Seq<char>) -> bool {
    value matches Value::Char(array) && array_is(array, seq![text.len() as usize], text)
}

/// A value is the given count, on its own.
pub open spec fn is_count(value: Value, n: usize) -> bool {
    value matches Value::Num(array) && array_is(
        array,
        Seq::<usize>::empty(),
        seq![Number::Whole(n)],
    )
}

/// A value is a table of bytes with the given rows of two.
pub open spec fn is_byte_pairs(value: Value, rows: nat, data: Seq<u8>) -> bool {
    value matches Value::Byte(array) && array.shape@ == seq![rows as usize, 2] && bytes_of(
        array.data,
    ) == data
}

/// A value is a list of boxed texts.
pub open spec fn is_boxed_texts(value: Value, texts: Seq<Seq<char>>) -> bool {
    &&& value matches Value::Boxes(array)
    &&& array.shape@ == seq![texts.len() as usize]
    &&& array.data@.len() == texts.len()
    &&& forall|i: int|
        0 <= i < texts.len() ==> is_text((#[trigger] array.data@[i]).0, texts[i])
}

/// A value is the empty list of numbers.
pub open spec fn is_default(value: Value) -> bool {
    value matches Value::Num(array) && array_is(array, seq![0usize], Seq::<Number>::empty())
}

/// How many axes a value has.
pub open spec fn rank_of(value: Value) -> nat {
    match value {
        Value::Num(array) => array.shape@.len(),
        Value::Byte(array) => array.shape@.len(),
        Value::Complex(array) => array.shape@.len(),
        Value::Char(array) => array.shape@.len(),
        Value::Boxes(array) => array.shape@.len(),
    }
}

/// The name of the kind of a value.
pub open spec fn kind_name_of(value: Value) -> Seq<char> {
    match value {
        Value::Num(_) | Value::Byte(_) => "number"@,
        Value::Complex(_) => "complex"@,
        Value::Char(_) => "character"@,
        Value::Boxes(_) => "box"@,
    }
}

impl Value {
    /// The list of the characters of a text.
    pub fn text(text: &str) -> (res: Value)
        ensures
            is_text(res, text@),
    {
        let data: Vec<char> = text_chars(text);
        let n: usize = data.len();
        let shape: Vec<usize> = vec![n];
        assert(shape@ =~= seq![n]);
        Value::Char(Array { shape: Rc::new(shape), data: Rc::new(data) })
    }

    /// A count, on its own.
    pub fn count(n: usize) -> (res: Value)
        ensures
            is_count(res, n),
    {
        let shape: Vec<usize> = Vec::new();
        let data: Vec<Number> = vec![Number::Whole(n)];
        assert(data@ =~= seq![Number::Whole(n)]);
        Value::Num(Array { shape: Rc::new(shape), data: Rc::new(data) })
    }

    /// A table of bytes with the given rows of two.
    pub fn byte_pairs(rows: usize, data: EcoVec<u8>) -> (res: Value)
        ensures
            is_byte_pairs(res, rows as nat, bytes_of(data)),
    {
        let shape: Vec<usize> = vec![rows, 2];
        assert(shape@ =~= seq![rows, 2]);
        Value::Byte(Bytes { shape: Rc::new(shape), data })
    }

    /// The list of some texts, each in a box.
    pub fn boxed_texts(texts: &Vec<String>) -> (res: Value)
        ensures
            is_boxed_texts(res, texts@.map_values(|s: String| s@)),
    {
        let mut data: Vec<Boxed> = Vec::new();
        for i in 0..texts.len()
            invariant
                data.len() == i,
                forall|j: int| 0 <= j < i ==> is_text((#[trigger] data@[j]).0, texts@[j]@),
        {
            data.push(Boxed(Value::text(texts[i].as_str())));
        }
        let shape: Vec<usize> = vec![texts.len()];
        assert(shape@ =~= seq![texts@.len() as usize]);
        Value::Boxes(Array { shape: Rc::new(shape), data: Rc::new(data) })
    }

    /// How many axes the value has.
    pub fn rank(&self) -> (res: usize)
        ensures
            res == rank_of(*self),
    {
        match self {
            Value::Num(array) => array.shape.len(),
            Value::Byte(array) => array.shape.len(),
            Value::Complex(array) => array.shape.len(),
            Value::Char(array) => array.shape.len(),
            Value::Boxes(array) => array.shape.len(),
        }
    }

    /// The name of the kind of the value.
    pub fn kind_name(&self) -> (res: &'static str)
        ensures
            res@ == kind_name_of(*self),
    {
        match self {
            Value::Num(_) | Value::Byte(_) => "number",
            Value::Complex(_) => "complex",
            Value::Char(_) => "character",
            Value::Boxes(_) => "box",
        }
    }
}

impl Default for Value {
    /// The empty list of numbers.
    fn default() -> (res: Self)
        ensures
            is_default(res),
    {
        let shape: Vec<usize> = vec![0];
        let data: Vec<Number> = Vec::new();
        assert(shape@ =~= seq![0usize]);
        Value::Num(Array { shape: Rc::new(shape), data: Rc::new(data) })
    }
}

} // verus!
