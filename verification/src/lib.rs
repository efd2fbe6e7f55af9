//! The compilation of modifiers of the Uiua language.
//!
//! A modifier is applied to functions. It is compiled to code for a stack machine, put together
//! from the code of the functions. This library does the putting together: it knows the form of
//! each modifier, expands macros, runs code while compiling, and keeps the state of the compiler.
//! What else a compiler does is asked of a [`toolchain::Toolchain`].
//!
//! The entry is [`compiler::Compiler`], whose method `modified` compiles a modifier with its
//! operands. What each method does is stated as a relation between the states of the compiler
//! before and after it, over what the toolchain was asked and what it answered.
//!
//! The modules whose names end in `_laws` prove what these relations come to: which operands a
//! modifier compiles and in which order, what its code does with the values on the stack, which
//! functions with which signatures it makes, and what is left as it was. What a modifier leaves
//! behind is read off the compiler in the terms of [`outcome`].
pub mod array_laws;
pub mod arrays;
pub mod assembly;
pub mod code_laws;
pub mod codegen;
pub mod compiler;
pub mod comptime;
pub mod eco;
pub mod effects;
pub mod env;
pub mod expand;
pub mod fill_laws;
pub mod guard_laws;
pub mod guarded;
pub mod inline;
pub mod instr;
pub mod inverse;
pub mod item;
pub mod keeping;
pub mod locals;
pub mod macro_laws;
pub mod macros;
pub mod meaning;
pub mod message;
pub mod meta;
pub mod modified;
pub mod modified_laws;
pub mod names;
pub mod outcome;
pub mod pack;
pub mod pack_laws;
pub mod pattern;
pub mod placeholder;
pub mod prim;
pub mod quote;
pub mod scope;
pub mod span;
pub mod stack_laws;
pub mod stacking;
pub mod table;
pub mod text;
pub mod toolchain;
pub mod toolchain_laws;
pub mod value;
pub mod word;
