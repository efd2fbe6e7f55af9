//! What the compiler has to say about a program.
use crate::assembly::Inputs;
use crate::span::{CodeSpan, Sp};
use crate::text::{decimal, decimal_text};
use std::rc::Rc;
use vstd::prelude::*;
use vstd::string::*;

verus! {

/// A message. Names of primitives and modifiers are held as they are shown.
#[derive(Debug, PartialEq, Eq)]
pub enum Message {
    /// A function pack holds the wrong number of functions.
    PackSize { modifier: String, required: usize, given: usize },
    /// A modifier does not take function packs.
    PackUnsupported { modifier: String },
    /// A modifier has the wrong number of operands.
    OperandCount { modifier: String, required: usize, given: usize },
    /// Macros are nested too deep.
    MacroTooDeep,
    /// There is no macro where a name says that there is one.
    MacroNotFound { name: String },
    /// A dip over a duplicate can be written with on.
    PreferOnOverDip,
    /// A fork with identity can be written with on.
    PreferOnOverFork,
    /// A cascade passes nothing on.
    CascadeRedundant { prim: String },
    /// A function has no inverse.
    NoInverse,
    /// A bind names few values.
    BindFew { prim: String, count: usize },
    /// An each of a primitive that already goes into each element.
    EachOfPervasive { prim: String, each: String },
    /// An each of a function that already goes into each element.
    EachPervasive { each: String },
    /// A table of a function without arguments.
    TableNoArguments { table: String },
    /// A table of a function with one argument.
    TableOneArgument { table: String, rows: String },
    /// A quote of an array of characters that is no list.
    QuoteRank { rank: usize },
    /// A quote of an array that does not hold characters.
    QuoteKind { kind: String },
    /// A quote of something that is not one value.
    QuoteNotString,
    /// A placeholder has no operand left.
    OperandStackEmpty,
    /// A macro did not use all its operands.
    OperandsLeft { count: usize },
    /// A macro made a test scope.
    TestScope,
    /// A function that is run while compiling takes arguments.
    ComptimeArguments { prim: String, args: usize },
    /// Running code while compiling failed.
    ComptimeFailed { error: String },
    /// Any other message, as a text.
    Other { text: String },
}

/// The ending of a noun after a number.
pub open spec fn plural_s(n: usize) -> Seq<char> {
    if n == 1 {
        ""@
    } else {
        "s"@
    }
}

/// The verb after a number of things.
pub open spec fn was_or_were(n: usize) -> Seq<char> {
    if n == 1 {
        "was"@
    } else {
        "were"@
    }
}

fn plural_text(n: usize) -> (res: &'static str)
    ensures
        res@ == plural_s(n),
{
    if n == 1 {
        ""
    } else {
        "s"
    }
}

fn was_text(n: usize) -> (res: &'static str)
    ensures
        res@ == was_or_were(n),
{
    if n == 1 {
        "was"
    } else {
        "were"
    }
}

/// The text of a message.
pub open spec fn message_text(message: Message) -> Seq<char> {
    match message {
        Message::PackSize { modifier, required, given } => modifier@ + " requires "@
            + decimal(required as nat) + " function arguments, but the function pack has "@
            + decimal(given as nat) + " functions"@,
        Message::PackUnsupported { modifier } => modifier@
            + " cannot use a function pack. If you meant to use a switch function, add a layer of parentheses."@,
        Message::OperandCount { modifier, required, given } => modifier@ + " requires "@
            + decimal(required as nat) + " function argument"@ + plural_s(required) + ", but "@
            + decimal(given as nat) + " "@ + was_or_were(given) + " provided"@,
        Message::MacroTooDeep => "Macro recurs too deep"@,
        Message::MacroNotFound { name } => "Macro "@ + name@
            + " not found. This is a bug in the interpreter."@,
        Message::PreferOnOverDip => "Prefer `⟜(…)` over `⊙(…).` for clarity"@,
        Message::PreferOnOverFork => "Prefer `⟜` over `⊃∘` for clarity"@,
        Message::CascadeRedundant { prim } => prim@
            + "'s second function has more outputs than its first function has arguments, so "@
            + prim@ + " is redundant here."@,
        Message::NoInverse => "No inverse found"@,
        Message::BindFew { prim, count } => prim@
            + " should be reserved for functions with at least 3 arguments, but this function has "@
            + decimal(count as nat) + " arguments"@,
        Message::EachOfPervasive { prim, each } => prim@ + " is pervasive, so "@ + each@
            + " is redundant here."@,
        Message::EachPervasive { each } => each@ + "'s function is pervasive, so "@ + each@
            + " is redundant here."@,
        Message::TableNoArguments { table } => table@ + " of 0 arguments is redundant"@,
        Message::TableOneArgument { table, rows } => table@ + " with 1 argument is just "@ + rows@
            + ". Use "@ + rows@ + " instead."@,
        Message::QuoteRank { rank } => "quote's argument compiled to a rank "@
            + decimal(rank as nat) + " array rather than a string"@,
        Message::QuoteKind { kind } => "quote's argument compiled to a "@ + kind@
            + " array rather than a string"@,
        Message::QuoteNotString => "quote's argument did not compile to a string"@,
        Message::OperandStackEmpty => "Operand stack is empty"@,
        Message::OperandsLeft { count } => "Macro operand stack has "@ + decimal(count as nat)
            + " item"@ + plural_s(count) + " left"@,
        Message::TestScope => "Macros may not generate test scopes"@,
        Message::ComptimeArguments { prim, args } => prim@
            + "'s function must have no arguments, but it has "@ + decimal(args as nat),
        Message::ComptimeFailed { error } => "Compile-time evaluation failed: "@ + error@,
        Message::Other { text } => text@,
    }
}

impl Clone for Message {
    fn clone(&self) -> (res: Self)
        ensures
            res == *self,
    {
        match self {
            Message::PackSize { modifier, required, given } => Message::PackSize {
                modifier: modifier.clone(),
                required: *required,
                given: *given,
            },
            Message::PackUnsupported { modifier } => Message::PackUnsupported {
                modifier: modifier.clone(),
            },
            Message::OperandCount { modifier, required, given } => Message::OperandCount {
                modifier: modifier.clone(),
                required: *required,
                given: *given,
            },
            Message::MacroTooDeep => Message::MacroTooDeep,
            Message::MacroNotFound { name } => Message::MacroNotFound { name: name.clone() },
            Message::PreferOnOverDip => Message::PreferOnOverDip,
            Message::PreferOnOverFork => Message::PreferOnOverFork,
            Message::CascadeRedundant { prim } => Message::CascadeRedundant { prim: prim.clone() },
            Message::NoInverse => Message::NoInverse,
            Message::BindFew { prim, count } => Message::BindFew {
                prim: prim.clone(),
                count: *count,
            },
            Message::EachOfPervasive { prim, each } => Message::EachOfPervasive {
                prim: prim.clone(),
                each: each.clone(),
            },
            Message::EachPervasive { each } => Message::EachPervasive { each: each.clone() },
            Message::TableNoArguments { table } => Message::TableNoArguments {
                table: table.clone(),
            },
            Message::TableOneArgument { table, rows } => Message::TableOneArgument {
                table: table.clone(),
                rows: rows.clone(),
            },
            Message::QuoteRank { rank } => Message::QuoteRank { rank: *rank },
            Message::QuoteKind { kind } => Message::QuoteKind { kind: kind.clone() },
            Message::QuoteNotString => Message::QuoteNotString,
            Message::OperandStackEmpty => Message::OperandStackEmpty,
            Message::OperandsLeft { count } => Message::OperandsLeft { count: *count },
            Message::TestScope => Message::TestScope,
            Message::ComptimeArguments { prim, args } => Message::ComptimeArguments {
                prim: prim.clone(),
                args: *args,
            },
            Message::ComptimeFailed { error } => Message::ComptimeFailed { error: error.clone() },
            Message::Other { text } => Message::Other { text: text.clone() },
        }
    }
}

impl Message {
    /// The text of the message.
    pub fn text(&self) -> (res: String)
        ensures
            res@ == message_text(*self),
    {
        let mut s: String = String::new();
        match self {
            Message::PackSize { modifier, required, given } => {
                s.append(modifier.as_str());
                s.append(" requires ");
                s.append(decimal_text(*required).as_str());
                s.append(" function arguments, but the function pack has ");
                s.append(decimal_text(*given).as_str());
                s.append(" functions");
            },
            Message::PackUnsupported { modifier } => {
                s.append(modifier.as_str());
                s.append(" cannot use a function pack. If you meant to use a switch function, add a layer of parentheses.");
            },
            Message::OperandCount { modifier, required, given } => {
                s.append(modifier.as_str());
                s.append(" requires ");
                s.append(decimal_text(*required).as_str());
                s.append(" function argument");
                s.append(plural_text(*required));
                s.append(", but ");
                s.append(decimal_text(*given).as_str());
                s.append(" ");
                s.append(was_text(*given));
                s.append(" provided");
            },
            Message::MacroTooDeep => {
                s.append("Macro recurs too deep");
            },
            Message::MacroNotFound { name } => {
                s.append("Macro ");
                s.append(name.as_str());
                s.append(" not found. This is a bug in the interpreter.");
            },
            Message::PreferOnOverDip => {
                s.append("Prefer `⟜(…)` over `⊙(…).` for clarity");
            },
            Message::PreferOnOverFork => {
                s.append("Prefer `⟜` over `⊃∘` for clarity");
            },
            Message::CascadeRedundant { prim } => {
                s.append(prim.as_str());
                s.append("'s second function has more outputs than its first function has arguments, so ");
                s.append(prim.as_str());
                s.append(" is redundant here.");
            },
            Message::NoInverse => {
                s.append("No inverse found");
            },
            Message::BindFew { prim, count } => {
                s.append(prim.as_str());
                s.append(" should be reserved for functions with at least 3 arguments, but this function has ");
                s.append(decimal_text(*count).as_str());
                s.append(" arguments");
            },
            Message::EachOfPervasive { prim, each } => {
                s.append(prim.as_str());
                s.append(" is pervasive, so ");
                s.append(each.as_str());
                s.append(" is redundant here.");
            },
            Message::EachPervasive { each } => {
                s.append(each.as_str());
                s.append("'s function is pervasive, so ");
                s.append(each.as_str());
                s.append(" is redundant here.");
            },
            Message::TableNoArguments { table } => {
                s.append(table.as_str());
                s.append(" of 0 arguments is redundant");
            },
            Message::TableOneArgument { table, rows } => {
                s.append(table.as_str());
                s.append(" with 1 argument is just ");
                s.append(rows.as_str());
                s.append(". Use ");
                s.append(rows.as_str());
                s.append(" instead.");
            },
            Message::QuoteRank { rank } => {
                s.append("quote's argument compiled to a rank ");
                s.append(decimal_text(*rank).as_str());
                s.append(" array rather than a string");
            },
            Message::QuoteKind { kind } => {
                s.append("quote's argument compiled to a ");
                s.append(kind.as_str());
                s.append(" array rather than a string");
            },
            Message::QuoteNotString => {
                s.append("quote's argument did not compile to a string");
            },
            Message::OperandStackEmpty => {
                s.append("Operand stack is empty");
            },
            Message::OperandsLeft { count } => {
                s.append("Macro operand stack has ");
                s.append(decimal_text(*count).as_str());
                s.append(" item");
                s.append(plural_text(*count));
                s.append(" left");
            },
            Message::TestScope => {
                s.append("Macros may not generate test scopes");
            },
            Message::ComptimeArguments { prim, args } => {
                s.append(prim.as_str());
                s.append("'s function must have no arguments, but it has ");
                s.append(decimal_text(*args).as_str());
            },
            Message::ComptimeFailed { error } => {
                s.append("Compile-time evaluation failed: ");
                s.append(error.as_str());
            },
            Message::Other { text } => {
                s.append(text.as_str());
            },
        }
        assert(s@ =~= message_text(*self));
        s
    }
}

/// How serious a diagnostic is.
#[derive(Debug, Clone, Copy, PartialEq, Eq, Structural)]
pub enum DiagnosticKind {
    Warning,
    Advice,
    Style,
}

/// A remark on a program that does not stop its compilation.
#[derive(Debug, PartialEq, Eq)]
pub struct Diagnostic {
    pub message: Message,
    pub kind: DiagnosticKind,
    pub span: CodeSpan,
}

impl Clone for Diagnostic {
    fn clone(&self) -> (res: Self)
        ensures
            res == *self,
    {
        Diagnostic { message: self.message.clone(), kind: self.kind, span: self.span.clone() }
    }
}

/// A syntax error.
#[derive(Debug, PartialEq, Eq)]
pub struct ParseError {
    pub message: Sp<String>,
}

/// Why compilation stopped.
#[derive(Debug, PartialEq, Eq)]
pub enum UiuaError {
    /// The code at a place cannot be compiled.
    Fatal { span: CodeSpan, message: Message },
    /// The text of an input is not well-formed.
    Parse { errors: Rc<Vec<ParseError>>, inputs: Rc<Inputs> },
    /// Running a macro found no value on the stack where it needed one.
    StackEmpty { what: String },
    /// An error in the expansion of the macro that was used at a place.
    Traced { error: Box<UiuaError>, span: CodeSpan },
}

/// The result of a step of compilation.
pub type UiuaResult<T> = Result<T, UiuaError>;

impl Clone for UiuaError {
    fn clone(&self) -> (res: Self)
        ensures
            res == *self,
        decreases self,
    {
        match self {
            UiuaError::Fatal { span, message } => UiuaError::Fatal {
                span: span.clone(),
                message: message.clone(),
            },
            UiuaError::Parse { errors, inputs } => UiuaError::Parse {
                errors: errors.clone(),
                inputs: inputs.clone(),
            },
            UiuaError::StackEmpty { what } => UiuaError::StackEmpty { what: what.clone() },
            UiuaError::Traced { error, span } => UiuaError::Traced {
                error: Box::new((**error).clone()),
                span: span.clone(),
            },
        }
    }
}

/// An error, attributed to the use of a macro.
pub open spec fn traced(error: UiuaError, span: CodeSpan) -> UiuaError {
    UiuaError::Traced { error: Box::new(error), span }
}

impl UiuaError {
    /// The error, attributed to the use of a macro.
    pub fn trace_macro(self, span: CodeSpan) -> (res: UiuaError)
        ensures
            res == traced(self, span),
    {
        UiuaError::Traced { error: Box::new(self), span }
    }
}

/// A text is part of another one, from a position on.
pub open spec fn stands_at(text: Seq<char>, i: int, part: Seq<char>) -> bool {
    0 <= i && i + part.len() <= text.len() && text.subrange(i, i + part.len()) == part
}

/// A message about a modifier, primitive or function starts with its name.
pub proof fn law_message_starts_with_its_subject(message: Message)
    ensures
        ({
            let text = message_text(message);
            match message {
                Message::PackSize { modifier, .. } => stands_at(text, 0, modifier@),
                Message::PackUnsupported { modifier } => stands_at(text, 0, modifier@),
                Message::OperandCount { modifier, .. } => stands_at(text, 0, modifier@),
                Message::CascadeRedundant { prim } => stands_at(text, 0, prim@),
                Message::BindFew { prim, .. } => stands_at(text, 0, prim@),
                Message::EachOfPervasive { prim, .. } => stands_at(text, 0, prim@),
                Message::EachPervasive { each } => stands_at(text, 0, each@),
                Message::TableNoArguments { table } => stands_at(text, 0, table@),
                Message::TableOneArgument { table, .. } => stands_at(text, 0, table@),
                Message::ComptimeArguments { prim, .. } => stands_at(text, 0, prim@),
                Message::Other { text: said } => text == said@,
                _ => true,
            }
        }),
{
    let text = message_text(message);
    match message {
        Message::PackSize { modifier, .. } => lemma_stands(text, 0, modifier@),
        Message::PackUnsupported { modifier } => lemma_stands(text, 0, modifier@),
        Message::OperandCount { modifier, .. } => lemma_stands(text, 0, modifier@),
        Message::CascadeRedundant { prim } => lemma_stands(text, 0, prim@),
        Message::BindFew { prim, .. } => lemma_stands(text, 0, prim@),
        Message::EachOfPervasive { prim, .. } => lemma_stands(text, 0, prim@),
        Message::EachPervasive { each } => lemma_stands(text, 0, each@),
        Message::TableNoArguments { table } => lemma_stands(text, 0, table@),
        Message::TableOneArgument { table, .. } => lemma_stands(text, 0, table@),
        Message::ComptimeArguments { prim, .. } => lemma_stands(text, 0, prim@),
        _ => {},
    }
}

proof fn lemma_stands(text: Seq<char>, i: int, part: Seq<char>)
    requires
        0 <= i,
        i + part.len() <= text.len(),
        forall|j: int| 0 <= j < part.len() ==> text[i + j] == #[trigger] part[j],
    ensures
        stands_at(text, i, part),
{
    assert(text.subrange(i, i + part.len()) =~= part);
}

/// A message that tells numbers holds them in decimal notation: how many there should be comes
/// before how many there are.
pub proof fn law_message_tells_numbers(message: Message) -> (at: (int, int))
    ensures
        ({
            let text = message_text(message);
            match message {
                Message::PackSize { modifier, required, given } => stands_at(
                    text,
                    at.0,
                    decimal(required as nat),
                ) && stands_at(text, at.1, decimal(given as nat)) && modifier@.len() <= at.0 && at.0
                    + decimal(required as nat).len() <= at.1,
                Message::OperandCount { modifier, required, given } => stands_at(
                    text,
                    at.0,
                    decimal(required as nat),
                ) && stands_at(text, at.1, decimal(given as nat)) && modifier@.len() <= at.0 && at.0
                    + decimal(required as nat).len() <= at.1,
                Message::BindFew { prim, count } => stands_at(text, at.0, decimal(count as nat))
                    && prim@.len() <= at.0,
                Message::QuoteRank { rank } => stands_at(text, at.0, decimal(rank as nat)),
                Message::OperandsLeft { count } => stands_at(text, at.0, decimal(count as nat)),
                Message::ComptimeArguments { prim, args } => stands_at(
                    text,
                    at.0,
                    decimal(args as nat),
                ) && prim@.len() <= at.0,
                _ => true,
            }
        }),
{
    let text = message_text(message);
    match message {
        Message::PackSize { modifier, required, given } => {
            let before = modifier@ + " requires "@;
            let first = decimal(required as nat);
            let between = before + first + " function arguments, but the function pack has "@;
            let second = decimal(given as nat);
            lemma_stands(text, before.len() as int, first);
            lemma_stands(text, between.len() as int, second);
            (before.len() as int, between.len() as int)
        },
        Message::OperandCount { modifier, required, given } => {
            let before = modifier@ + " requires "@;
            let first = decimal(required as nat);
            let between = before + first + " function argument"@ + plural_s(required) + ", but "@;
            let second = decimal(given as nat);
            lemma_stands(text, before.len() as int, first);
            lemma_stands(text, between.len() as int, second);
            (before.len() as int, between.len() as int)
        },
        Message::BindFew { prim, count } => {
            let before = prim@
                + " should be reserved for functions with at least 3 arguments, but this function has "@;
            let number = decimal(count as nat);
            lemma_stands(text, before.len() as int, number);
            (before.len() as int, 0)
        },
        Message::QuoteRank { rank } => {
            let before = "quote's argument compiled to a rank "@;
            let number = decimal(rank as nat);
            lemma_stands(text, before.len() as int, number);
            (before.len() as int, 0)
        },
        Message::OperandsLeft { count } => {
            let before = "Macro operand stack has "@;
            let number = decimal(count as nat);
            lemma_stands(text, before.len() as int, number);
            (before.len() as int, 0)
        },
        Message::ComptimeArguments { prim, args } => {
            let before = prim@ + "'s function must have no arguments, but it has "@;
            let number = decimal(args as nat);
            lemma_stands(text, before.len() as int, number);
            (before.len() as int, 0)
        },
        _ => (0, 0),
    }
}

/// A message has the singular after one and the plural after any other number: it is longer by the
/// ending.
pub proof fn law_plural_but_for_one(n: usize)
    ensures
        n == 1 <==> plural_s(n).len() == 0,
        n != 1 ==> plural_s(n) == seq!['s'],
        n == 1 <==> was_or_were(n) == seq!['w', 'a', 's'],
        n != 1 ==> was_or_were(n) == seq!['w', 'e', 'r', 'e'],
{
    reveal_strlit("");
    reveal_strlit("s");
    reveal_strlit("was");
    reveal_strlit("were");
    assert("s"@ =~= seq!['s']);
    assert("was"@ =~= seq!['w', 'a', 's']);
    assert("were"@ =~= seq!['w', 'e', 'r', 'e']);
}

} // verus!
