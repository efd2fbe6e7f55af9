//! The words of a program, as the parser hands them over.
//!
//! Every type that holds lists has a model of the same shape in which the lists are sequences;
//! its name ends in `V`.
use crate::prim::{modifier_args, Primitive, Signature};
use crate::span::{CodeSpan, Sp};
use vstd::prelude::*;

verus! {

/// What identifies a function.
#[derive(Debug, PartialEq, Eq)]
pub enum FunctionId {
    Named(String),
    Anonymous(CodeSpan),
}

impl Clone for FunctionId {
    fn clone(&self) -> (res: Self)
        ensures
            res == *self,
    {
        match self {
            FunctionId::Named(name) => FunctionId::Named(name.clone()),
            FunctionId::Anonymous(span) => FunctionId::Anonymous(span.clone()),
        }
    }
}

/// What a placeholder in a macro does with the operands of the macro.
#[derive(Debug, Clone, Copy, PartialEq, Eq, Structural)]
pub enum PlaceholderOp {
    /// Stands for the top operand.
    Call,
    /// Duplicates the top operand.
    Dup,
    /// Exchanges the top two operands.
    Flip,
    /// Copies the second operand to the top.
    Over,
}

/// A module in the path of a reference.
#[derive(Debug, PartialEq, Eq)]
pub struct RefComponent {
    pub module: Sp<String>,
}

/// A reference to something with a name.
#[derive(Debug, PartialEq, Eq)]
pub struct Ref {
    pub path: Vec<RefComponent>,
    pub name: Sp<String>,
    /// Whether the reference is part of an operand of a macro.
    pub in_macro_arg: bool,
    /// How many functions the name takes as a modifier.
    pub args: usize,
}

/// A modifier of functions.
#[derive(Debug, PartialEq, Eq)]
pub enum Modifier {
    Primitive(Primitive),
    /// A macro.
    Ref(Ref),
}

/// A modifier with what it is applied to.
#[derive(Debug, PartialEq, Eq)]
pub struct Modified {
    pub modifier: Sp<Modifier>,
    pub operands: Vec<Sp<Word>>,
}

/// An inline function.
#[derive(Debug, PartialEq, Eq)]
pub struct Func {
    pub id: FunctionId,
    pub signature: Option<Sp<Signature>>,
    pub lines: Vec<Vec<Sp<Word>>>,
    pub closed: bool,
}

/// Several functions in one pair of brackets.
#[derive(Debug, PartialEq, Eq)]
pub struct Switch {
    pub branches: Vec<Sp<Func>>,
    /// Whether the brackets are angled.
    pub angled: bool,
}

/// An array literal.
#[derive(Debug, PartialEq, Eq)]
pub struct Arr {
    pub boxes: bool,
    pub lines: Vec<Vec<Sp<Word>>>,
    pub closed: bool,
}

/// A word of the language.
#[derive(Debug, PartialEq, Eq)]
pub enum Word {
    Number(String),
    Char(String),
    Text(String),
    Label(String),
    Ref(Ref),
    Strand(Vec<Sp<Word>>),
    Array(Arr),
    Func(Func),
    Switch(Switch),
    Primitive(Primitive),
    Modified(Box<Modified>),
    Placeholder(PlaceholderOp),
    Comment(String),
    Spaces,
    BreakLine,
}

#[verifier::ext_equal]
pub struct RefV {
    pub path: Seq<RefComponent>,
    pub name: Sp<String>,
    pub in_macro_arg: bool,
    pub args: usize,
}

#[verifier::ext_equal]
pub enum ModifierV {
    Primitive(Primitive),
    Ref(RefV),
}

#[verifier::ext_equal]
pub struct ModifiedV {
    pub modifier: Sp<ModifierV>,
    pub operands: Seq<Sp<WordV>>,
}

#[verifier::ext_equal]
pub struct FuncV {
    pub id: FunctionId,
    pub signature: Option<Sp<Signature>>,
    pub lines: Seq<Seq<Sp<WordV>>>,
    pub closed: bool,
}

#[verifier::ext_equal]
pub struct SwitchV {
    pub branches: Seq<Sp<FuncV>>,
    pub angled: bool,
}

#[verifier::ext_equal]
pub struct ArrV {
    pub boxes: bool,
    pub lines: Seq<Seq<Sp<WordV>>>,
    pub closed: bool,
}

#[verifier::ext_equal]
pub enum WordV {
    Number(String),
    Char(String),
    Text(String),
    Label(String),
    Ref(RefV),
    Strand(Seq<Sp<WordV>>),
    Array(ArrV),
    Func(FuncV),
    Switch(SwitchV),
    Primitive(Primitive),
    Modified(Box<ModifiedV>),
    Placeholder(PlaceholderOp),
    Comment(String),
    Spaces,
    BreakLine,
}

impl View for Ref {
    type V = RefV;

    open spec fn view(&self) -> RefV {
        RefV {
            path: self.path@,
            name: self.name,
            in_macro_arg: self.in_macro_arg,
            args: self.args,
        }
    }
}

impl View for Modifier {
    type V = ModifierV;

    open spec fn view(&self) -> ModifierV {
        match self {
            Modifier::Primitive(prim) => ModifierV::Primitive(*prim),
            Modifier::Ref(r) => ModifierV::Ref(r@),
        }
    }
}

pub open spec fn word_view(word: Word) -> WordV
    decreases word,
{
    match word {
        Word::Number(s) => WordV::Number(s),
        Word::Char(s) => WordV::Char(s),
        Word::Text(s) => WordV::Text(s),
        Word::Label(s) => WordV::Label(s),
        Word::Ref(r) => WordV::Ref(r@),
        Word::Strand(items) => WordV::Strand(words_view(items@)),
        Word::Array(arr) => WordV::Array(
            ArrV { boxes: arr.boxes, lines: lines_view(arr.lines@), closed: arr.closed },
        ),
        Word::Func(func) => WordV::Func(func_view(func)),
        Word::Switch(sw) => WordV::Switch(
            SwitchV { branches: branches_view(sw.branches@), angled: sw.angled },
        ),
        Word::Primitive(prim) => WordV::Primitive(prim),
        Word::Modified(m) => WordV::Modified(Box::new(modified_view(*m))),
        Word::Placeholder(op) => WordV::Placeholder(op),
        Word::Comment(s) => WordV::Comment(s),
        Word::Spaces => WordV::Spaces,
        Word::BreakLine => WordV::BreakLine,
    }
}

pub open spec fn modified_view(m: Modified) -> ModifiedV
    decreases m,
{
    ModifiedV {
        modifier: Sp { value: m.modifier.value@, span: m.modifier.span },
        operands: words_view(m.operands@),
    }
}

pub open spec fn func_view(func: Func) -> FuncV
    decreases func,
{
    FuncV {
        id: func.id,
        signature: func.signature,
        lines: lines_view(func.lines@),
        closed: func.closed,
    }
}

pub open spec fn words_view(words: Seq<Sp<Word>>) -> Seq<Sp<WordV>>
    decreases words,
{
    Seq::new(
        words.len(),
        |i: int|
            if 0 <= i < words.len() {
                Sp { value: word_view(words[i].value), span: words[i].span }
            } else {
                arbitrary()
            },
    )
}

pub open spec fn lines_view(lines: Seq<Vec<Sp<Word>>>) -> Seq<Seq<Sp<WordV>>>
    decreases lines,
{
    Seq::new(
        lines.len(),
        |i: int|
            if 0 <= i < lines.len() {
                words_view(lines[i]@)
            } else {
                arbitrary()
            },
    )
}

pub open spec fn branches_view(branches: Seq<Sp<Func>>) -> Seq<Sp<FuncV>>
    decreases branches,
{
    Seq::new(
        branches.len(),
        |i: int|
            if 0 <= i < branches.len() {
                Sp { value: func_view(branches[i].value), span: branches[i].span }
            } else {
                arbitrary()
            },
    )
}

/// The model of a word at a place.
pub open spec fn sp_view(word: Sp<Word>) -> Sp<WordV> {
    Sp { value: word.value@, span: word.span }
}

impl View for Word {
    type V = WordV;

    open spec fn view(&self) -> WordV {
        word_view(*self)
    }
}

impl View for Func {
    type V = FuncV;

    open spec fn view(&self) -> FuncV {
        func_view(*self)
    }
}

impl View for Switch {
    type V = SwitchV;

    open spec fn view(&self) -> SwitchV {
        SwitchV { branches: branches_view(self.branches@), angled: self.angled }
    }
}

impl View for Modified {
    type V = ModifiedV;

    open spec fn view(&self) -> ModifiedV {
        modified_view(*self)
    }
}

/// Whether a word is code, not layout or a comment.
pub open spec fn is_code(word: WordV) -> bool {
    !(word is Comment || word is Spaces || word is BreakLine)
}

/// The words that are code, in order.
pub open spec fn code_words(words: Seq<Sp<WordV>>) -> Seq<Sp<WordV>> {
    words.filter(|w: Sp<WordV>| is_code(w.value))
}

/// How many functions a modifier takes.
pub open spec fn required_args(modifier: ModifierV) -> usize {
    match modifier {
        ModifierV::Primitive(prim) => modifier_args(prim),
        ModifierV::Ref(r) => r.args,
    }
}

impl Word {
    /// Whether the word is code, not layout or a comment.
    pub fn is_code(&self) -> (res: bool)
        ensures
            res == is_code(self@),
    {
        match self {
            Word::Comment(_) => false,
            Word::Spaces => false,
            Word::BreakLine => false,
            _ => true,
        }
    }
}

impl Modifier {
    /// How many functions the modifier takes.
    pub fn args(&self) -> (res: usize)
        ensures
            res == required_args(self@),
    {
        match self {
            Modifier::Primitive(prim) => prim.modifier_args(),
            Modifier::Ref(r) => r.args,
        }
    }
}

impl Clone for RefComponent {
    fn clone(&self) -> (res: Self)
        ensures
            res == *self,
    {
        RefComponent { module: self.module.clone() }
    }
}

impl Clone for Ref {
    fn clone(&self) -> (res: Self)
        ensures
            res@ == self@,
    {
        let path = self.path.clone();
        assert(path@ =~= self.path@);
        Ref { path, name: self.name.clone(), in_macro_arg: self.in_macro_arg, args: self.args }
    }
}

impl Clone for Modifier {
    fn clone(&self) -> (res: Self)
        ensures
            res@ == self@,
    {
        match self {
            Modifier::Primitive(prim) => Modifier::Primitive(*prim),
            Modifier::Ref(r) => Modifier::Ref(r.clone()),
        }
    }
}

/// A copy of a signature at a place.
fn clone_signature(signature: &Option<Sp<Signature>>) -> (res: Option<Sp<Signature>>)
    ensures
        res == *signature,
{
    match signature {
        Some(sig) => Some(Sp { value: sig.value, span: sig.span.clone() }),
        None => None,
    }
}

/// A copy of a word.
pub fn clone_word(word: &Word) -> (res: Word)
    ensures
        res@ == word@,
    decreases word,
{
    match word {
        Word::Number(s) => Word::Number(s.clone()),
        Word::Char(s) => Word::Char(s.clone()),
        Word::Text(s) => Word::Text(s.clone()),
        Word::Label(s) => Word::Label(s.clone()),
        Word::Ref(r) => Word::Ref(r.clone()),
        Word::Strand(items) => Word::Strand(clone_words(items)),
        Word::Array(arr) => Word::Array(
            Arr { boxes: arr.boxes, lines: clone_lines(&arr.lines), closed: arr.closed },
        ),
        Word::Func(func) => Word::Func(clone_func(func)),
        Word::Switch(sw) => Word::Switch(
            Switch { branches: clone_branches(&sw.branches), angled: sw.angled },
        ),
        Word::Primitive(prim) => Word::Primitive(*prim),
        Word::Modified(m) => Word::Modified(
            Box::new(
                Modified {
                    modifier: Sp {
                        value: m.modifier.value.clone(),
                        span: m.modifier.span.clone(),
                    },
                    operands: clone_words(&m.operands),
                },
            ),
        ),
        Word::Placeholder(op) => Word::Placeholder(*op),
        Word::Comment(s) => Word::Comment(s.clone()),
        Word::Spaces => Word::Spaces,
        Word::BreakLine => Word::BreakLine,
    }
}

/// A copy of a function.
pub fn clone_func(func: &Func) -> (res: Func)
    ensures
        res@ == func@,
    decreases func,
{
    Func {
        id: func.id.clone(),
        signature: clone_signature(&func.signature),
        lines: clone_lines(&func.lines),
        closed: func.closed,
    }
}

/// A copy of a list of words.
pub fn clone_words(words: &Vec<Sp<Word>>) -> (res: Vec<Sp<Word>>)
    ensures
        words_view(res@) == words_view(words@),
    decreases words,
{
    let mut res: Vec<Sp<Word>> = Vec::new();
    for i in 0..words.len()
        invariant
            res.len() == i,
            forall|j: int|
                0 <= j < i ==> word_view(#[trigger] res@[j].value) == word_view(words@[j].value)
                    && res@[j].span == words@[j].span,
    {
        let value = clone_word(&words[i].value);
        res.push(Sp { value, span: words[i].span.clone() });
    }
    assert(words_view(res@) =~= words_view(words@));
    res
}

/// A copy of some lines of words.
pub fn clone_lines(lines: &Vec<Vec<Sp<Word>>>) -> (res: Vec<Vec<Sp<Word>>>)
    ensures
        lines_view(res@) == lines_view(lines@),
    decreases lines,
{
    let mut res: Vec<Vec<Sp<Word>>> = Vec::new();
    for i in 0..lines.len()
        invariant
            res.len() == i,
            forall|j: int|
                0 <= j < i ==> words_view(#[trigger] res@[j]@) == words_view(lines@[j]@),
    {
        res.push(clone_words(&lines[i]));
    }
    assert(lines_view(res@) =~= lines_view(lines@));
    res
}

/// A copy of the branches of a pack.
pub fn clone_branches(branches: &Vec<Sp<Func>>) -> (res: Vec<Sp<Func>>)
    ensures
        branches_view(res@) == branches_view(branches@),
    decreases branches,
{
    let mut res: Vec<Sp<Func>> = Vec::new();
    for i in 0..branches.len()
        invariant
            res.len() == i,
            forall|j: int|
                0 <= j < i ==> func_view(#[trigger] res@[j].value) == func_view(branches@[j].value)
                    && res@[j].span == branches@[j].span,
    {
        let value = clone_func(&branches[i].value);
        res.push(Sp { value, span: branches[i].span.clone() });
    }
    assert(branches_view(res@) =~= branches_view(branches@));
    res
}

/// A copy of a word with its place.
pub fn clone_sp(word: &Sp<Word>) -> (res: Sp<Word>)
    ensures
        sp_view(res) == sp_view(*word),
{
    Sp { value: clone_word(&word.value), span: word.span.clone() }
}

/// A copy of a modifier with its place.
pub fn clone_modifier(modifier: &Sp<Modifier>) -> (res: Sp<Modifier>)
    ensures
        res.value@ == modifier.value@,
        res.span == modifier.span,
{
    Sp { value: modifier.value.clone(), span: modifier.span.clone() }
}

impl Modified {
    /// How many of the operands are code.
    pub fn code_count(&self) -> (res: usize)
        ensures
            res == code_words(self@.operands).len(),
    {
        reveal(Seq::filter);
        let ghost words = self@.operands;
        let mut count: usize = 0;
        for i in 0..self.operands.len()
            invariant
                words == words_view(self.operands@),
                count == code_words(words.take(i as int)).len(),
                count <= i,
        {
            proof {
                lemma_code_words_step(words, i as int);
            }
            if self.operands[i].value.is_code() {
                count = count + 1;
            }
        }
        assert(words.take(words.len() as int) =~= words);
        count
    }

    /// The code operand with the given number.
    pub fn code_operand(&self, n: usize) -> (res: &Sp<Word>)
        requires
            n < code_words(self@.operands).len(),
        ensures
            sp_view(*res) == code_words(self@.operands)[n as int],
    {
        let ghost words = self@.operands;
        let mut count: usize = 0;
        let mut i: usize = 0;
        proof {
            reveal(Seq::filter);
        }
        while !(self.operands[i].value.is_code() && count == n)
            invariant
                words == words_view(self.operands@),
                i < self.operands.len(),
                n < code_words(words).len(),
                count == code_words(words.take(i as int)).len(),
                count <= n,
            decreases self.operands.len() - i,
        {
            proof {
                lemma_code_words_step(words, i as int);
                assert(words.take(words.len() as int) =~= words);
            }
            if self.operands[i].value.is_code() {
                count = count + 1;
            }
            i = i + 1;
        }
        proof {
            lemma_code_words_step(words, i as int);
            lemma_code_words_prefix(words, i as int + 1);
        }
        &self.operands[i]
    }
}

/// Taking one more word adds it to the code words if it is code.
pub proof fn lemma_code_words_step(words: Seq<Sp<WordV>>, i: int)
    requires
        0 <= i < words.len(),
    ensures
        code_words(words.take(i + 1)) == if is_code(words[i].value) {
            code_words(words.take(i)).push(words[i])
        } else {
            code_words(words.take(i))
        },
{
    reveal(Seq::filter);
    assert(words.take(i + 1).drop_last() =~= words.take(i));
    assert(words.take(i + 1).last() == words[i]);
}

/// The code words of a prefix are a prefix of the code words.
pub proof fn lemma_code_words_prefix(words: Seq<Sp<WordV>>, n: int)
    requires
        0 <= n <= words.len(),
    ensures
        code_words(words.take(n)).len() <= code_words(words).len(),
        forall|i: int|
            0 <= i < code_words(words.take(n)).len() ==> code_words(words.take(n))[i]
                == code_words(words)[i],
    decreases words.len() - n,
{
    if n < words.len() {
        lemma_code_words_step(words, n);
        lemma_code_words_prefix(words, n + 1);
    } else {
        assert(words.take(n) =~= words);
    }
}

/// The words that are code are all words in order but for comments, spaces and line breaks.
pub proof fn law_code_words_in_order(a: Seq<Sp<WordV>>, b: Seq<Sp<WordV>>, word: Sp<WordV>)
    ensures
        code_words(a + b) == code_words(a) + code_words(b),
        code_words(seq![word]) == match word.value {
            WordV::Comment(_) | WordV::Spaces | WordV::BreakLine => Seq::empty(),
            _ => seq![word],
        },
{
    reveal_with_fuel(Seq::filter, 2);
    Seq::filter_distributes_over_add(a, b, |w: Sp<WordV>| is_code(w.value));
    assert(seq![word].drop_last() =~= Seq::empty());
    assert(code_words(seq![word]) =~= match word.value {
        WordV::Comment(_) | WordV::Spaces | WordV::BreakLine => Seq::empty(),
        _ => seq![word],
    });
}

/// The models of words are one for each, at the same positions and places; so are those of the
/// words in lines, and of the functions in packs, with all that the functions have beside their
/// lines.
pub proof fn law_models_in_order(
    words: Seq<Sp<Word>>,
    lines: Seq<Vec<Sp<Word>>>,
    branches: Seq<Sp<Func>>,
    i: int,
)
    ensures
        words_view(words).len() == words.len(),
        0 <= i < words.len() ==> words_view(words)[i].value == words[i].value@ && words_view(
            words,
        )[i].span == words[i].span,
        lines_view(lines).len() == lines.len(),
        0 <= i < lines.len() ==> lines_view(lines)[i] == words_view(lines[i]@),
        branches_view(branches).len() == branches.len(),
        0 <= i < branches.len() ==> branches_view(branches)[i].value == branches[i].value@
            && branches_view(branches)[i].span == branches[i].span,
{
}

/// The model of a word tells everything about it: a function is told by what it is identified by,
/// its signature, its lines and whether it is closed; an array by its kind, its lines and whether
/// it is closed; a pack by its functions and its brackets; a reference by its path, its name,
/// whether it is in an operand of a macro and how many functions it takes; and a modifier by what
/// it is, its place and its operands.
pub proof fn law_model_tells_word(word: Word)
    ensures
        match word {
            Word::Number(s) => word@ == WordV::Number(s),
            Word::Char(s) => word@ == WordV::Char(s),
            Word::Text(s) => word@ == WordV::Text(s),
            Word::Label(s) => word@ == WordV::Label(s),
            Word::Comment(s) => word@ == WordV::Comment(s),
            Word::Primitive(prim) => word@ == WordV::Primitive(prim),
            Word::Placeholder(op) => word@ == WordV::Placeholder(op),
            Word::Spaces => word@ == WordV::Spaces,
            Word::BreakLine => word@ == WordV::BreakLine,
            Word::Ref(r) => word@ matches WordV::Ref(model) && model.path == r.path@ && model.name
                == r.name && model.in_macro_arg == r.in_macro_arg && model.args == r.args,
            Word::Strand(items) => word@ matches WordV::Strand(model) && model == words_view(
                items@,
            ),
            Word::Array(arr) => word@ matches WordV::Array(model) && model.boxes == arr.boxes
                && model.closed == arr.closed && model.lines == lines_view(arr.lines@),
            Word::Func(func) => word@ matches WordV::Func(model) && model.id == func.id
                && model.signature == func.signature && model.closed == func.closed && model.lines
                == lines_view(func.lines@),
            Word::Switch(sw) => word@ matches WordV::Switch(model) && model.angled == sw.angled
                && model.branches == branches_view(sw.branches@),
            Word::Modified(m) => word@ matches WordV::Modified(model) && model.modifier.span
                == m.modifier.span && model.modifier.value == m.modifier.value@ && model.operands
                == words_view(m.operands@),
        },
{
}

/// How many functions a modifier takes: two are taken by the primitives that join two functions or
/// guard one by another, none by those that are functions themselves, and one by the others that
/// have a name here. A macro and any other primitive take what is told of them.
pub proof fn law_functions_taken(modifier: ModifierV)
    ensures
        match modifier {
            ModifierV::Ref(r) => required_args(modifier) == r.args,
            ModifierV::Primitive(prim) => required_args(modifier) == if prim is Fork
                || prim is Cascade || prim is Bracket || prim is Under || prim is Fill
                || prim is Try {
                2
            } else if prim is Identity || prim is Dup || prim is Pop || prim is Trace {
                0
            } else if prim is Other {
                prim->args as int
            } else {
                1
            },
        },
{
}

} // verus!
