//! What the expansion of a macro does to its words, seen in the words as they are read from left to
//! right.
use crate::compiler::CompilerV;
use crate::expand::{
    law_operands_in_order, macro_expanded, macro_operands, placeholder_run, placeholder_step,
    shown_words, OperandsV,
};
use crate::message::{Diagnostic, DiagnosticKind, Message, UiuaError, UiuaResult};
use crate::placeholder::{
    branches_ops, calls, filled_branches, filled_lines, filled_word, filled_words,
    lemma_calls_concat, lines_ops, marked_branches, marked_lines, marked_word, marked_words,
    word_ops, words_ops,
};
use crate::span::{merged, CodeSpan, Sp};
use crate::table::Expansion;
use crate::toolchain::{did_format_words, Toolchain};
use crate::word::{code_words, ArrV, FuncV, ModifiedV, PlaceholderOp, RefV, SwitchV, WordV};
use vstd::prelude::*;

verus! {

/// What is read when words are read from left to right.
#[verifier::ext_equal]
pub enum Token {
    /// A word that holds no other words.
    Word(Sp<WordV>),
    /// The start of a word that holds others, without what it holds.
    Open(Sp<WordV>),
    /// The start of a function in a pack, without what it holds.
    Branch(Sp<FuncV>),
    /// The start of a line.
    Line,
    /// The end of what was started last.
    Close,
}

/// What is read of a word.
pub open spec fn word_tokens(word: Sp<WordV>) -> Seq<Token>
    decreases word.value,
{
    match word.value {
        WordV::Strand(items) => seq![
            Token::Open(Sp { value: WordV::Strand(Seq::empty()), span: word.span }),
        ] + words_tokens(items) + seq![Token::Close],
        WordV::Array(arr) => seq![
            Token::Open(
                Sp { value: WordV::Array(ArrV { lines: Seq::empty(), ..arr }), span: word.span },
            ),
        ] + lines_tokens(arr.lines) + seq![Token::Close],
        WordV::Func(func) => seq![
            Token::Open(
                Sp { value: WordV::Func(FuncV { lines: Seq::empty(), ..func }), span: word.span },
            ),
        ] + lines_tokens(func.lines) + seq![Token::Close],
        WordV::Switch(sw) => seq![
            Token::Open(
                Sp {
                    value: WordV::Switch(SwitchV { branches: Seq::empty(), ..sw }),
                    span: word.span,
                },
            ),
        ] + branches_tokens(sw.branches) + seq![Token::Close],
        WordV::Modified(m) => seq![
            Token::Open(
                Sp {
                    value: WordV::Modified(
                        Box::new(ModifiedV { operands: Seq::empty(), ..*m }),
                    ),
                    span: word.span,
                },
            ),
        ] + words_tokens(m.operands) + seq![Token::Close],
        _ => seq![Token::Word(word)],
    }
}

/// What is read of some words.
pub open spec fn words_tokens(words: Seq<Sp<WordV>>) -> Seq<Token>
    decreases words,
{
    if words.len() == 0 {
        Seq::empty()
    } else {
        words_tokens(words.drop_last()) + word_tokens(words.last())
    }
}

/// What is read of some lines.
pub open spec fn lines_tokens(lines: Seq<Seq<Sp<WordV>>>) -> Seq<Token>
    decreases lines,
{
    if lines.len() == 0 {
        Seq::empty()
    } else {
        lines_tokens(lines.drop_last()) + (seq![Token::Line] + words_tokens(lines.last()))
    }
}

/// What is read of the functions in a pack.
pub open spec fn branches_tokens(branches: Seq<Sp<FuncV>>) -> Seq<Token>
    decreases branches,
{
    if branches.len() == 0 {
        Seq::empty()
    } else {
        let last = branches.last();
        let open = Token::Branch(
            Sp { value: FuncV { lines: Seq::empty(), ..last.value }, span: last.span },
        );
        branches_tokens(branches.drop_last()) + (seq![open] + lines_tokens(last.value.lines)
            + seq![Token::Close])
    }
}

/// A placeholder that stands for an operand.
pub open spec fn is_call(token: Token) -> bool {
    token matches Token::Word(word) && word.value == WordV::Placeholder(PlaceholderOp::Call)
}

/// How many placeholders stand for an operand in what is read.
pub open spec fn calls_read(tokens: Seq<Token>) -> nat
    decreases tokens.len(),
{
    if tokens.len() == 0 {
        0
    } else {
        calls_read(tokens.drop_last()) + if is_call(tokens.last()) {
            1nat
        } else {
            0nat
        }
    }
}

/// What one token becomes when words are put in the place of placeholders, where `n` placeholders
/// that stand for an operand come before it: the next one that stands for an operand becomes
/// `with[n]`, the other placeholders vanish, and everything else stays.
pub open spec fn token_put(token: Token, with: Seq<Sp<WordV>>, n: nat) -> Seq<Token> {
    match token {
        Token::Word(word) => match word.value {
            WordV::Placeholder(op) => if op == PlaceholderOp::Call {
                word_tokens(with[n as int])
            } else {
                Seq::empty()
            },
            _ => seq![token],
        },
        _ => seq![token],
    }
}

/// What is read when words are put in the place of placeholders, one after the other, from
/// `with[k]` on.
pub open spec fn tokens_put(tokens: Seq<Token>, with: Seq<Sp<WordV>>, k: nat) -> Seq<Token>
    decreases tokens.len(),
{
    if tokens.len() == 0 {
        Seq::empty()
    } else {
        tokens_put(tokens.drop_last(), with, k) + token_put(
            tokens.last(),
            with,
            k + calls_read(tokens.drop_last()),
        )
    }
}

/// The placeholders in what is read, in order.
pub open spec fn ops_read(tokens: Seq<Token>) -> Seq<Sp<PlaceholderOp>>
    decreases tokens.len(),
{
    if tokens.len() == 0 {
        Seq::empty()
    } else {
        ops_read(tokens.drop_last()) + match tokens.last() {
            Token::Word(word) => match word.value {
                WordV::Placeholder(op) => seq![Sp { value: op, span: word.span }],
                _ => Seq::empty(),
            },
            _ => Seq::empty(),
        }
    }
}

/// What one token becomes when references are marked as parts of an operand of a macro.
pub open spec fn token_marked(token: Token) -> Token {
    match token {
        Token::Word(word) => match word.value {
            WordV::Ref(r) => Token::Word(
                Sp { value: WordV::Ref(RefV { in_macro_arg: true, ..r }), span: word.span },
            ),
            _ => token,
        },
        _ => token,
    }
}

proof fn lemma_calls_read_concat(a: Seq<Token>, b: Seq<Token>)
    ensures
        calls_read(a + b) == calls_read(a) + calls_read(b),
    decreases b.len(),
{
    if b.len() == 0 {
        assert(a + b =~= a);
    } else {
        assert((a + b).drop_last() =~= a + b.drop_last());
        lemma_calls_read_concat(a, b.drop_last());
    }
}

proof fn lemma_tokens_put_concat(a: Seq<Token>, b: Seq<Token>, with: Seq<Sp<WordV>>, k: nat)
    ensures
        tokens_put(a + b, with, k) == tokens_put(a, with, k) + tokens_put(
            b,
            with,
            k + calls_read(a),
        ),
    decreases b.len(),
{
    if b.len() == 0 {
        assert(a + b =~= a);
        assert(tokens_put(b, with, k + calls_read(a)) =~= Seq::<Token>::empty());
        assert(tokens_put(a, with, k) + Seq::<Token>::empty() =~= tokens_put(a, with, k));
    } else {
        let fewer = b.drop_last();
        assert((a + b).drop_last() =~= a + fewer);
        lemma_tokens_put_concat(a, fewer, with, k);
        lemma_calls_read_concat(a, fewer);
        let at = k + calls_read(a);
        assert(tokens_put(a + b, with, k) =~= tokens_put(a, with, k) + tokens_put(b, with, at));
    }
}

/// A single token that is no placeholder.
proof fn lemma_one_put(token: Token, with: Seq<Sp<WordV>>, k: nat)
    ensures
        calls_read(seq![token]) == if is_call(token) {
            1nat
        } else {
            0nat
        },
        tokens_put(seq![token], with, k) == token_put(token, with, k),
{
    assert(seq![token].drop_last() =~= Seq::<Token>::empty());
    assert(calls_read(Seq::<Token>::empty()) == 0);
    assert(tokens_put(Seq::<Token>::empty(), with, k) =~= Seq::<Token>::empty());
    assert(tokens_put(seq![token], with, k) =~= token_put(token, with, k));
}

/// Tokens between two that are no placeholders.
proof fn lemma_put_between(
    open: Token,
    tokens: Seq<Token>,
    close: Token,
    with: Seq<Sp<WordV>>,
    k: nat,
)
    requires
        !(open is Word),
        !(close is Word),
    ensures
        calls_read(seq![open] + tokens + seq![close]) == calls_read(tokens),
        tokens_put(seq![open] + tokens + seq![close], with, k) == seq![open] + tokens_put(
            tokens,
            with,
            k,
        ) + seq![close],
        calls_read(seq![open] + tokens) == calls_read(tokens),
        tokens_put(seq![open] + tokens, with, k) == seq![open] + tokens_put(tokens, with, k),
{
    lemma_one_put(open, with, k);
    lemma_one_put(close, with, k + calls_read(tokens));
    lemma_calls_read_concat(seq![open], tokens);
    lemma_calls_read_concat(seq![open] + tokens, seq![close]);
    lemma_tokens_put_concat(seq![open], tokens, with, k);
    lemma_tokens_put_concat(seq![open] + tokens, seq![close], with, k);
}

/// Filling the placeholders in some words puts the words of the list in their places, one after the
/// other as they are read: the first placeholder that stands for an operand, at whatever depth,
/// becomes `with[k]`, the next one `with[k + 1]`, and so on, each used once. The other placeholders
/// vanish, and everything else is as it was, in the same order.
pub proof fn law_filling_in_order(words: Seq<Sp<WordV>>, with: Seq<Sp<WordV>>, k: nat)
    ensures
        words_tokens(filled_words(words, with, k)) == tokens_put(words_tokens(words), with, k),
        calls_read(words_tokens(words)) == calls(words_ops(words)),
    decreases words,
{
    if words.len() == 0 {
        assert(words_tokens(filled_words(words, with, k)) =~= tokens_put(
            words_tokens(words),
            with,
            k,
        ));
    } else {
        let rest = words.drop_last();
        let last = words.last();
        let at = k + calls(words_ops(rest));
        law_filling_in_order(rest, with, k);
        lemma_word_in_order(last, with, at);
        lemma_calls_concat(words_ops(rest), word_ops(last));
        lemma_calls_read_concat(words_tokens(rest), word_tokens(last));
        lemma_tokens_put_concat(words_tokens(rest), word_tokens(last), with, k);
        let before = filled_words(rest, with, k);
        match last.value {
            WordV::Placeholder(op) => {
                lemma_one_put(Token::Word(last), with, at);
                if op == PlaceholderOp::Call {
                    assert(before.push(with[at as int]).drop_last() =~= before);
                } else {
                    assert(words_tokens(before) + Seq::<Token>::empty() =~= words_tokens(before));
                }
            },
            _ => {
                let new = Sp { value: filled_word(last.value, with, at), span: last.span };
                assert(before.push(new).drop_last() =~= before);
            },
        }
    }
}

proof fn lemma_word_in_order(word: Sp<WordV>, with: Seq<Sp<WordV>>, k: nat)
    ensures
        !(word.value is Placeholder) ==> word_tokens(
            Sp { value: filled_word(word.value, with, k), span: word.span },
        ) == tokens_put(word_tokens(word), with, k),
        calls_read(word_tokens(word)) == calls(word_ops(word)),
    decreases word.value,
{
    let tokens = word_tokens(word);
    match word.value {
        WordV::Strand(items) => {
            law_filling_in_order(items, with, k);
            lemma_put_between(tokens[0], words_tokens(items), Token::Close, with, k);
        },
        WordV::Array(arr) => {
            lemma_lines_in_order(arr.lines, with, k);
            lemma_put_between(tokens[0], lines_tokens(arr.lines), Token::Close, with, k);
        },
        WordV::Func(func) => {
            lemma_lines_in_order(func.lines, with, k);
            lemma_put_between(tokens[0], lines_tokens(func.lines), Token::Close, with, k);
        },
        WordV::Switch(sw) => {
            lemma_branches_in_order(sw.branches, with, k);
            lemma_put_between(tokens[0], branches_tokens(sw.branches), Token::Close, with, k);
        },
        WordV::Modified(m) => {
            law_filling_in_order(m.operands, with, k);
            lemma_put_between(tokens[0], words_tokens(m.operands), Token::Close, with, k);
        },
        WordV::Placeholder(op) => {
            lemma_one_put(Token::Word(word), with, k);
            let one = seq![Sp { value: op, span: word.span }];
            assert(word_ops(word) =~= one);
            assert(one.drop_last() =~= Seq::empty());
            assert(calls(one.drop_last()) == 0);
        },
        _ => {
            lemma_one_put(Token::Word(word), with, k);
        },
    }
}

proof fn lemma_lines_in_order(lines: Seq<Seq<Sp<WordV>>>, with: Seq<Sp<WordV>>, k: nat)
    ensures
        lines_tokens(filled_lines(lines, with, k)) == tokens_put(lines_tokens(lines), with, k),
        calls_read(lines_tokens(lines)) == calls(lines_ops(lines)),
    decreases lines,
{
    if lines.len() == 0 {
        assert(lines_tokens(filled_lines(lines, with, k)) =~= tokens_put(
            lines_tokens(lines),
            with,
            k,
        ));
    } else {
        let rest = lines.drop_last();
        let last = lines.last();
        let at = k + calls(lines_ops(rest));
        lemma_lines_in_order(rest, with, k);
        law_filling_in_order(last, with, at);
        lemma_calls_concat(lines_ops(rest), words_ops(last));
        let line = seq![Token::Line] + words_tokens(last);
        lemma_put_between(Token::Line, words_tokens(last), Token::Close, with, at);
        lemma_calls_read_concat(lines_tokens(rest), line);
        lemma_tokens_put_concat(lines_tokens(rest), line, with, k);
        let before = filled_lines(rest, with, k);
        assert(before.push(filled_words(last, with, at)).drop_last() =~= before);
    }
}

proof fn lemma_branches_in_order(branches: Seq<Sp<FuncV>>, with: Seq<Sp<WordV>>, k: nat)
    ensures
        branches_tokens(filled_branches(branches, with, k)) == tokens_put(
            branches_tokens(branches),
            with,
            k,
        ),
        calls_read(branches_tokens(branches)) == calls(branches_ops(branches)),
    decreases branches,
{
    if branches.len() == 0 {
        assert(branches_tokens(filled_branches(branches, with, k)) =~= tokens_put(
            branches_tokens(branches),
            with,
            k,
        ));
    } else {
        let rest = branches.drop_last();
        let last = branches.last();
        let lines = last.value.lines;
        let at = k + calls(branches_ops(rest));
        lemma_branches_in_order(rest, with, k);
        lemma_lines_in_order(lines, with, at);
        lemma_calls_concat(branches_ops(rest), lines_ops(lines));
        let open = Token::Branch(
            Sp { value: FuncV { lines: Seq::empty(), ..last.value }, span: last.span },
        );
        let branch = seq![open] + lines_tokens(lines) + seq![Token::Close];
        lemma_put_between(open, lines_tokens(lines), Token::Close, with, at);
        lemma_calls_read_concat(branches_tokens(rest), branch);
        lemma_tokens_put_concat(branches_tokens(rest), branch, with, k);
        let before = filled_branches(rest, with, k);
        let new = Sp {
            value: FuncV { lines: filled_lines(lines, with, at), ..last.value },
            span: last.span,
        };
        assert(before.push(new).drop_last() =~= before);
    }
}

proof fn lemma_ops_read_concat(a: Seq<Token>, b: Seq<Token>)
    ensures
        ops_read(a + b) == ops_read(a) + ops_read(b),
    decreases b.len(),
{
    if b.len() == 0 {
        assert(a + b =~= a);
        assert(ops_read(a) + ops_read(b) =~= ops_read(a));
    } else {
        assert((a + b).drop_last() =~= a + b.drop_last());
        lemma_ops_read_concat(a, b.drop_last());
        assert(ops_read(a + b) =~= ops_read(a) + ops_read(b));
    }
}

proof fn lemma_ops_between(open: Token, tokens: Seq<Token>, close: Token)
    requires
        !(open is Word),
        !(close is Word),
    ensures
        ops_read(seq![open] + tokens + seq![close]) == ops_read(tokens),
        ops_read(seq![open] + tokens) == ops_read(tokens),
{
    lemma_ops_read_concat(seq![open], tokens);
    lemma_ops_read_concat(seq![open] + tokens, seq![close]);
    assert(seq![open].drop_last() =~= Seq::<Token>::empty());
    assert(seq![close].drop_last() =~= Seq::<Token>::empty());
    assert(ops_read(Seq::<Token>::empty()) =~= Seq::empty());
    assert(ops_read(seq![open]) =~= Seq::empty());
    assert(ops_read(seq![close]) =~= Seq::empty());
    assert(ops_read(seq![open]) + ops_read(tokens) =~= ops_read(tokens));
    assert(ops_read(tokens) + ops_read(seq![close]) =~= ops_read(tokens));
}

/// The placeholders of some words are found in the order in which they are read, at whatever depth
/// they stand.
pub proof fn law_placeholders_in_order(words: Seq<Sp<WordV>>)
    ensures
        words_ops(words) == ops_read(words_tokens(words)),
    decreases words,
{
    if words.len() > 0 {
        let rest = words.drop_last();
        let last = words.last();
        law_placeholders_in_order(rest);
        lemma_word_placeholders(last);
        lemma_ops_read_concat(words_tokens(rest), word_tokens(last));
    } else {
        assert(words_ops(words) =~= ops_read(words_tokens(words)));
    }
}

proof fn lemma_word_placeholders(word: Sp<WordV>)
    ensures
        word_ops(word) == ops_read(word_tokens(word)),
    decreases word.value,
{
    let tokens = word_tokens(word);
    match word.value {
        WordV::Strand(items) => {
            law_placeholders_in_order(items);
            lemma_ops_between(tokens[0], words_tokens(items), Token::Close);
        },
        WordV::Array(arr) => {
            lemma_line_placeholders(arr.lines);
            lemma_ops_between(tokens[0], lines_tokens(arr.lines), Token::Close);
        },
        WordV::Func(func) => {
            lemma_line_placeholders(func.lines);
            lemma_ops_between(tokens[0], lines_tokens(func.lines), Token::Close);
        },
        WordV::Switch(sw) => {
            lemma_branch_placeholders(sw.branches);
            lemma_ops_between(tokens[0], branches_tokens(sw.branches), Token::Close);
        },
        WordV::Modified(m) => {
            law_placeholders_in_order(m.operands);
            lemma_ops_between(tokens[0], words_tokens(m.operands), Token::Close);
        },
        _ => {
            assert(tokens.drop_last() =~= Seq::<Token>::empty());
            assert(ops_read(Seq::<Token>::empty()) =~= Seq::empty());
            assert(word_ops(word) =~= ops_read(tokens));
        },
    }
}

proof fn lemma_line_placeholders(lines: Seq<Seq<Sp<WordV>>>)
    ensures
        lines_ops(lines) == ops_read(lines_tokens(lines)),
    decreases lines,
{
    if lines.len() > 0 {
        let rest = lines.drop_last();
        let last = lines.last();
        lemma_line_placeholders(rest);
        law_placeholders_in_order(last);
        lemma_ops_between(Token::Line, words_tokens(last), Token::Close);
        lemma_ops_read_concat(lines_tokens(rest), seq![Token::Line] + words_tokens(last));
    } else {
        assert(lines_ops(lines) =~= ops_read(lines_tokens(lines)));
    }
}

proof fn lemma_branch_placeholders(branches: Seq<Sp<FuncV>>)
    ensures
        branches_ops(branches) == ops_read(branches_tokens(branches)),
    decreases branches,
{
    if branches.len() > 0 {
        let rest = branches.drop_last();
        let last = branches.last();
        let lines = last.value.lines;
        let open = Token::Branch(
            Sp { value: FuncV { lines: Seq::empty(), ..last.value }, span: last.span },
        );
        lemma_branch_placeholders(rest);
        lemma_line_placeholders(lines);
        lemma_ops_between(open, lines_tokens(lines), Token::Close);
        lemma_ops_read_concat(
            branches_tokens(rest),
            seq![open] + lines_tokens(lines) + seq![Token::Close],
        );
    } else {
        assert(branches_ops(branches) =~= ops_read(branches_tokens(branches)));
    }
}

/// What is read when every reference is marked.
pub open spec fn tokens_marked(tokens: Seq<Token>) -> Seq<Token> {
    tokens.map_values(|token: Token| token_marked(token))
}

proof fn lemma_marked_between(open: Token, tokens: Seq<Token>, close: Token)
    requires
        !(open is Word),
        !(close is Word),
    ensures
        tokens_marked(seq![open] + tokens + seq![close]) == seq![open] + tokens_marked(tokens)
            + seq![close],
        tokens_marked(seq![open] + tokens) == seq![open] + tokens_marked(tokens),
{
    assert(tokens_marked(seq![open] + tokens + seq![close]) =~= seq![open] + tokens_marked(tokens)
        + seq![close]);
    assert(tokens_marked(seq![open] + tokens) =~= seq![open] + tokens_marked(tokens));
}

/// Marking the references in some words marks every word that is a reference, at whatever depth it
/// stands, and changes nothing else.
pub proof fn law_marking_every_reference(words: Seq<Sp<WordV>>)
    ensures
        words_tokens(marked_words(words)) == tokens_marked(words_tokens(words)),
        marked_words(words).len() == words.len(),
        forall|i: int|
            0 <= i < words.len() ==> (#[trigger] marked_words(words)[i]).span == words[i].span,
    decreases words,
{
    let new = marked_words(words);
    if words.len() > 0 {
        let rest = words.drop_last();
        let last = words.last();
        law_marking_every_reference(rest);
        lemma_word_marked(last);
        assert(new.drop_last() =~= marked_words(rest));
        assert(new.last() == (Sp { value: marked_word(last.value), span: last.span }));
        assert(tokens_marked(words_tokens(rest) + word_tokens(last)) =~= tokens_marked(
            words_tokens(rest),
        ) + tokens_marked(word_tokens(last)));
    } else {
        assert(words_tokens(new) =~= tokens_marked(words_tokens(words)));
    }
}

proof fn lemma_word_marked(word: Sp<WordV>)
    ensures
        word_tokens(Sp { value: marked_word(word.value), span: word.span }) == tokens_marked(
            word_tokens(word),
        ),
    decreases word.value,
{
    let tokens = word_tokens(word);
    match word.value {
        WordV::Strand(items) => {
            law_marking_every_reference(items);
            lemma_marked_between(tokens[0], words_tokens(items), Token::Close);
        },
        WordV::Array(arr) => {
            lemma_lines_marked(arr.lines);
            lemma_marked_between(tokens[0], lines_tokens(arr.lines), Token::Close);
        },
        WordV::Func(func) => {
            lemma_lines_marked(func.lines);
            lemma_marked_between(tokens[0], lines_tokens(func.lines), Token::Close);
        },
        WordV::Switch(sw) => {
            lemma_branches_marked(sw.branches);
            lemma_marked_between(tokens[0], branches_tokens(sw.branches), Token::Close);
        },
        WordV::Modified(m) => {
            law_marking_every_reference(m.operands);
            lemma_marked_between(tokens[0], words_tokens(m.operands), Token::Close);
        },
        _ => {
            let new = Sp { value: marked_word(word.value), span: word.span };
            assert(word_tokens(new) =~= tokens_marked(tokens));
        },
    }
}

proof fn lemma_lines_marked(lines: Seq<Seq<Sp<WordV>>>)
    ensures
        lines_tokens(marked_lines(lines)) == tokens_marked(lines_tokens(lines)),
    decreases lines,
{
    let new = marked_lines(lines);
    if lines.len() > 0 {
        let rest = lines.drop_last();
        let last = lines.last();
        let line = seq![Token::Line] + words_tokens(last);
        lemma_lines_marked(rest);
        law_marking_every_reference(last);
        lemma_marked_between(Token::Line, words_tokens(last), Token::Close);
        assert(new.drop_last() =~= marked_lines(rest));
        assert(tokens_marked(lines_tokens(rest) + line) =~= tokens_marked(lines_tokens(rest))
            + tokens_marked(line));
    } else {
        assert(lines_tokens(new) =~= tokens_marked(lines_tokens(lines)));
    }
}

proof fn lemma_branches_marked(branches: Seq<Sp<FuncV>>)
    ensures
        branches_tokens(marked_branches(branches)) == tokens_marked(branches_tokens(branches)),
    decreases branches,
{
    let new = marked_branches(branches);
    if branches.len() > 0 {
        let rest = branches.drop_last();
        let last = branches.last();
        let lines = last.value.lines;
        let open = Token::Branch(
            Sp { value: FuncV { lines: Seq::empty(), ..last.value }, span: last.span },
        );
        let branch = seq![open] + lines_tokens(lines) + seq![Token::Close];
        lemma_branches_marked(rest);
        lemma_lines_marked(lines);
        lemma_marked_between(open, lines_tokens(lines), Token::Close);
        assert(new.drop_last() =~= marked_branches(rest));
        assert(tokens_marked(branches_tokens(rest) + branch) =~= tokens_marked(
            branches_tokens(rest),
        ) + tokens_marked(branch));
    } else {
        assert(branches_tokens(new) =~= tokens_marked(branches_tokens(branches)));
    }
}

/// Placeholders are run from the last to the first, and the first that fails ends the run.
pub proof fn law_placeholders_run_backwards(
    a: Seq<Sp<PlaceholderOp>>,
    b: Seq<Sp<PlaceholderOp>>,
    s: OperandsV,
)
    ensures
        placeholder_run(a + b, s) == match placeholder_run(b, s) {
            Ok(next) => placeholder_run(a, next),
            Err(at) => Err(at),
        },
    decreases b.len(),
{
    if b.len() == 0 {
        assert(a + b =~= a);
    } else {
        assert((a + b).drop_last() =~= a + b.drop_last());
        match placeholder_step(b.last().value, s) {
            Some(next) => law_placeholders_run_backwards(a, b.drop_last(), next),
            None => {},
        }
    }
}

/// A placeholder fails, at its place, where there are too few operands for it: none for one that
/// stands for an operand or duplicates one, and less than two for the others.
pub proof fn law_placeholder_fails(op: Sp<PlaceholderOp>, s: OperandsV)
    ensures
        placeholder_run(seq![op], s) is Err <==> s.stack.len() < if op.value == PlaceholderOp::Call
            || op.value == PlaceholderOp::Dup {
            1nat
        } else {
            2nat
        },
        placeholder_run(seq![op], s) is Err ==> placeholder_run(seq![op], s) == Err::<
            OperandsV,
            CodeSpan,
        >(op.span),
{
    reveal_with_fuel(placeholder_run, 2);
    assert(seq![op].drop_last() =~= Seq::empty());
}

/// What each placeholder does to operands, told by which operands are taken after it: a duplicate
/// lets the top operand be taken twice, a flip lets the second be taken before the first, and an
/// over lets the second be taken before and after the first. The operands below stay, and so do
/// those that were taken before.
pub proof fn law_placeholders_arrange(
    below: Seq<Sp<WordV>>,
    second: Sp<WordV>,
    first: Sp<WordV>,
    taken: Seq<Sp<WordV>>,
    at: CodeSpan,
)
    ensures
        ({
            let call = Sp { value: PlaceholderOp::Call, span: at };
            let dup = Sp { value: PlaceholderOp::Dup, span: at };
            let flip = Sp { value: PlaceholderOp::Flip, span: at };
            let over = Sp { value: PlaceholderOp::Over, span: at };
            let one = OperandsV { stack: below.push(first), taken };
            let two = OperandsV { stack: below.push(second).push(first), taken };
            &&& placeholder_run(seq![call], one) == Ok::<OperandsV, CodeSpan>(
                OperandsV { stack: below, taken: taken + seq![first] },
            )
            &&& placeholder_run(seq![call, call, dup], one) == Ok::<OperandsV, CodeSpan>(
                OperandsV { stack: below, taken: taken + seq![first, first] },
            )
            &&& placeholder_run(seq![call, call, flip], two) == Ok::<OperandsV, CodeSpan>(
                OperandsV { stack: below, taken: taken + seq![second, first] },
            )
            &&& placeholder_run(seq![call, call, call, over], two) == Ok::<OperandsV, CodeSpan>(
                OperandsV { stack: below, taken: taken + seq![second, first, second] },
            )
        }),
{
    let call = Sp { value: PlaceholderOp::Call, span: at };
    let dup = Sp { value: PlaceholderOp::Dup, span: at };
    let flip = Sp { value: PlaceholderOp::Flip, span: at };
    let over = Sp { value: PlaceholderOp::Over, span: at };
    let one = OperandsV { stack: below.push(first), taken };
    let two = OperandsV { stack: below.push(second).push(first), taken };
    reveal_with_fuel(placeholder_run, 5);
    assert(seq![call].drop_last() =~= Seq::empty());
    assert(below.push(first).drop_last() =~= below);
    assert(taken.push(first) =~= taken + seq![first]);
    assert(placeholder_run(seq![call], one) == Ok::<OperandsV, CodeSpan>(
        OperandsV { stack: below, taken: taken + seq![first] },
    ));
    let calls_two = seq![call, call];
    assert(calls_two.drop_last() =~= seq![call]);
    assert(seq![call, call, dup].drop_last() =~= calls_two);
    assert(below.push(first).push(first).drop_last() =~= below.push(first));
    assert(taken.push(first).push(first) =~= taken + seq![first, first]);
    assert(placeholder_run(seq![call, call, dup], one) == Ok::<OperandsV, CodeSpan>(
        OperandsV { stack: below, taken: taken + seq![first, first] },
    ));
    assert(seq![call, call, flip].drop_last() =~= calls_two);
    assert(below.push(second).push(first).take(below.len() as int) =~= below);
    assert(below.push(first).push(second).drop_last() =~= below.push(first));
    assert(taken.push(second).push(first) =~= taken + seq![second, first]);
    assert(placeholder_run(seq![call, call, flip], two) == Ok::<OperandsV, CodeSpan>(
        OperandsV { stack: below, taken: taken + seq![second, first] },
    ));
    let calls_three = seq![call, call, call];
    assert(calls_three.drop_last() =~= calls_two);
    assert(seq![call, call, call, over].drop_last() =~= calls_three);
    let three = below.push(second).push(first).push(second);
    assert(three.drop_last() =~= below.push(second).push(first));
    assert(below.push(second).push(first).drop_last() =~= below.push(second));
    assert(below.push(second).drop_last() =~= below);
    assert(taken.push(second).push(first).push(second) =~= taken + seq![second, first, second]);
    assert(placeholder_run(seq![call, call, call, over], two) == Ok::<OperandsV, CodeSpan>(
        OperandsV { stack: below, taken: taken + seq![second, first, second] },
    ));
}

/// The words that are shown are shown one after the other: a function at the top is shown as the
/// words in it, line by line, and every other word as it is.
pub proof fn law_shown_in_order(a: Seq<Sp<WordV>>, b: Seq<Sp<WordV>>, word: Sp<WordV>)
    ensures
        shown_words(a + b) == shown_words(a) + shown_words(b),
        shown_words(seq![word]) == match word.value {
            WordV::Func(func) => func.lines.flatten(),
            _ => seq![word],
        },
    decreases b.len(),
{
    assert(seq![word].drop_last() =~= Seq::empty());
    assert(shown_words(seq![word].drop_last()) =~= Seq::empty());
    assert(shown_words(seq![word]) =~= match word.value {
        WordV::Func(func) => func.lines.flatten(),
        _ => seq![word],
    });
    if b.len() == 0 {
        assert(a + b =~= a);
        assert(shown_words(a) + shown_words(b) =~= shown_words(a));
    } else {
        assert((a + b).drop_last() =~= a + b.drop_last());
        law_shown_in_order(a, b.drop_last(), word);
        assert(shown_words(a + b) =~= shown_words(a) + shown_words(b));
    }
}

/// Where every placeholder of a macro stands for an operand and there are as many of them as
/// operands that are code, the macro is expanded: its words are as they were, as they are read, but
/// for the placeholders, which the operands stand in place of, in order. The references in the
/// operands are marked. The text of the expansion is noted under the name of the macro, for the
/// place from the macro to its last operand, and nothing else has changed.
pub proof fn law_expansion_in_order<T: Toolchain>(
    t: &T,
    v: CompilerV,
    name: String,
    words: Seq<Sp<WordV>>,
    operands: Seq<Sp<WordV>>,
    span: CodeSpan,
    w: CompilerV,
    expanded: Seq<Sp<WordV>>,
    res: UiuaResult<()>,
)
    requires
        macro_expanded(t, v, name, words, operands, span, w, expanded, res),
        ops_read(words_tokens(words)).len() == code_words(marked_words(operands)).len(),
        forall|i: int|
            0 <= i < ops_read(words_tokens(words)).len() ==> (#[trigger] ops_read(
                words_tokens(words),
            )[i]).value == PlaceholderOp::Call,
    ensures
        res is Ok,
        words_tokens(expanded) == tokens_put(
            words_tokens(words),
            code_words(marked_words(operands)),
            0,
        ),
        exists|text: String| #[trigger]
            did_format_words(t, shown_words(expanded), v.assembly.inputs, text) && w == (CompilerV {
                expansions: v.expansions.insert(
                    merged(span, operands.last().span),
                    Expansion { name, text },
                ),
                ..v
            }),
{
    let ops = words_ops(words);
    let given = code_words(marked_words(operands));
    law_placeholders_in_order(words);
    law_operands_in_order(ops, given);
    law_filling_in_order(words, given, 0);
}

/// A macro is expanded unless a placeholder has not enough operands. Then it fails at the place of
/// a placeholder, and nothing has changed. Operands that are left are warned about once, with their
/// number and for the place from the first to the last of them. The text of the expansion is noted.
pub proof fn law_expansion_complains<T: Toolchain>(
    t: &T,
    v: CompilerV,
    name: String,
    words: Seq<Sp<WordV>>,
    operands: Seq<Sp<WordV>>,
    span: CodeSpan,
    w: CompilerV,
    expanded: Seq<Sp<WordV>>,
    res: UiuaResult<()>,
)
    requires
        macro_expanded(t, v, name, words, operands, span, w, expanded, res),
    ensures
        ({
            let start = OperandsV {
                stack: code_words(marked_words(operands)),
                taken: Seq::empty(),
            };
            match placeholder_run(ops_read(words_tokens(words)), start) {
                Err(at) => {
                    &&& w == v
                    &&& expanded == words
                    &&& res == Err::<(), UiuaError>(
                        UiuaError::Fatal { span: at, message: Message::OperandStackEmpty },
                    )
                },
                Ok(end) => {
                    &&& res is Ok
                    &&& words_tokens(expanded) == tokens_put(
                        words_tokens(words),
                        end.taken.reverse(),
                        0,
                    )
                    &&& w.diagnostics == if end.stack.len() == 0 {
                        v.diagnostics
                    } else {
                        v.diagnostics.push(
                            Diagnostic {
                                message: Message::OperandsLeft { count: end.stack.len() as usize },
                                kind: DiagnosticKind::Warning,
                                span: merged(end.stack.first().span, end.stack.last().span),
                            },
                        )
                    }
                    &&& exists|text: String| #[trigger]
                        did_format_words(t, shown_words(expanded), v.assembly.inputs, text)
                            && w.expansions == v.expansions.insert(
                            merged(span, operands.last().span),
                            Expansion { name, text },
                        )
                    &&& w == (CompilerV {
                        expansions: w.expansions,
                        diagnostics: w.diagnostics,
                        ..v
                    })
                },
            }
        }),
{
    law_placeholders_in_order(words);
    match placeholder_run(words_ops(words), macro_operands(operands)) {
        Ok(end) => law_filling_in_order(words, end.taken.reverse(), 0),
        Err(_) => {},
    }
}

} // verus!
