//! The placeholders in a macro and the operands that they stand for.
use crate::span::Sp;
use crate::word::{
    clone_func, clone_modifier, clone_sp, clone_word, branches_view, func_view, lines_view, sp_view,
    word_view, words_view, Arr, ArrV, Func, FuncV, Modified, ModifiedV, PlaceholderOp, Ref, RefV,
    Switch, SwitchV, Word, WordV,
};
use vstd::prelude::*;

verus! {

// Marking operands

/// A word in which every reference is marked as part of an operand of a macro.
pub open spec fn marked_word(word: WordV) -> WordV
    decreases word,
{
    match word {
        WordV::Ref(r) => WordV::Ref(RefV { in_macro_arg: true, ..r }),
        WordV::Strand(items) => WordV::Strand(marked_words(items)),
        WordV::Array(arr) => WordV::Array(ArrV { lines: marked_lines(arr.lines), ..arr }),
        WordV::Func(func) => WordV::Func(FuncV { lines: marked_lines(func.lines), ..func }),
        WordV::Switch(sw) => WordV::Switch(
            SwitchV { branches: marked_branches(sw.branches), ..sw },
        ),
        WordV::Modified(m) => WordV::Modified(
            Box::new(ModifiedV { operands: marked_words(m.operands), ..*m }),
        ),
        _ => word,
    }
}

/// Words in which every reference is marked as part of an operand of a macro.
pub open spec fn marked_words(words: Seq<Sp<WordV>>) -> Seq<Sp<WordV>>
    decreases words,
{
    Seq::new(
        words.len(),
        |i: int|
            if 0 <= i < words.len() {
                Sp { value: marked_word(words[i].value), span: words[i].span }
            } else {
                arbitrary()
            },
    )
}

/// The same for lines of words.
pub open spec fn marked_lines(lines: Seq<Seq<Sp<WordV>>>) -> Seq<Seq<Sp<WordV>>>
    decreases lines,
{
    Seq::new(
        lines.len(),
        |i: int|
            if 0 <= i < lines.len() {
                marked_words(lines[i])
            } else {
                arbitrary()
            },
    )
}

/// The same for the branches of a pack.
pub open spec fn marked_branches(branches: Seq<Sp<FuncV>>) -> Seq<Sp<FuncV>>
    decreases branches,
{
    Seq::new(
        branches.len(),
        |i: int|
            if 0 <= i < branches.len() {
                Sp {
                    value: FuncV {
                        lines: marked_lines(branches[i].value.lines),
                        ..branches[i].value
                    },
                    span: branches[i].span,
                }
            } else {
                arbitrary()
            },
    )
}

fn mark_word(word: &Word) -> (res: Word)
    ensures
        res@ == marked_word(word@),
    decreases word,
{
    match word {
        Word::Ref(r) => {
            let copy = r.clone();
            Word::Ref(Ref { path: copy.path, name: copy.name, in_macro_arg: true, args: copy.args })
        },
        Word::Strand(items) => Word::Strand(mark_words(items)),
        Word::Array(arr) => Word::Array(
            Arr { boxes: arr.boxes, lines: mark_lines(&arr.lines), closed: arr.closed },
        ),
        Word::Func(func) => Word::Func(mark_func(func)),
        Word::Switch(sw) => Word::Switch(
            Switch { branches: mark_branches(&sw.branches), angled: sw.angled },
        ),
        Word::Modified(m) => Word::Modified(
            Box::new(
                Modified {
                    modifier: clone_modifier(&m.modifier),
                    operands: mark_words(&m.operands),
                },
            ),
        ),
        _ => clone_word(word),
    }
}

fn mark_func(func: &Func) -> (res: Func)
    ensures
        res@ == (FuncV { lines: marked_lines(func@.lines), ..func@ }),
    decreases func,
{
    let copy = clone_func(func);
    Func {
        id: copy.id,
        signature: copy.signature,
        lines: mark_lines(&func.lines),
        closed: copy.closed,
    }
}

fn mark_words(words: &Vec<Sp<Word>>) -> (res: Vec<Sp<Word>>)
    ensures
        words_view(res@) == marked_words(words_view(words@)),
    decreases words,
{
    let mut res: Vec<Sp<Word>> = Vec::new();
    for i in 0..words.len()
        invariant
            res.len() == i,
            forall|j: int|
                0 <= j < i ==> word_view(#[trigger] res@[j].value) == marked_word(
                    word_view(words@[j].value),
                ) && res@[j].span == words@[j].span,
    {
        res.push(Sp { value: mark_word(&words[i].value), span: words[i].span.clone() });
    }
    assert(words_view(res@) =~= marked_words(words_view(words@)));
    res
}

fn mark_lines(lines: &Vec<Vec<Sp<Word>>>) -> (res: Vec<Vec<Sp<Word>>>)
    ensures
        lines_view(res@) == marked_lines(lines_view(lines@)),
    decreases lines,
{
    let mut res: Vec<Vec<Sp<Word>>> = Vec::new();
    for i in 0..lines.len()
        invariant
            res.len() == i,
            forall|j: int|
                0 <= j < i ==> words_view(#[trigger] res@[j]@) == marked_words(
                    words_view(lines@[j]@),
                ),
    {
        res.push(mark_words(&lines[i]));
    }
    assert(lines_view(res@) =~= marked_lines(lines_view(lines@)));
    res
}

fn mark_branches(branches: &Vec<Sp<Func>>) -> (res: Vec<Sp<Func>>)
    ensures
        branches_view(res@) == marked_branches(branches_view(branches@)),
    decreases branches,
{
    let mut res: Vec<Sp<Func>> = Vec::new();
    for i in 0..branches.len()
        invariant
            res.len() == i,
            forall|j: int|
                0 <= j < i ==> func_view(#[trigger] res@[j].value) == (FuncV {
                    lines: marked_lines(func_view(branches@[j].value).lines),
                    ..func_view(branches@[j].value)
                }) && res@[j].span == branches@[j].span,
    {
        res.push(Sp { value: mark_func(&branches[i].value), span: branches[i].span.clone() });
    }
    assert(branches_view(res@) =~= marked_branches(branches_view(branches@)));
    res
}

/// Marks every reference in some words as part of an operand of a macro.
pub fn set_in_macro_arg(words: &mut Vec<Sp<Word>>)
    ensures
        words_view(final(words)@) == marked_words(words_view(old(words)@)),
{
    *words = mark_words(words);
}

// Collecting placeholders

/// The placeholders in a word, in order.
pub open spec fn word_ops(word: Sp<WordV>) -> Seq<Sp<PlaceholderOp>>
    decreases word.value,
{
    match word.value {
        WordV::Placeholder(op) => seq![Sp { value: op, span: word.span }],
        WordV::Strand(items) => words_ops(items),
        WordV::Array(arr) => lines_ops(arr.lines),
        WordV::Func(func) => lines_ops(func.lines),
        WordV::Switch(sw) => branches_ops(sw.branches),
        WordV::Modified(m) => words_ops(m.operands),
        _ => Seq::empty(),
    }
}

/// The placeholders in some words, in order.
pub open spec fn words_ops(words: Seq<Sp<WordV>>) -> Seq<Sp<PlaceholderOp>>
    decreases words,
{
    if words.len() == 0 {
        Seq::empty()
    } else {
        words_ops(words.drop_last()) + word_ops(words.last())
    }
}

/// The placeholders in some lines of words, in order.
pub open spec fn lines_ops(lines: Seq<Seq<Sp<WordV>>>) -> Seq<Sp<PlaceholderOp>>
    decreases lines,
{
    if lines.len() == 0 {
        Seq::empty()
    } else {
        lines_ops(lines.drop_last()) + words_ops(lines.last())
    }
}

/// The placeholders in the branches of a pack, in order.
pub open spec fn branches_ops(branches: Seq<Sp<FuncV>>) -> Seq<Sp<PlaceholderOp>>
    decreases branches,
{
    if branches.len() == 0 {
        Seq::empty()
    } else {
        branches_ops(branches.drop_last()) + lines_ops(branches.last().value.lines)
    }
}

/// Adds the placeholders in a word to a list.
fn collect_word(word: &Sp<Word>, ops: &mut Vec<Sp<PlaceholderOp>>)
    ensures
        final(ops)@ == old(ops)@ + word_ops(sp_view(*word)),
    decreases word.value,
{
    let ghost before = ops@;
    match &word.value {
        Word::Placeholder(op) => {
            ops.push(Sp { value: *op, span: word.span.clone() });
            assert(ops@ =~= before + word_ops(sp_view(*word)));
        },
        Word::Strand(items) => collect_words(items, ops),
        Word::Array(arr) => collect_lines(&arr.lines, ops),
        Word::Func(func) => collect_lines(&func.lines, ops),
        Word::Switch(sw) => collect_branches(&sw.branches, ops),
        Word::Modified(m) => collect_words(&m.operands, ops),
        _ => {
            assert(ops@ =~= before + word_ops(sp_view(*word)));
        },
    }
}

fn collect_words(words: &Vec<Sp<Word>>, ops: &mut Vec<Sp<PlaceholderOp>>)
    ensures
        final(ops)@ == old(ops)@ + words_ops(words_view(words@)),
    decreases words,
{
    let ghost before = ops@;
    let ghost all = words_view(words@);
    assert(ops@ =~= before + words_ops(all.take(0)));
    for i in 0..words.len()
        invariant
            all == words_view(words@),
            ops@ == before + words_ops(all.take(i as int)),
    {
        collect_word(&words[i], ops);
        proof {
            assert(all.take(i + 1).drop_last() =~= all.take(i as int));
            assert(all[i as int] == sp_view(words@[i as int]));
            assert(ops@ =~= before + words_ops(all.take(i + 1)));
        }
    }
    assert(all.take(all.len() as int) =~= all);
}

fn collect_lines(lines: &Vec<Vec<Sp<Word>>>, ops: &mut Vec<Sp<PlaceholderOp>>)
    ensures
        final(ops)@ == old(ops)@ + lines_ops(lines_view(lines@)),
    decreases lines,
{
    let ghost before = ops@;
    let ghost all = lines_view(lines@);
    assert(ops@ =~= before + lines_ops(all.take(0)));
    for i in 0..lines.len()
        invariant
            all == lines_view(lines@),
            ops@ == before + lines_ops(all.take(i as int)),
    {
        collect_words(&lines[i], ops);
        proof {
            assert(all.take(i + 1).drop_last() =~= all.take(i as int));
            assert(ops@ =~= before + lines_ops(all.take(i + 1)));
        }
    }
    assert(all.take(all.len() as int) =~= all);
}

fn collect_branches(branches: &Vec<Sp<Func>>, ops: &mut Vec<Sp<PlaceholderOp>>)
    ensures
        final(ops)@ == old(ops)@ + branches_ops(branches_view(branches@)),
    decreases branches,
{
    let ghost before = ops@;
    let ghost all = branches_view(branches@);
    assert(ops@ =~= before + branches_ops(all.take(0)));
    for i in 0..branches.len()
        invariant
            all == branches_view(branches@),
            ops@ == before + branches_ops(all.take(i as int)),
    {
        collect_lines(&branches[i].value.lines, ops);
        proof {
            assert(all.take(i + 1).drop_last() =~= all.take(i as int));
            assert(ops@ =~= before + branches_ops(all.take(i + 1)));
        }
    }
    assert(all.take(all.len() as int) =~= all);
}

/// The placeholders in some words, in order.
pub fn collect_placeholder(words: &Vec<Sp<Word>>) -> (res: Vec<Sp<PlaceholderOp>>)
    ensures
        res@ == words_ops(words_view(words@)),
{
    let mut ops: Vec<Sp<PlaceholderOp>> = Vec::new();
    collect_words(words, &mut ops);
    assert(ops@ =~= words_ops(words_view(words@)));
    ops
}

// Filling placeholders

/// How many of some placeholders stand for an operand.
pub open spec fn calls(ops: Seq<Sp<PlaceholderOp>>) -> nat
    decreases ops.len(),
{
    if ops.len() == 0 {
        0
    } else {
        calls(ops.drop_last()) + if ops.last().value == PlaceholderOp::Call {
            1nat
        } else {
            0nat
        }
    }
}

/// The number of operands that two lists of placeholders stand for together.
pub proof fn lemma_calls_concat(a: Seq<Sp<PlaceholderOp>>, b: Seq<Sp<PlaceholderOp>>)
    ensures
        calls(a + b) == calls(a) + calls(b),
    decreases b.len(),
{
    if b.len() == 0 {
        assert(a + b =~= a);
    } else {
        assert((a + b).drop_last() =~= a + b.drop_last());
        lemma_calls_concat(a, b.drop_last());
    }
}

/// A word that is no placeholder, with the placeholders in it replaced: the first one that stands
/// for an operand by `with[k]`, the next by `with[k + 1]`, and so on. The others are left out.
pub open spec fn filled_word(word: WordV, with: Seq<Sp<WordV>>, k: nat) -> WordV
    decreases word,
{
    match word {
        WordV::Strand(items) => WordV::Strand(filled_words(items, with, k)),
        WordV::Array(arr) => WordV::Array(ArrV { lines: filled_lines(arr.lines, with, k), ..arr }),
        WordV::Func(func) => WordV::Func(
            FuncV { lines: filled_lines(func.lines, with, k), ..func },
        ),
        WordV::Switch(sw) => WordV::Switch(
            SwitchV { branches: filled_branches(sw.branches, with, k), ..sw },
        ),
        WordV::Modified(m) => WordV::Modified(
            Box::new(ModifiedV { operands: filled_words(m.operands, with, k), ..*m }),
        ),
        _ => word,
    }
}

/// Words with the placeholders in them replaced.
pub open spec fn filled_words(words: Seq<Sp<WordV>>, with: Seq<Sp<WordV>>, k: nat) -> Seq<
    Sp<WordV>,
>
    decreases words,
{
    if words.len() == 0 {
        Seq::empty()
    } else {
        let before = filled_words(words.drop_last(), with, k);
        let at = k + calls(words_ops(words.drop_last()));
        match words.last().value {
            WordV::Placeholder(op) => if op == PlaceholderOp::Call {
                before.push(with[at as int])
            } else {
                before
            },
            word => before.push(
                Sp { value: filled_word(words.last().value, with, at), span: words.last().span },
            ),
        }
    }
}

/// Lines of words with the placeholders in them replaced.
pub open spec fn filled_lines(lines: Seq<Seq<Sp<WordV>>>, with: Seq<Sp<WordV>>, k: nat) -> Seq<
    Seq<Sp<WordV>>,
>
    decreases lines,
{
    if lines.len() == 0 {
        Seq::empty()
    } else {
        filled_lines(lines.drop_last(), with, k).push(
            filled_words(lines.last(), with, k + calls(lines_ops(lines.drop_last()))),
        )
    }
}

/// The branches of a pack with the placeholders in them replaced.
pub open spec fn filled_branches(branches: Seq<Sp<FuncV>>, with: Seq<Sp<WordV>>, k: nat) -> Seq<
    Sp<FuncV>,
>
    decreases branches,
{
    if branches.len() == 0 {
        Seq::empty()
    } else {
        let last = branches.last();
        filled_branches(branches.drop_last(), with, k).push(
            Sp {
                value: FuncV {
                    lines: filled_lines(
                        last.value.lines,
                        with,
                        k + calls(branches_ops(branches.drop_last())),
                    ),
                    ..last.value
                },
                span: last.span,
            },
        )
    }
}

fn fill_word(word: &Sp<Word>, with: &Vec<Sp<Word>>, k: usize) -> (res: Word)
    requires
        k + calls(word_ops(sp_view(*word))) <= with@.len(),
        !(word.value is Placeholder),
    ensures
        res@ == filled_word(word.value@, words_view(with@), k as nat),
    decreases word.value,
{
    match &word.value {
        Word::Strand(items) => Word::Strand(fill_words(items, with, k)),
        Word::Array(arr) => Word::Array(
            Arr { boxes: arr.boxes, lines: fill_lines(&arr.lines, with, k), closed: arr.closed },
        ),
        Word::Func(func) => {
            let copy = clone_func(func);
            Word::Func(
                Func {
                    id: copy.id,
                    signature: copy.signature,
                    lines: fill_lines(&func.lines, with, k),
                    closed: copy.closed,
                },
            )
        },
        Word::Switch(sw) => Word::Switch(
            Switch { branches: fill_branches(&sw.branches, with, k), angled: sw.angled },
        ),
        Word::Modified(m) => Word::Modified(
            Box::new(
                Modified {
                    modifier: clone_modifier(&m.modifier),
                    operands: fill_words(&m.operands, with, k),
                },
            ),
        ),
        _ => clone_word(&word.value),
    }
}

/// How many operands the placeholders in a word stand for.
fn word_calls(word: &Sp<Word>) -> (res: usize)
    ensures
        res == calls(word_ops(sp_view(*word))),
{
    let mut ops: Vec<Sp<PlaceholderOp>> = Vec::new();
    collect_word(word, &mut ops);
    assert(ops@ =~= word_ops(sp_view(*word)));
    count_calls(&ops)
}

/// How many of some placeholders stand for an operand.
fn count_calls(ops: &Vec<Sp<PlaceholderOp>>) -> (res: usize)
    ensures
        res == calls(ops@),
{
    let mut n: usize = 0;
    for i in 0..ops.len()
        invariant
            n == calls(ops@.take(i as int)),
            n <= i,
    {
        assert(ops@.take(i + 1).drop_last() =~= ops@.take(i as int));
        if ops[i].value == PlaceholderOp::Call {
            n = n + 1;
        }
    }
    assert(ops@.take(ops@.len() as int) =~= ops@);
    n
}

/// The placeholders of the first words stand for no more operands than those of all.
proof fn lemma_calls_of_prefix(words: Seq<Sp<WordV>>, n: int)
    requires
        0 <= n < words.len(),
    ensures
        calls(words_ops(words.take(n + 1))) == calls(words_ops(words.take(n))) + calls(
            word_ops(words[n]),
        ),
        calls(words_ops(words.take(n + 1))) <= calls(words_ops(words)),
    decreases words.len() - n,
{
    assert(words.take(n + 1).drop_last() =~= words.take(n));
    lemma_calls_concat(words_ops(words.take(n)), word_ops(words[n]));
    if n + 1 < words.len() {
        lemma_calls_of_prefix(words, n + 1);
    } else {
        assert(words.take(n + 1) =~= words);
    }
}

proof fn lemma_calls_of_line_prefix(lines: Seq<Seq<Sp<WordV>>>, n: int)
    requires
        0 <= n < lines.len(),
    ensures
        calls(lines_ops(lines.take(n + 1))) == calls(lines_ops(lines.take(n))) + calls(
            words_ops(lines[n]),
        ),
        calls(lines_ops(lines.take(n + 1))) <= calls(lines_ops(lines)),
    decreases lines.len() - n,
{
    assert(lines.take(n + 1).drop_last() =~= lines.take(n));
    lemma_calls_concat(lines_ops(lines.take(n)), words_ops(lines[n]));
    if n + 1 < lines.len() {
        lemma_calls_of_line_prefix(lines, n + 1);
    } else {
        assert(lines.take(n + 1) =~= lines);
    }
}

proof fn lemma_calls_of_branch_prefix(branches: Seq<Sp<FuncV>>, n: int)
    requires
        0 <= n < branches.len(),
    ensures
        calls(branches_ops(branches.take(n + 1))) == calls(branches_ops(branches.take(n))) + calls(
            lines_ops(branches[n].value.lines),
        ),
        calls(branches_ops(branches.take(n + 1))) <= calls(branches_ops(branches)),
    decreases branches.len() - n,
{
    assert(branches.take(n + 1).drop_last() =~= branches.take(n));
    lemma_calls_concat(branches_ops(branches.take(n)), lines_ops(branches[n].value.lines));
    if n + 1 < branches.len() {
        lemma_calls_of_branch_prefix(branches, n + 1);
    } else {
        assert(branches.take(n + 1) =~= branches);
    }
}

fn fill_words(words: &Vec<Sp<Word>>, with: &Vec<Sp<Word>>, k: usize) -> (res: Vec<Sp<Word>>)
    requires
        k + calls(words_ops(words_view(words@))) <= with@.len(),
    ensures
        words_view(res@) == filled_words(words_view(words@), words_view(with@), k as nat),
    decreases words,
{
    let ghost all = words_view(words@);
    let ghost items = words_view(with@);
    let mut res: Vec<Sp<Word>> = Vec::new();
    let mut at: usize = k;
    assert(words_view(res@) =~= filled_words(all.take(0), items, k as nat));
    for i in 0..words.len()
        invariant
            all == words_view(words@),
            items == words_view(with@),
            k + calls(words_ops(all)) <= with@.len(),
            at == k + calls(words_ops(all.take(i as int))),
            words_view(res@) == filled_words(all.take(i as int), items, k as nat),
    {
        let ghost before = words_view(res@);
        let ghost next = all.take(i + 1);
        proof {
            lemma_calls_of_prefix(all, i as int);
            assert(next.drop_last() =~= all.take(i as int));
            assert(next.last() == sp_view(words@[i as int]));
        }
        match &words[i].value {
            Word::Placeholder(op) => {
                assert(word_ops(next.last()) =~= seq![Sp { value: *op, span: next.last().span }]);
                proof {
                    let one = seq![Sp { value: *op, span: next.last().span }];
                    assert(one.drop_last() =~= Seq::empty());
                    assert(calls(one.drop_last()) == 0);
                    assert(calls(one) == if *op == PlaceholderOp::Call {
                        1nat
                    } else {
                        0nat
                    });
                }
                if *op == PlaceholderOp::Call {
                    res.push(clone_sp(&with[at]));
                    assert(words_view(res@) =~= before.push(items[at as int]));
                    assert(with.len() == with@.len());
                    at = at + 1;
                }
            },
            _ => {
                let n: usize = word_calls(&words[i]);
                let value = fill_word(&words[i], with, at);
                res.push(Sp { value, span: words[i].span.clone() });
                assert(words_view(res@) =~= before.push(
                    Sp {
                        value: filled_word(all[i as int].value, items, at as nat),
                        span: all[i as int].span,
                    },
                ));
                assert(with.len() == with@.len());
                at = at + n;
            },
        }
    }
    assert(all.take(all.len() as int) =~= all);
    res
}

fn fill_lines(lines: &Vec<Vec<Sp<Word>>>, with: &Vec<Sp<Word>>, k: usize) -> (res: Vec<
    Vec<Sp<Word>>,
>)
    requires
        k + calls(lines_ops(lines_view(lines@))) <= with@.len(),
    ensures
        lines_view(res@) == filled_lines(lines_view(lines@), words_view(with@), k as nat),
    decreases lines,
{
    let ghost all = lines_view(lines@);
    let ghost items = words_view(with@);
    let mut res: Vec<Vec<Sp<Word>>> = Vec::new();
    let mut at: usize = k;
    assert(lines_view(res@) =~= filled_lines(all.take(0), items, k as nat));
    for i in 0..lines.len()
        invariant
            all == lines_view(lines@),
            items == words_view(with@),
            k + calls(lines_ops(all)) <= with@.len(),
            at == k + calls(lines_ops(all.take(i as int))),
            lines_view(res@) == filled_lines(all.take(i as int), items, k as nat),
    {
        let ghost before = lines_view(res@);
        let ghost next = all.take(i + 1);
        proof {
            lemma_calls_of_line_prefix(all, i as int);
            assert(next.drop_last() =~= all.take(i as int));
        }
        let ops = collect_placeholder(&lines[i]);
        let n: usize = count_calls(&ops);
        res.push(fill_words(&lines[i], with, at));
        assert(lines_view(res@) =~= before.push(filled_words(all[i as int], items, at as nat)));
        assert(with.len() == with@.len());
        at = at + n;
    }
    assert(all.take(all.len() as int) =~= all);
    res
}

fn fill_branches(branches: &Vec<Sp<Func>>, with: &Vec<Sp<Word>>, k: usize) -> (res: Vec<Sp<Func>>)
    requires
        k + calls(branches_ops(branches_view(branches@))) <= with@.len(),
    ensures
        branches_view(res@) == filled_branches(
            branches_view(branches@),
            words_view(with@),
            k as nat,
        ),
    decreases branches,
{
    let ghost all = branches_view(branches@);
    let ghost items = words_view(with@);
    let mut res: Vec<Sp<Func>> = Vec::new();
    let mut at: usize = k;
    assert(branches_view(res@) =~= filled_branches(all.take(0), items, k as nat));
    for i in 0..branches.len()
        invariant
            all == branches_view(branches@),
            items == words_view(with@),
            k + calls(branches_ops(all)) <= with@.len(),
            at == k + calls(branches_ops(all.take(i as int))),
            branches_view(res@) == filled_branches(all.take(i as int), items, k as nat),
    {
        let ghost before = branches_view(res@);
        let ghost next = all.take(i + 1);
        proof {
            lemma_calls_of_branch_prefix(all, i as int);
            assert(next.drop_last() =~= all.take(i as int));
            assert(all[i as int].value == func_view(branches@[i as int].value));
        }
        let mut ops: Vec<Sp<PlaceholderOp>> = Vec::new();
        collect_lines(&branches[i].value.lines, &mut ops);
        assert(ops@ =~= lines_ops(all[i as int].value.lines));
        let n: usize = count_calls(&ops);
        let copy = clone_func(&branches[i].value);
        let value = Func {
            id: copy.id,
            signature: copy.signature,
            lines: fill_lines(&branches[i].value.lines, with, at),
            closed: copy.closed,
        };
        let ghost filled = FuncV {
            lines: filled_lines(all[i as int].value.lines, items, at as nat),
            ..all[i as int].value
        };
        assert(func_view(value) == filled);
        res.push(Sp { value, span: branches[i].span.clone() });
        assert(branches_view(res@) =~= before.push(Sp { value: filled, span: all[i as int].span }));
        assert(with.len() == with@.len());
        at = at + n;
    }
    assert(all.take(all.len() as int) =~= all);
    res
}

/// Replaces the placeholders in some words: the first one that stands for an operand by the first
/// of the given words, the next by the second, and so on. The others are taken out.
pub fn replace_placeholders(words: &mut Vec<Sp<Word>>, with: &Vec<Sp<Word>>)
    requires
        calls(words_ops(words_view(old(words)@))) <= with@.len(),
    ensures
        words_view(final(words)@) == filled_words(words_view(old(words)@), words_view(with@), 0),
{
    *words = fill_words(words, with, 0);
}

} // verus!
