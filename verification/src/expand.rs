//! The expansion of macros word by word.
//!
//! The placeholders of a macro work on a stack that starts out with the operands of the macro,
//! the last one on top. They are run from the last to the first. Each one that stands for an
//! operand takes the top one, and is replaced by it.
use crate::compiler::{with_diagnostic, Compiler, CompilerV};
use crate::keeping::{lemma_kept_aside, place_kept};
use crate::message::{DiagnosticKind, Message, UiuaError, UiuaResult};
use crate::placeholder::{
    branches_ops, calls, collect_placeholder, filled_branches, filled_lines, filled_word,
    filled_words, lemma_calls_concat, lines_ops, marked_words, replace_placeholders,
    set_in_macro_arg, word_ops, words_ops,
};
use crate::span::{merged, CodeSpan, Sp};
use crate::table::Expansion;
use crate::toolchain::{did_format_words, Toolchain};
use crate::word::{
    clone_sp, code_words, is_code, lemma_code_words_step, lines_view, sp_view, words_view, FuncV,
    PlaceholderOp, Word, WordV,
};
use vstd::prelude::*;

verus! {

/// Where a run of placeholders has got to: the operands that are left, with the top last, and
/// those that were taken, in the order in which they were taken.
#[verifier::ext_equal]
pub struct OperandsV {
    pub stack: Seq<Sp<WordV>>,
    pub taken: Seq<Sp<WordV>>,
}

/// What one placeholder does, where there are enough operands for it.
pub open spec fn placeholder_step(op: PlaceholderOp, s: OperandsV) -> Option<OperandsV> {
    let n = s.stack.len() as int;
    match op {
        PlaceholderOp::Call => if n < 1 {
            None
        } else {
            Some(OperandsV { stack: s.stack.drop_last(), taken: s.taken.push(s.stack.last()) })
        },
        PlaceholderOp::Dup => if n < 1 {
            None
        } else {
            Some(OperandsV { stack: s.stack.push(s.stack.last()), ..s })
        },
        PlaceholderOp::Flip => if n < 2 {
            None
        } else {
            Some(
                OperandsV {
                    stack: s.stack.take(n - 2).push(s.stack[n - 1]).push(s.stack[n - 2]),
                    ..s
                },
            )
        },
        PlaceholderOp::Over => if n < 2 {
            None
        } else {
            Some(OperandsV { stack: s.stack.push(s.stack[n - 2]), ..s })
        },
    }
}

/// What some placeholders do, from the last to the first: what is left in the end, or the place of
/// the first one that has not enough operands.
pub open spec fn placeholder_run(ops: Seq<Sp<PlaceholderOp>>, s: OperandsV) -> Result<
    OperandsV,
    CodeSpan,
>
    decreases ops.len(),
{
    if ops.len() == 0 {
        Ok(s)
    } else {
        match placeholder_step(ops.last().value, s) {
            Some(next) => placeholder_run(ops.drop_last(), next),
            None => Err(ops.last().span),
        }
    }
}

/// The words that are shown for the expansion of a macro: functions at the top are opened.
pub open spec fn shown_words(words: Seq<Sp<WordV>>) -> Seq<Sp<WordV>>
    decreases words.len(),
{
    if words.len() == 0 {
        Seq::empty()
    } else {
        shown_words(words.drop_last()) + match words.last().value {
            WordV::Func(func) => func.lines.flatten(),
            word => seq![words.last()],
        }
    }
}

/// A compiler that has noted the expansion of a macro at a place.
pub open spec fn with_expansion(
    v: CompilerV,
    span: CodeSpan,
    name: String,
    text: String,
) -> CompilerV {
    CompilerV { expansions: v.expansions.insert(span, Expansion { name, text }), ..v }
}

/// A compiler that has complained about operands that a macro did not use.
pub open spec fn operands_left_noted(v: CompilerV, left: Seq<Sp<WordV>>) -> CompilerV {
    if left.len() == 0 {
        v
    } else {
        with_diagnostic(
            v,
            Message::OperandsLeft { count: left.len() as usize },
            DiagnosticKind::Warning,
            merged(left.first().span, left.last().span),
        )
    }
}

/// Where the operands of a macro start out.
pub open spec fn macro_operands(operands: Seq<Sp<WordV>>) -> OperandsV {
    OperandsV { stack: code_words(marked_words(operands)), taken: Seq::empty() }
}

/// What `expand_macro` did: it went from compiler `v` and the words of the macro to compiler `w`
/// and `expanded`.
pub open spec fn macro_expanded<T: Toolchain>(
    t: &T,
    v: CompilerV,
    name: String,
    words: Seq<Sp<WordV>>,
    operands: Seq<Sp<WordV>>,
    span: CodeSpan,
    w: CompilerV,
    expanded: Seq<Sp<WordV>>,
    res: UiuaResult<()>,
) -> bool {
    match placeholder_run(words_ops(words), macro_operands(operands)) {
        Err(at) => {
            &&& res == Err::<(), UiuaError>(
                UiuaError::Fatal { span: at, message: Message::OperandStackEmpty },
            )
            &&& w == v
            &&& expanded == words
        },
        Ok(end) => {
            &&& res is Ok
            &&& expanded == filled_words(words, end.taken.reverse(), 0)
            &&& exists|text: String| #[trigger]
                did_format_words(t, shown_words(expanded), v.assembly.inputs, text) && w
                    == with_expansion(
                    operands_left_noted(v, end.stack),
                    merged(span, operands.last().span),
                    name,
                    text,
                )
        },
    }
}

/// A run that does not fail takes as many operands as there are placeholders that stand for one.
pub proof fn law_run_takes_calls(ops: Seq<Sp<PlaceholderOp>>, s: OperandsV)
    ensures
        placeholder_run(ops, s) matches Ok(end) ==> end.taken.len() == s.taken.len() + calls(ops),
    decreases ops.len(),
{
    if ops.len() > 0 {
        match placeholder_step(ops.last().value, s) {
            Some(next) => law_run_takes_calls(ops.drop_last(), next),
            None => {},
        }
    }
}

/// Where every placeholder stands for an operand and there are as many of them as operands, the
/// run does not fail, uses up all operands, and the operands stand in the place of the
/// placeholders in order.
pub proof fn law_operands_in_order(ops: Seq<Sp<PlaceholderOp>>, operands: Seq<Sp<WordV>>)
    requires
        ops.len() == operands.len(),
        forall|i: int| 0 <= i < ops.len() ==> (#[trigger] ops[i]).value == PlaceholderOp::Call,
    ensures
        placeholder_run(ops, OperandsV { stack: operands, taken: Seq::empty() }) matches Ok(end)
            && end.stack.len() == 0 && end.taken.reverse() == operands,
{
    lemma_takes_in_order(ops, operands, Seq::empty());
    let end = placeholder_run(ops, OperandsV { stack: operands, taken: Seq::empty() })->Ok_0;
    assert(Seq::empty() + operands.reverse() =~= operands.reverse());
    assert(operands.reverse().reverse() =~= operands);
}

proof fn lemma_takes_in_order(
    ops: Seq<Sp<PlaceholderOp>>,
    operands: Seq<Sp<WordV>>,
    taken: Seq<Sp<WordV>>,
)
    requires
        ops.len() == operands.len(),
        forall|i: int| 0 <= i < ops.len() ==> (#[trigger] ops[i]).value == PlaceholderOp::Call,
    ensures
        placeholder_run(ops, OperandsV { stack: operands, taken }) matches Ok(end)
            && end.stack.len() == 0 && end.taken == taken + operands.reverse(),
    decreases ops.len(),
{
    if ops.len() == 0 {
        assert(taken + operands.reverse() =~= taken);
    } else {
        assert(ops[ops.len() - 1].value == PlaceholderOp::Call);
        let rest = operands.drop_last();
        lemma_takes_in_order(ops.drop_last(), rest, taken.push(operands.last()));
        assert(taken.push(operands.last()) + rest.reverse() =~= taken + operands.reverse());
    }
}

/// Words without placeholders stay as they are.
pub proof fn law_filling_nothing(words: Seq<Sp<WordV>>, with: Seq<Sp<WordV>>, k: nat)
    requires
        words_ops(words).len() == 0,
    ensures
        filled_words(words, with, k) == words,
    decreases words,
{
    if words.len() > 0 {
        let rest = words.drop_last();
        let last = words.last();
        assert(words_ops(words) == words_ops(rest) + word_ops(last));
        law_filling_nothing(rest, with, k);
        lemma_word_unfilled(last, with, k + calls(words_ops(rest)));
        assert(filled_words(words, with, k) =~= words);
    } else {
        assert(filled_words(words, with, k) =~= words);
    }
}

proof fn lemma_word_unfilled(word: Sp<WordV>, with: Seq<Sp<WordV>>, k: nat)
    requires
        word_ops(word).len() == 0,
    ensures
        !(word.value is Placeholder),
        filled_word(word.value, with, k) == word.value,
    decreases word.value,
{
    match word.value {
        WordV::Strand(items) => law_filling_nothing(items, with, k),
        WordV::Array(arr) => lemma_lines_unfilled(arr.lines, with, k),
        WordV::Func(func) => lemma_lines_unfilled(func.lines, with, k),
        WordV::Switch(sw) => lemma_branches_unfilled(sw.branches, with, k),
        WordV::Modified(m) => law_filling_nothing(m.operands, with, k),
        _ => {},
    }
}

proof fn lemma_lines_unfilled(lines: Seq<Seq<Sp<WordV>>>, with: Seq<Sp<WordV>>, k: nat)
    requires
        lines_ops(lines).len() == 0,
    ensures
        filled_lines(lines, with, k) == lines,
    decreases lines,
{
    if lines.len() > 0 {
        let rest = lines.drop_last();
        assert(lines_ops(lines) == lines_ops(rest) + words_ops(lines.last()));
        lemma_lines_unfilled(rest, with, k);
        law_filling_nothing(lines.last(), with, k + calls(lines_ops(rest)));
    }
    assert(filled_lines(lines, with, k) =~= lines);
}

proof fn lemma_branches_unfilled(branches: Seq<Sp<FuncV>>, with: Seq<Sp<WordV>>, k: nat)
    requires
        branches_ops(branches).len() == 0,
    ensures
        filled_branches(branches, with, k) == branches,
    decreases branches,
{
    if branches.len() > 0 {
        let rest = branches.drop_last();
        let last = branches.last();
        assert(branches_ops(branches) == branches_ops(rest) + lines_ops(last.value.lines));
        lemma_branches_unfilled(rest, with, k);
        lemma_lines_unfilled(last.value.lines, with, k + calls(branches_ops(rest)));
    }
    assert(filled_branches(branches, with, k) =~= branches);
}

/// No placeholder is left where the words that replace them hold none.
pub proof fn law_filling_leaves_none(words: Seq<Sp<WordV>>, with: Seq<Sp<WordV>>, k: nat)
    requires
        k + calls(words_ops(words)) <= with.len(),
        forall|i: int| 0 <= i < with.len() ==> word_ops(#[trigger] with[i]).len() == 0,
    ensures
        words_ops(filled_words(words, with, k)).len() == 0,
    decreases words,
{
    if words.len() > 0 {
        let rest = words.drop_last();
        let last = words.last();
        let at = k + calls(words_ops(rest));
        assert(words_ops(words) == words_ops(rest) + word_ops(last));
        lemma_calls_concat(words_ops(rest), word_ops(last));
        law_filling_leaves_none(rest, with, k);
        let before = filled_words(rest, with, k);
        match last.value {
            WordV::Placeholder(op) => {
                let one = seq![Sp { value: op, span: last.span }];
                assert(word_ops(last) =~= one);
                assert(calls(one.drop_last()) == 0);
                if op == PlaceholderOp::Call {
                    assert(calls(one) == 1);
                    assert(before.push(with[at as int]).drop_last() =~= before);
                }
            },
            _ => {
                lemma_word_filled(last, with, at);
                let new = Sp { value: filled_word(last.value, with, at), span: last.span };
                assert(before.push(new).drop_last() =~= before);
            },
        }
    }
}

proof fn lemma_word_filled(word: Sp<WordV>, with: Seq<Sp<WordV>>, k: nat)
    requires
        !(word.value is Placeholder),
        k + calls(word_ops(word)) <= with.len(),
        forall|i: int| 0 <= i < with.len() ==> word_ops(#[trigger] with[i]).len() == 0,
    ensures
        word_ops(Sp { value: filled_word(word.value, with, k), span: word.span }).len() == 0,
    decreases word.value,
{
    match word.value {
        WordV::Strand(items) => law_filling_leaves_none(items, with, k),
        WordV::Array(arr) => lemma_lines_filled(arr.lines, with, k),
        WordV::Func(func) => lemma_lines_filled(func.lines, with, k),
        WordV::Switch(sw) => lemma_branches_filled(sw.branches, with, k),
        WordV::Modified(m) => law_filling_leaves_none(m.operands, with, k),
        _ => {},
    }
}

proof fn lemma_lines_filled(lines: Seq<Seq<Sp<WordV>>>, with: Seq<Sp<WordV>>, k: nat)
    requires
        k + calls(lines_ops(lines)) <= with.len(),
        forall|i: int| 0 <= i < with.len() ==> word_ops(#[trigger] with[i]).len() == 0,
    ensures
        lines_ops(filled_lines(lines, with, k)).len() == 0,
    decreases lines,
{
    if lines.len() > 0 {
        let rest = lines.drop_last();
        let at = k + calls(lines_ops(rest));
        assert(lines_ops(lines) == lines_ops(rest) + words_ops(lines.last()));
        lemma_calls_concat(lines_ops(rest), words_ops(lines.last()));
        lemma_lines_filled(rest, with, k);
        law_filling_leaves_none(lines.last(), with, at);
        let before = filled_lines(rest, with, k);
        assert(before.push(filled_words(lines.last(), with, at)).drop_last() =~= before);
    }
}

proof fn lemma_branches_filled(branches: Seq<Sp<FuncV>>, with: Seq<Sp<WordV>>, k: nat)
    requires
        k + calls(branches_ops(branches)) <= with.len(),
        forall|i: int| 0 <= i < with.len() ==> word_ops(#[trigger] with[i]).len() == 0,
    ensures
        branches_ops(filled_branches(branches, with, k)).len() == 0,
    decreases branches,
{
    if branches.len() > 0 {
        let rest = branches.drop_last();
        let last = branches.last();
        let at = k + calls(branches_ops(rest));
        assert(branches_ops(branches) == branches_ops(rest) + lines_ops(last.value.lines));
        lemma_calls_concat(branches_ops(rest), lines_ops(last.value.lines));
        lemma_branches_filled(rest, with, k);
        lemma_lines_filled(last.value.lines, with, at);
        let before = filled_branches(rest, with, k);
        let new = Sp {
            value: FuncV { lines: filled_lines(last.value.lines, with, at), ..last.value },
            span: last.span,
        };
        assert(before.push(new).drop_last() =~= before);
    }
}

/// The words that are code, in order.
pub fn only_code(words: &Vec<Sp<Word>>) -> (res: Vec<Sp<Word>>)
    ensures
        words_view(res@) == code_words(words_view(words@)),
{
    reveal(Seq::filter);
    let ghost all = words_view(words@);
    let mut res: Vec<Sp<Word>> = Vec::new();
    assert(words_view(res@) =~= code_words(all.take(0)));
    for i in 0..words.len()
        invariant
            all == words_view(words@),
            words_view(res@) == code_words(all.take(i as int)),
    {
        let ghost before = words_view(res@);
        proof {
            lemma_code_words_step(all, i as int);
        }
        if words[i].value.is_code() {
            res.push(clone_sp(&words[i]));
            assert(words_view(res@) =~= before.push(all[i as int]));
        }
    }
    assert(all.take(all.len() as int) =~= all);
    res
}

/// Runs placeholders on some operands: the operands that are left and those that were taken, or
/// the place of the first placeholder that has not enough operands.
pub fn run_placeholders(ops: &Vec<Sp<PlaceholderOp>>, operands: Vec<Sp<Word>>) -> (res: Result<
    (Vec<Sp<Word>>, Vec<Sp<Word>>),
    CodeSpan,
>)
    ensures
        match placeholder_run(
            ops@,
            OperandsV { stack: words_view(operands@), taken: Seq::empty() },
        ) {
            Ok(end) => res matches Ok(out) && words_view(out.0@) == end.stack && words_view(out.1@)
                == end.taken,
            Err(at) => res == Err::<(Vec<Sp<Word>>, Vec<Sp<Word>>), CodeSpan>(at),
        },
{
    let ghost start = OperandsV { stack: words_view(operands@), taken: Seq::empty() };
    let mut stack: Vec<Sp<Word>> = operands;
    let mut taken: Vec<Sp<Word>> = Vec::new();
    let mut i: usize = ops.len();
    assert(ops@.take(i as int) =~= ops@);
    assert(words_view(taken@) =~= Seq::empty());
    while i > 0
        invariant
            i <= ops.len(),
            start == (OperandsV { stack: words_view(operands@), taken: Seq::empty() }),
            placeholder_run(ops@, start) == placeholder_run(
                ops@.take(i as int),
                OperandsV { stack: words_view(stack@), taken: words_view(taken@) },
            ),
        decreases i,
    {
        let ghost now = OperandsV { stack: words_view(stack@), taken: words_view(taken@) };
        let ghost left = ops@.take(i as int);
        i = i - 1;
        assert(left.last() == ops@[i as int]);
        assert(left.drop_last() =~= ops@.take(i as int));
        let n: usize = stack.len();
        match ops[i].value {
            PlaceholderOp::Call => {
                match stack.pop() {
                    Some(a) => {
                        taken.push(a);
                        assert(words_view(stack@) =~= now.stack.drop_last());
                        assert(words_view(taken@) =~= now.taken.push(now.stack.last()));
                    },
                    None => return Err(ops[i].span.clone()),
                }
            },
            PlaceholderOp::Dup => {
                if n < 1 {
                    return Err(ops[i].span.clone());
                }
                let a = clone_sp(&stack[n - 1]);
                stack.push(a);
                assert(words_view(stack@) =~= now.stack.push(now.stack.last()));
            },
            PlaceholderOp::Flip => {
                if n < 2 {
                    return Err(ops[i].span.clone());
                }
                let a = clone_sp(&stack[n - 1]);
                let b = clone_sp(&stack[n - 2]);
                stack.truncate(n - 2);
                stack.push(a);
                stack.push(b);
                assert(words_view(stack@) =~= now.stack.take(n - 2).push(now.stack[n - 1]).push(
                    now.stack[n - 2],
                ));
            },
            PlaceholderOp::Over => {
                if n < 2 {
                    return Err(ops[i].span.clone());
                }
                let b = clone_sp(&stack[n - 2]);
                stack.push(b);
                assert(words_view(stack@) =~= now.stack.push(now.stack[n - 2]));
            },
        }
    }
    Ok((stack, taken))
}

/// The words in the opposite order.
fn reversed(words: &Vec<Sp<Word>>) -> (res: Vec<Sp<Word>>)
    ensures
        words_view(res@) == words_view(words@).reverse(),
{
    let ghost all = words_view(words@);
    let mut res: Vec<Sp<Word>> = Vec::new();
    for i in 0..words.len()
        invariant
            all == words_view(words@),
            res@.len() == i,
            forall|j: int|
                #![trigger words_view(res@)[j]]
                0 <= j < i ==> words_view(res@)[j] == all[all.len() - 1 - j],
    {
        let ghost before = words_view(res@);
        res.push(clone_sp(&words[words.len() - 1 - i]));
        assert(words_view(res@) =~= before.push(all[all.len() - 1 - i]));
    }
    assert(words_view(res@) =~= all.reverse());
    res
}

/// Adds copies of words to a list.
fn append_words(list: &mut Vec<Sp<Word>>, words: &Vec<Sp<Word>>)
    ensures
        words_view(final(list)@) == words_view(old(list)@) + words_view(words@),
{
    let ghost before = words_view(list@);
    let ghost all = words_view(words@);
    assert(before + all.take(0) =~= before);
    for i in 0..words.len()
        invariant
            all == words_view(words@),
            words_view(list@) == before + all.take(i as int),
    {
        let ghost now = words_view(list@);
        list.push(clone_sp(&words[i]));
        assert(words_view(list@) =~= now.push(all[i as int]));
        assert(words_view(list@) =~= before + all.take(i + 1));
    }
    assert(all.take(all.len() as int) =~= all);
}

/// The words that are shown for the expansion of a macro.
pub fn words_to_show(words: &Vec<Sp<Word>>) -> (res: Vec<Sp<Word>>)
    ensures
        words_view(res@) == shown_words(words_view(words@)),
{
    let ghost all = words_view(words@);
    let mut res: Vec<Sp<Word>> = Vec::new();
    assert(words_view(res@) =~= shown_words(all.take(0)));
    for i in 0..words.len()
        invariant
            all == words_view(words@),
            words_view(res@) == shown_words(all.take(i as int)),
    {
        let ghost before = words_view(res@);
        let ghost next = all.take(i + 1);
        assert(next.drop_last() =~= all.take(i as int));
        assert(next.last() == sp_view(words@[i as int]));
        match &words[i].value {
            Word::Func(func) => {
                let ghost lines = lines_view(func.lines@);
                assert(lines.take(0).flatten() =~= Seq::empty());
                assert(before + Seq::<Sp<WordV>>::empty() =~= before);
                for j in 0..func.lines.len()
                    invariant
                        lines == lines_view(func.lines@),
                        words_view(res@) == before + lines.take(j as int).flatten(),
                {
                    append_words(&mut res, &func.lines[j]);
                    proof {
                        let line = lines[j as int];
                        assert(lines.take(j + 1) =~= lines.take(j as int).push(line));
                        lines.take(j as int).lemma_flatten_push(line);
                        assert(before + lines.take(j as int).flatten() + line =~= before
                            + lines.take(j + 1).flatten());
                    }
                }
                assert(lines.take(lines.len() as int) =~= lines);
            },
            _ => {
                res.push(clone_sp(&words[i]));
                assert(words_view(res@) =~= before + seq![all[i as int]]);
            },
        }
    }
    assert(all.take(all.len() as int) =~= all);
    res
}

impl Compiler {
    /// Expands a macro word by word: replaces the placeholders in its words by its operands, and
    /// notes the text of what came out. The operands are marked as such.
    pub fn expand_macro<T: Toolchain>(
        &mut self,
        t: &T,
        name: String,
        macro_words: &mut Vec<Sp<Word>>,
        operands: Vec<Sp<Word>>,
        span: CodeSpan,
    ) -> (res: UiuaResult<()>)
        requires
            operands@.len() > 0,
        ensures
            macro_expanded(
                t,
                old(self)@,
                name,
                words_view(old(macro_words)@),
                words_view(operands@),
                span,
                final(self)@,
                words_view(final(macro_words)@),
                res,
            ),
            place_kept(old(self)@, final(self)@, true),
    {
        let ghost v = self@;
        let ghost words = words_view(macro_words@);
        let ghost given = words_view(operands@);
        let mut operands = operands;
        set_in_macro_arg(&mut operands);
        let ops = collect_placeholder(macro_words);
        let last = operands[operands.len() - 1].span.clone();
        assert(last == words_view(operands@).last().span);
        let span = span.merge(last);
        match run_placeholders(&ops, only_code(&operands)) {
            Err(at) => Err(self.fatal_error(at, Message::OperandStackEmpty)),
            Ok((left, taken)) => {
                proof {
                    law_run_takes_calls(ops@, macro_operands(given));
                }
                if left.len() > 0 {
                    let place = left[0].span.clone().merge(left[left.len() - 1].span.clone());
                    self.emit_diagnostic(
                        Message::OperandsLeft { count: left.len() },
                        DiagnosticKind::Warning,
                        place,
                    );
                }
                assert(self@ =~= operands_left_noted(v, words_view(left@)));
                let with = reversed(&taken);
                assert(words_view(with@).len() == with@.len());
                replace_placeholders(macro_words, &with);
                let shown = words_to_show(macro_words);
                let text = t.format_words(&shown, &self.assembly.inputs);
                self.code_meta.macro_expansions.insert(span, Expansion { name, text });
                proof {
                    let end = placeholder_run(ops@, macro_operands(given))->Ok_0;
                    assert(did_format_words(
                        t,
                        shown_words(words_view(macro_words@)),
                        v.assembly.inputs,
                        text,
                    ));
                    lemma_kept_aside(v, v, self@, true);
                }
                Ok(())
            },
        }
    }
}

} // verus!
