//! Function packs: several functions in one pair of brackets, as the operand of a modifier.
use crate::prim::Primitive;
use crate::span::{CodeSpan, Sp};
use crate::word::{
    branches_view, clone_branches, clone_func, clone_modifier, code_words, lines_view,
    required_args, words_view, Func, FuncV, FunctionId, Modified, ModifiedV, Modifier, ModifierV,
    Word, WordV,
};
use vstd::prelude::*;

verus! {

/// The functions of the pack that a modifier is applied to, and the place of the pack, where its
/// only operand is one.
pub open spec fn pack_of(m: ModifiedV) -> Option<(Seq<Sp<FuncV>>, CodeSpan)> {
    let operands = code_words(m.operands);
    if operands.len() == 1 {
        match operands[0].value {
            WordV::Switch(sw) => if sw.angled {
                None
            } else {
                Some((sw.branches, operands[0].span))
            },
            _ => None,
        }
    } else {
        None
    }
}

/// A function as a word.
pub open spec fn func_word(func: Sp<FuncV>) -> Sp<WordV> {
    Sp { value: WordV::Func(func.value), span: func.span }
}

/// The functions of a pack as operands.
pub open spec fn spread(modifier: Sp<ModifierV>, branches: Seq<Sp<FuncV>>) -> ModifiedV {
    ModifiedV { modifier, operands: branches.map_values(|b: Sp<FuncV>| func_word(b)) }
}

/// Lines with one more word at the end of the last line.
pub open spec fn with_last_word(lines: Seq<Seq<Sp<WordV>>>, word: Sp<WordV>) -> Seq<
    Seq<Sp<WordV>>,
> {
    lines.drop_last().push(lines.last().push(word))
}

/// A dip of a pack: each function ends in a dip of those after it.
pub open spec fn dip_nested(
    modifier: Sp<ModifierV>,
    branches: Seq<Sp<FuncV>>,
    span: CodeSpan,
) -> ModifiedV
    decreases branches.len(),
{
    if branches.len() <= 1 {
        spread(modifier, branches)
    } else {
        let first = branches[0];
        let inner = dip_nested(modifier, branches.drop_first(), span);
        let inner_word = Sp { value: WordV::Modified(Box::new(inner)), span };
        let func = FuncV {
            id: FunctionId::Anonymous(first.span),
            signature: None,
            lines: with_last_word(first.value.lines, inner_word),
            closed: true,
        };
        ModifiedV {
            modifier,
            operands: seq![Sp { value: WordV::Func(func), span: first.span }],
        }
    }
}

/// A modifier of two functions with a pack of more: the first function and the modifier applied
/// to the others.
pub open spec fn right_nested(
    modifier: Sp<ModifierV>,
    branches: Seq<Sp<FuncV>>,
    span: CodeSpan,
) -> ModifiedV
    decreases branches.len(),
{
    if branches.len() <= 2 {
        spread(modifier, branches)
    } else {
        let inner = right_nested(modifier, branches.drop_first(), span);
        ModifiedV {
            modifier,
            operands: seq![
                func_word(branches[0]),
                Sp { value: WordV::Modified(Box::new(inner)), span },
            ],
        }
    }
}

/// Whether a modifier of two functions is nested when it is given a pack of more.
pub open spec fn nests(modifier: ModifierV) -> bool {
    modifier matches ModifierV::Primitive(prim) && (prim == Primitive::Fork || prim
        == Primitive::Bracket || prim == Primitive::Try || prim == Primitive::Fill || prim
        == Primitive::Cascade)
}

/// A modifier with a pack, written without it, where there is a way to do so.
pub open spec fn unpacked(
    modifier: Sp<ModifierV>,
    branches: Seq<Sp<FuncV>>,
    span: CodeSpan,
) -> Option<ModifiedV> {
    if modifier.value == ModifierV::Primitive(Primitive::Dip) {
        Some(dip_nested(modifier, branches, span))
    } else if nests(modifier.value) {
        Some(right_nested(modifier, branches, span))
    } else if required_args(modifier.value) >= 2 && branches.len() == required_args(
        modifier.value,
    ) {
        Some(spread(modifier, branches))
    } else {
        None
    }
}

/// A pack that a dip can be written without: it holds a function, and every function but the last
/// has a line that the next dip can go on.
pub open spec fn dip_ready(branches: Seq<Sp<FuncV>>) -> bool {
    &&& branches.len() > 0
    &&& forall|i: int|
        0 <= i < branches.len() - 1 ==> (#[trigger] branches[i]).value.lines.len() > 0
}

/// The operands of a modifier that has been nested into its last operand, in order.
pub open spec fn flat_operands(m: ModifiedV) -> Seq<Sp<WordV>>
    decreases m,
{
    if m.operands.len() == 2 {
        match m.operands[1].value {
            WordV::Modified(inner) => seq![m.operands[0]] + flat_operands(*inner),
            _ => m.operands,
        }
    } else {
        m.operands
    }
}

/// A pack that is written without brackets holds the same functions in the same order.
pub proof fn law_nesting_keeps_functions(
    modifier: Sp<ModifierV>,
    branches: Seq<Sp<FuncV>>,
    span: CodeSpan,
)
    ensures
        flat_operands(right_nested(modifier, branches, span)) == branches.map_values(
            |b: Sp<FuncV>| func_word(b),
        ),
    decreases branches.len(),
{
    let words = branches.map_values(|b: Sp<FuncV>| func_word(b));
    let m = right_nested(modifier, branches, span);
    if branches.len() > 2 {
        let rest = branches.drop_first();
        law_nesting_keeps_functions(modifier, rest, span);
        let rest_words = rest.map_values(|b: Sp<FuncV>| func_word(b));
        assert(seq![func_word(branches[0])] + rest_words =~= words);
        assert(m.operands[0] == func_word(branches[0]));
    }
}

/// The lines of the functions in a dip that has been nested `n` times, in order, each without the
/// dip that it ends in.
pub open spec fn dip_parts(m: ModifiedV, n: nat) -> Seq<Seq<Seq<Sp<WordV>>>>
    decreases n,
{
    let lines = m.operands[0].value->Func_0.lines;
    if n == 0 {
        seq![lines]
    } else {
        let inner = *lines.last().last().value->Modified_0;
        seq![lines.drop_last().push(lines.last().drop_last())] + dip_parts(inner, (n - 1) as nat)
    }
}

/// A dip of a pack holds the lines of the functions in the pack, in the same order.
pub proof fn law_dips_keep_functions(
    modifier: Sp<ModifierV>,
    branches: Seq<Sp<FuncV>>,
    span: CodeSpan,
)
    requires
        dip_ready(branches),
    ensures
        dip_parts(dip_nested(modifier, branches, span), (branches.len() - 1) as nat)
            == branches.map_values(|b: Sp<FuncV>| b.value.lines),
    decreases branches.len(),
{
    let parts = branches.map_values(|b: Sp<FuncV>| b.value.lines);
    let m = dip_nested(modifier, branches, span);
    if branches.len() == 1 {
        assert(dip_parts(m, 0) =~= parts);
    } else {
        let rest = branches.drop_first();
        assert forall|i: int| 0 <= i < rest.len() - 1 implies (
        #[trigger] rest[i]).value.lines.len() > 0 by {
            assert(rest[i] == branches[i + 1]);
        }
        law_dips_keep_functions(modifier, rest, span);
        let first = branches[0].value.lines;
        let inner = dip_nested(modifier, rest, span);
        let word = Sp { value: WordV::Modified(Box::new(inner)), span };
        let lines = with_last_word(first, word);
        assert(lines.drop_last() =~= first.drop_last());
        assert(lines.last().drop_last() =~= first.last());
        assert(first.drop_last().push(first.last()) =~= first);
        assert(m.operands[0].value->Func_0.lines == lines);
        let rest_parts = rest.map_values(|b: Sp<FuncV>| b.value.lines);
        assert(seq![first] + rest_parts =~= parts);
    }
}

impl Modified {
    /// The functions of the pack that the modifier is applied to, and the place of the pack,
    /// where its only operand is one.
    pub fn pack(&self) -> (res: Option<(Vec<Sp<Func>>, CodeSpan)>)
        ensures
            match pack_of(self@) {
                Some((branches, span)) => res matches Some(out) && branches_view(out.0@)
                    == branches && out.1 == span,
                None => res is None,
            },
    {
        if self.code_count() != 1 {
            return None;
        }
        let operand = self.code_operand(0);
        match &operand.value {
            Word::Switch(sw) => if sw.angled {
                None
            } else {
                Some((clone_branches(&sw.branches), operand.span.clone()))
            },
            _ => None,
        }
    }
}

/// Functions as words.
pub fn func_words(branches: &Vec<Sp<Func>>) -> (res: Vec<Sp<Word>>)
    ensures
        words_view(res@) == branches_view(branches@).map_values(|b: Sp<FuncV>| func_word(b)),
{
    let ghost all = branches_view(branches@);
    let mut res: Vec<Sp<Word>> = Vec::new();
    for i in 0..branches.len()
        invariant
            all == branches_view(branches@),
            words_view(res@) =~= all.take(i as int).map_values(|b: Sp<FuncV>| func_word(b)),
    {
        let ghost before = words_view(res@);
        let value = Word::Func(clone_func(&branches[i].value));
        res.push(Sp { value, span: branches[i].span.clone() });
        assert(words_view(res@) =~= before.push(func_word(all[i as int])));
        assert(words_view(res@) =~= all.take(i + 1).map_values(|b: Sp<FuncV>| func_word(b)));
    }
    assert(all.take(all.len() as int) =~= all);
    res
}

/// The functions of a pack as operands.
pub fn spread_pack(modifier: &Sp<Modifier>, branches: &Vec<Sp<Func>>) -> (res: Modified)
    ensures
        res@ == spread(
            Sp { value: modifier.value@, span: modifier.span },
            branches_view(branches@),
        ),
{
    Modified { modifier: clone_modifier(modifier), operands: func_words(branches) }
}

/// The last functions of a pack, from a place on.
fn branches_from(branches: &Vec<Sp<Func>>, from: usize) -> (res: Vec<Sp<Func>>)
    requires
        from <= branches@.len(),
    ensures
        branches_view(res@) == branches_view(branches@).skip(from as int),
{
    let ghost all = branches_view(branches@);
    let mut res: Vec<Sp<Func>> = Vec::new();
    assert(branches_view(res@) =~= all.subrange(from as int, from as int));
    for i in from..branches.len()
        invariant
            from <= branches@.len(),
            all == branches_view(branches@),
            branches_view(res@) == all.subrange(from as int, i as int),
    {
        let ghost before = branches_view(res@);
        let value = clone_func(&branches[i].value);
        res.push(Sp { value, span: branches[i].span.clone() });
        assert(branches_view(res@) =~= before.push(all[i as int]));
        assert(branches_view(res@) =~= all.subrange(from as int, i + 1));
    }
    assert(branches_view(res@) =~= all.skip(from as int));
    res
}

/// A dip of a pack, written without it.
pub fn nest_dip(modifier: &Sp<Modifier>, branches: &Vec<Sp<Func>>, span: &CodeSpan) -> (res:
    Modified)
    requires
        dip_ready(branches_view(branches@)),
    ensures
        res@ == dip_nested(
            Sp { value: modifier.value@, span: modifier.span },
            branches_view(branches@),
            *span,
        ),
{
    let ghost all = branches_view(branches@);
    let ghost by = Sp { value: modifier.value@, span: modifier.span };
    let mut i: usize = branches.len() - 1;
    let mut new = spread_pack(modifier, &branches_from(branches, i));
    assert(new@ == dip_nested(by, all.skip(i as int), *span));
    while i > 0
        invariant
            i < branches.len(),
            all == branches_view(branches@),
            by == (Sp { value: modifier.value@, span: modifier.span }),
            dip_ready(all),
            new@ == dip_nested(by, all.skip(i as int), *span),
        decreases i,
    {
        i = i - 1;
        let branch = &branches[i];
        let ghost lines = all[i as int].value.lines;
        let ghost rest = all.skip(i as int);
        assert(rest.drop_first() =~= all.skip(i + 1));
        assert(lines.len() > 0);
        assert(rest[0] == all[i as int]);
        let copy = clone_func(&branch.value);
        let mut new_lines = copy.lines;
        let ghost inner = Sp { value: WordV::Modified(Box::new(new@)), span: *span };
        match new_lines.pop() {
            Some(line) => {
                let mut line = line;
                let ghost line_view = words_view(line@);
                assert(line_view == lines.last());
                line.push(span.clone().sp(Word::Modified(Box::new(new))));
                assert(words_view(line@) =~= line_view.push(inner));
                assert(lines_view(new_lines@) =~= lines.drop_last());
                new_lines.push(line);
                assert(lines_view(new_lines@) =~= with_last_word(lines, inner));
            },
            None => {},
        }
        let func = Func {
            id: FunctionId::Anonymous(branch.span.clone()),
            signature: None,
            lines: new_lines,
            closed: true,
        };
        let ghost wanted = FuncV {
            id: FunctionId::Anonymous(all[i as int].span),
            signature: None,
            lines: with_last_word(lines, inner),
            closed: true,
        };
        assert(func@ == wanted);
        let operands = vec![branch.span.clone().sp(Word::Func(func))];
        assert(words_view(operands@) =~= seq![
            Sp { value: WordV::Func(wanted), span: all[i as int].span },
        ]);
        new = Modified { modifier: clone_modifier(modifier), operands };
        assert(new@.operands =~= dip_nested(by, rest, *span).operands);
    }
    assert(all.skip(0) =~= all);
    new
}

/// A modifier of two functions with a pack, written without it.
pub fn nest_right(modifier: &Sp<Modifier>, branches: &Vec<Sp<Func>>, span: &CodeSpan) -> (res:
    Modified)
    ensures
        res@ == right_nested(
            Sp { value: modifier.value@, span: modifier.span },
            branches_view(branches@),
            *span,
        ),
{
    let ghost all = branches_view(branches@);
    let ghost by = Sp { value: modifier.value@, span: modifier.span };
    let mut i: usize = if branches.len() <= 2 {
        0
    } else {
        branches.len() - 2
    };
    let mut new = spread_pack(modifier, &branches_from(branches, i));
    assert(new@ == right_nested(by, all.skip(i as int), *span));
    while i > 0
        invariant
            i + 2 <= branches.len() || i == 0,
            all == branches_view(branches@),
            by == (Sp { value: modifier.value@, span: modifier.span }),
            new@ == right_nested(by, all.skip(i as int), *span),
        decreases i,
    {
        i = i - 1;
        let branch = &branches[i];
        let ghost rest = all.skip(i as int);
        let ghost inner = new@;
        assert(rest.drop_first() =~= all.skip(i + 1));
        assert(rest[0] == all[i as int]);
        let first = branch.span.clone().sp(Word::Func(clone_func(&branch.value)));
        let second = span.clone().sp(Word::Modified(Box::new(new)));
        let operands = vec![first, second];
        new = Modified { modifier: clone_modifier(modifier), operands };
        assert(new@.operands =~= right_nested(by, rest, *span).operands);
    }
    assert(all.skip(0) =~= all);
    new
}

/// A modifier with a pack, written without it, where there is a way to do so.
pub fn unpack(modifier: &Sp<Modifier>, branches: &Vec<Sp<Func>>, span: &CodeSpan) -> (res: Option<
    Modified,
>)
    requires
        modifier.value@ == ModifierV::Primitive(Primitive::Dip) ==> dip_ready(
            branches_view(branches@),
        ),
    ensures
        match unpacked(
            Sp { value: modifier.value@, span: modifier.span },
            branches_view(branches@),
            *span,
        ) {
            Some(m) => res matches Some(out) && out@ == m,
            None => res is None,
        },
{
    match &modifier.value {
        Modifier::Primitive(Primitive::Dip) => Some(nest_dip(modifier, branches, span)),
        Modifier::Primitive(
            Primitive::Fork
            | Primitive::Bracket
            | Primitive::Try
            | Primitive::Fill
            | Primitive::Cascade,
        ) => Some(nest_right(modifier, branches, span)),
        other => {
            let args: usize = other.args();
            if args >= 2 && branches.len() == args {
                Some(spread_pack(modifier, branches))
            } else {
                None
            }
        },
    }
}

} // verus!
