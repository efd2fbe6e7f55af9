//! What a modifier with a function pack is written as without the pack, and what comes of it.
use crate::compiler::CompilerV;
use crate::message::{Message, UiuaError, UiuaResult};
use crate::modified::{modified_done, operands_compiled};
use crate::names::LocalName;
use crate::pack::{
    dip_nested, dip_parts, dip_ready, flat_operands, law_dips_keep_functions,
    law_nesting_keeps_functions, pack_of, right_nested, unpacked,
};
use crate::prim::Primitive;
use crate::span::{merged, CodeSpan, Sp};
use crate::toolchain::{did_modifier_text, did_ref_local, Toolchain};
use crate::word::{
    code_words, is_code, required_args, FuncV, FunctionId, ModifiedV, ModifierV, RefV, WordV,
};
use vstd::prelude::*;

verus! {

/// Operands are the functions of a pack: each has the function and the place that is at the same
/// position in the pack.
pub open spec fn are_functions(operands: Seq<Sp<WordV>>, branches: Seq<Sp<FuncV>>) -> bool {
    &&& operands.len() == branches.len()
    &&& forall|i: int|
        0 <= i < branches.len() ==> (#[trigger] operands[i]).value == WordV::Func(
            branches[i].value,
        ) && operands[i].span == branches[i].span
}

/// A modifier holds `n` functions: all of them where there are no more than two, else one and, at
/// the place of the pack, the same modifier with the others.
pub open spec fn nested_evenly(
    m: ModifiedV,
    modifier: Sp<ModifierV>,
    span: CodeSpan,
    n: nat,
) -> bool
    decreases n,
{
    &&& m.modifier == modifier
    &&& if n <= 2 {
        m.operands.len() == n
    } else {
        &&& m.operands.len() == 2
        &&& m.operands[1].span == span
        &&& m.operands[1].value matches WordV::Modified(inner)
        &&& nested_evenly(*inner, modifier, span, (n - 1) as nat)
    }
}

proof fn lemma_nested_evenly(modifier: Sp<ModifierV>, branches: Seq<Sp<FuncV>>, span: CodeSpan)
    ensures
        nested_evenly(right_nested(modifier, branches, span), modifier, span, branches.len()),
    decreases branches.len(),
{
    if branches.len() > 2 {
        lemma_nested_evenly(modifier, branches.drop_first(), span);
    }
}

/// A fork, bracket, try, fill or cascade of a pack is written as the same modifier of two
/// functions, nested into its second one where there are more. The functions, read from the
/// outermost to the innermost, are those of the pack in the order in which they stand in it.
pub proof fn law_unpacking_keeps_functions(
    modifier: Sp<ModifierV>,
    branches: Seq<Sp<FuncV>>,
    span: CodeSpan,
)
    requires
        modifier.value == ModifierV::Primitive(Primitive::Fork) || modifier.value
            == ModifierV::Primitive(Primitive::Bracket) || modifier.value == ModifierV::Primitive(
            Primitive::Try,
        ) || modifier.value == ModifierV::Primitive(Primitive::Fill) || modifier.value
            == ModifierV::Primitive(Primitive::Cascade),
    ensures
        unpacked(modifier, branches, span) matches Some(new) && are_functions(
            flat_operands(new),
            branches,
        ) && nested_evenly(new, modifier, span, branches.len()),
{
    law_nesting_keeps_functions(modifier, branches, span);
    lemma_nested_evenly(modifier, branches, span);
}

/// Each function of a pack that a dip was applied to ends in a dip, at the place of the pack, of
/// those after it. The last one is as it was.
pub open spec fn dips_nested(
    m: ModifiedV,
    modifier: Sp<ModifierV>,
    branches: Seq<Sp<FuncV>>,
    span: CodeSpan,
) -> bool
    decreases branches.len(),
{
    &&& m.modifier == modifier
    &&& m.operands.len() == 1
    &&& m.operands[0].span == branches[0].span
    &&& m.operands[0].value matches WordV::Func(func)
    &&& if branches.len() <= 1 {
        func == branches[0].value
    } else {
        let word = func.lines.last().last();
        &&& func.id == FunctionId::Anonymous(branches[0].span)
        &&& func.signature is None
        &&& func.closed
        &&& func.lines.len() > 0 && func.lines.last().len() > 0
        &&& word.span == span
        &&& word.value matches WordV::Modified(inner)
        &&& dips_nested(*inner, modifier, branches.drop_first(), span)
    }
}

proof fn lemma_dips_nested(modifier: Sp<ModifierV>, branches: Seq<Sp<FuncV>>, span: CodeSpan)
    requires
        dip_ready(branches),
    ensures
        dips_nested(dip_nested(modifier, branches, span), modifier, branches, span),
    decreases branches.len(),
{
    if branches.len() > 1 {
        let rest = branches.drop_first();
        assert forall|i: int| 0 <= i < rest.len() - 1 implies (
        #[trigger] rest[i]).value.lines.len() > 0 by {
            assert(rest[i] == branches[i + 1]);
        }
        assert(branches[0].value.lines.len() > 0);
        lemma_dips_nested(modifier, rest, span);
        let m = dip_nested(modifier, branches, span);
        let lines = m.operands[0].value->Func_0.lines;
        assert(lines.last().last().value == WordV::Modified(
            Box::new(dip_nested(modifier, rest, span)),
        ));
    }
}

/// A dip of a pack is written as a dip of its first function, which ends in a dip of the second,
/// and so on. The lines of the functions are those of the pack, in order.
pub proof fn law_unpacking_a_dip(
    modifier: Sp<ModifierV>,
    branches: Seq<Sp<FuncV>>,
    span: CodeSpan,
)
    requires
        modifier.value == ModifierV::Primitive(Primitive::Dip),
        dip_ready(branches),
    ensures
        unpacked(modifier, branches, span) matches Some(new) && dips_nested(
            new,
            modifier,
            branches,
            span,
        ) && dip_parts(new, (branches.len() - 1) as nat).len() == branches.len() && (forall|i: int|
            0 <= i < branches.len() ==> (#[trigger] dip_parts(
                new,
                (branches.len() - 1) as nat,
            )[i]) == branches[i].value.lines),
{
    lemma_dips_nested(modifier, branches, span);
    law_dips_keep_functions(modifier, branches, span);
}

/// Any other modifier of two or more functions takes the functions of a pack as its operands, in
/// order, where there are as many of them as it takes. Else, and where it takes less than two,
/// there is no way to write it without the pack.
pub proof fn law_unpacking_others(
    modifier: Sp<ModifierV>,
    branches: Seq<Sp<FuncV>>,
    span: CodeSpan,
)
    requires
        modifier.value != ModifierV::Primitive(Primitive::Dip),
        modifier.value != ModifierV::Primitive(Primitive::Fork),
        modifier.value != ModifierV::Primitive(Primitive::Bracket),
        modifier.value != ModifierV::Primitive(Primitive::Try),
        modifier.value != ModifierV::Primitive(Primitive::Fill),
        modifier.value != ModifierV::Primitive(Primitive::Cascade),
    ensures
        match unpacked(modifier, branches, span) {
            Some(new) => new.modifier == modifier && are_functions(new.operands, branches)
                && branches.len() == required_args(modifier.value) && branches.len() >= 2,
            None => branches.len() != required_args(modifier.value) || branches.len() < 2,
        },
{
}

proof fn lemma_no_pack(m: ModifiedV)
    requires
        forall|i: int| 0 <= i < m.operands.len() ==> !((#[trigger] m.operands[i]).value is Switch),
    ensures
        pack_of(m) is None,
{
    let operands = code_words(m.operands);
    if operands.len() == 1 {
        m.operands.lemma_filter_contains_rev(|w: Sp<WordV>| is_code(w.value), operands[0]);
        let i = choose|i: int| 0 <= i < m.operands.len() && m.operands[i] == operands[0];
        assert(!(m.operands[i].value is Switch));
    }
}

/// A modifier with a pack comes to what it comes to when it is written without the pack, where
/// there is a way to do so.
pub proof fn law_pack_is_what_it_unpacks_to<T: Toolchain>(
    t: &T,
    v: CompilerV,
    m: ModifiedV,
    branches: Seq<Sp<FuncV>>,
    span: CodeSpan,
    new: ModifiedV,
    call: bool,
    w: CompilerV,
    res: UiuaResult<()>,
)
    requires
        pack_of(m) == Some((branches, span)),
        unpacked(m.modifier, branches, span) == Some(new),
        m.modifier.value == ModifierV::Primitive(Primitive::Dip) ==> dip_ready(branches),
    ensures
        modified_done(t, v, m, call, w, res) == modified_done(t, v, new, call, w, res),
        new.modifier == m.modifier,
{
    if m.modifier.value == ModifierV::Primitive(Primitive::Dip) {
        lemma_dips_nested(m.modifier, branches, span);
    } else {
        lemma_nested_evenly(m.modifier, branches, span);
    }
    lemma_no_pack(new);
}

/// A modifier has a pack where the only one of its operands that is code is one, in brackets that
/// are not angled.
pub proof fn law_pack_is_the_only_operand(m: ModifiedV)
    ensures
        match pack_of(m) {
            Some((branches, span)) => {
                &&& code_words(m.operands).len() == 1
                &&& code_words(m.operands)[0].span == span
                &&& code_words(m.operands)[0].value matches WordV::Switch(sw)
                &&& !sw.angled
                &&& sw.branches == branches
            },
            None => code_words(m.operands).len() != 1 || !(code_words(
                m.operands,
            )[0].value is Switch) || code_words(m.operands)[0].value->Switch_0.angled,
        },
{
}

/// A pack is refused, at the place from the modifier to the pack and without a trace in the
/// compiler, where the modifier takes two or more functions and the pack has another number of
/// them, which the error tells, and where a primitive takes less than two.
pub proof fn law_pack_refused<T: Toolchain>(
    t: &T,
    v: CompilerV,
    m: ModifiedV,
    branches: Seq<Sp<FuncV>>,
    span: CodeSpan,
    call: bool,
    w: CompilerV,
    res: UiuaResult<()>,
)
    requires
        pack_of(m) == Some((branches, span)),
        unpacked(m.modifier, branches, span) is None,
        m.modifier.value is Primitive || required_args(m.modifier.value) >= 2,
        modified_done(t, v, m, call, w, res),
    ensures
        w == v,
        exists|text: String| #[trigger]
            did_modifier_text(t, m.modifier.value, text) && res == Err::<(), UiuaError>(
                UiuaError::Fatal {
                    span: merged(m.modifier.span, span),
                    message: if required_args(m.modifier.value) >= 2 {
                        Message::PackSize {
                            modifier: text,
                            required: required_args(m.modifier.value),
                            given: branches.len() as usize,
                        }
                    } else {
                        Message::PackUnsupported { modifier: text }
                    },
                },
            ),
{
}

/// A macro that takes less than two functions takes a pack as it is where it is one that is run,
/// and is refused without a trace where it is not or its name is unknown.
pub proof fn law_macro_takes_pack<T: Toolchain>(
    t: &T,
    v: CompilerV,
    m: ModifiedV,
    r: RefV,
    branches: Seq<Sp<FuncV>>,
    span: CodeSpan,
    call: bool,
    w: CompilerV,
    res: UiuaResult<()>,
)
    requires
        pack_of(m) == Some((branches, span)),
        m.modifier.value == ModifierV::Ref(r),
        r.args < 2,
        modified_done(t, v, m, call, w, res),
    ensures
        exists|found: UiuaResult<(Vec<LocalName>, LocalName)>| #[trigger]
            did_ref_local(t, v, r, found) && if (found matches Ok((_, local))
                && v.array_macros.contains_key(local.index)) {
                operands_compiled(t, v, m, call, w, res)
            } else {
                w == v && exists|text: String| #[trigger]
                    did_modifier_text(t, m.modifier.value, text) && res == Err::<(), UiuaError>(
                        UiuaError::Fatal {
                            span: merged(m.modifier.span, span),
                            message: Message::PackUnsupported { modifier: text },
                        },
                    )
            },
{
}

} // verus!
