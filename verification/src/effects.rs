//! What code does to the height of the stacks, and that the signatures of modifiers tell the truth.
//!
//! Only the heights are followed. What an instruction takes and leaves is given, but for the
//! instructions that move values between the stacks, for pushes, and for the two primitives that
//! modifiers put in.
use crate::codegen::{
    both_code, both_sig, bind_code, bind_sig, bracket_code, bracket_sig, by_code, by_sig,
    cascade_code, cascade_count, cascade_sig, content_code, copy_temp, dip_code, dip_sig, excess,
    fork_code, fork_sig, gap_code, gap_sig, if_any, narrow_code, on_code, on_sig, pop_temp,
    push_temp, repeated, unbox_code, unbox_each,
};
use crate::comptime::pushes;
use crate::instr::{Instr, TempStack};
use crate::prim::{ImplPrimitive, Primitive, Signature};
use crate::value::Value;
use vstd::prelude::*;

verus! {

/// The heights of the stacks, counted from where some code started, and how far below that the
/// code has reached.
pub struct Heights {
    /// The height of the main stack.
    pub main: int,
    /// How many values of the main stack were needed that were there at the start.
    pub need: int,
    /// The height of the stack for values that are put aside.
    pub aside: int,
    /// How many values of that stack were needed that were there at the start.
    pub aside_need: int,
    /// How many sets of local values there are.
    pub locals: int,
}

/// Code cannot have reached less far down than the top of a stack.
pub open spec fn reached(s: Heights) -> bool {
    s.need + s.main >= 0 && s.aside_need + s.aside >= 0
}

pub open spec fn most(a: int, b: int) -> int {
    if a >= b {
        a
    } else {
        b
    }
}

/// Takes values from the main stack and leaves others.
pub open spec fn replaced(s: Heights, args: int, outputs: int) -> Heights {
    Heights { main: s.main - args + outputs, need: most(s.need, args - s.main), ..s }
}

/// What one instruction does. `given` tells what the other instructions take and leave.
pub open spec fn instr_effect(
    given: spec_fn(Instr) -> Signature,
    instr: Instr,
    s: Heights,
) -> Heights {
    match instr {
        Instr::PushTemp { stack: TempStack::Inline, count, span } => {
            let t = replaced(s, count as int, 0);
            Heights { aside: t.aside + count, ..t }
        },
        Instr::PopTemp { stack: TempStack::Inline, count, span } => {
            let t = Heights {
                aside: s.aside - count,
                aside_need: most(s.aside_need, count - s.aside),
                ..s
            };
            replaced(t, 0, count as int)
        },
        Instr::CopyToTemp { stack: TempStack::Inline, count, span } => {
            let t = replaced(s, count as int, count as int);
            Heights { aside: t.aside + count, ..t }
        },
        Instr::PushLocals { count, span } => {
            let t = replaced(s, count as int, 0);
            Heights { locals: t.locals + 1, ..t }
        },
        Instr::PopLocals => Heights { locals: s.locals - 1, ..s },
        Instr::Push(_) => replaced(s, 0, 1),
        Instr::Prim(Primitive::Pop, _) => replaced(s, 1, 0),
        Instr::Prim(Primitive::Dup, _) => replaced(s, 1, 2),
        Instr::ImplPrim(ImplPrimitive::UnBox, _) => replaced(s, 1, 1),
        Instr::PushSig(_) | Instr::PopSig => s,
        _ => replaced(s, given(instr).args as int, given(instr).outputs as int),
    }
}

/// What some code does.
pub open spec fn effect(given: spec_fn(Instr) -> Signature, code: Seq<Instr>, s: Heights) -> Heights
    decreases code.len(),
{
    if code.len() == 0 {
        s
    } else {
        instr_effect(given, code.last(), effect(given, code.drop_last(), s))
    }
}

/// The code takes exactly the arguments of the signature and leaves its outputs, wherever it
/// starts; what was put aside is as it was.
pub open spec fn has_effect(
    given: spec_fn(Instr) -> Signature,
    code: Seq<Instr>,
    sig: Signature,
) -> bool {
    forall|s: Heights|
        reached(s) ==> #[trigger] effect(given, code, s) == replaced(
            s,
            sig.args as int,
            sig.outputs as int,
        )
}

/// Code does what its parts do, one after the other.
pub proof fn law_effects_follow(
    given: spec_fn(Instr) -> Signature,
    a: Seq<Instr>,
    b: Seq<Instr>,
    s: Heights,
)
    ensures
        effect(given, a + b, s) == effect(given, b, effect(given, a, s)),
    decreases b.len(),
{
    if b.len() == 0 {
        assert(a + b =~= a);
    } else {
        assert((a + b).drop_last() =~= a + b.drop_last());
        law_effects_follow(given, a, b.drop_last(), s);
    }
}

proof fn lemma_effect_one(given: spec_fn(Instr) -> Signature, instr: Instr, s: Heights)
    ensures
        effect(given, seq![instr], s) == instr_effect(given, instr, s),
{
    assert(seq![instr].drop_last() =~= Seq::empty());
    assert(effect(given, seq![instr].drop_last(), s) == s);
}

/// The effect of code between two instructions.
proof fn lemma_effect_between(
    given: spec_fn(Instr) -> Signature,
    first: Instr,
    code: Seq<Instr>,
    last: Instr,
    s: Heights,
)
    ensures
        effect(given, seq![first] + code + seq![last], s) == instr_effect(
            given,
            last,
            effect(given, code, instr_effect(given, first, s)),
        ),
        effect(given, seq![first] + code, s) == effect(
            given,
            code,
            instr_effect(given, first, s),
        ),
{
    law_effects_follow(given, seq![first] + code, seq![last], s);
    law_effects_follow(given, seq![first], code, s);
    lemma_effect_one(given, first, s);
    lemma_effect_one(given, last, effect(given, seq![first] + code, s));
}

/// The signature of a dip is what its code does.
pub proof fn law_dip_signature(
    given: spec_fn(Instr) -> Signature,
    code: Seq<Instr>,
    sig: Signature,
    span: usize,
)
    requires
        has_effect(given, code, sig),
        sig.args < usize::MAX,
        sig.outputs < usize::MAX,
    ensures
        has_effect(given, dip_code(code, span), dip_sig(sig)),
{
    let whole = dip_code(code, span);
    assert forall|s: Heights| reached(s) implies #[trigger] effect(given, whole, s) == replaced(
        s,
        sig.args + 1,
        sig.outputs + 1,
    ) by {
        lemma_effect_between(given, push_temp(1, span), code, pop_temp(1, span), s);
        let inside = instr_effect(given, push_temp(1, span), s);
        assert(effect(given, code, inside) == replaced(
            inside,
            sig.args as int,
            sig.outputs as int,
        ));
    }
}

/// The signature of a gap is what its code does.
pub proof fn law_gap_signature(
    given: spec_fn(Instr) -> Signature,
    code: Seq<Instr>,
    sig: Signature,
    span: usize,
)
    requires
        has_effect(given, code, sig),
        sig.args < usize::MAX,
    ensures
        has_effect(given, gap_code(code, span), gap_sig(sig)),
{
    let whole = gap_code(code, span);
    let pop = Instr::Prim(Primitive::Pop, span);
    assert forall|s: Heights| reached(s) implies #[trigger] effect(given, whole, s) == replaced(
        s,
        sig.args + 1,
        sig.outputs as int,
    ) by {
        lemma_effect_between(given, pop, code, pop, s);
        let inside = instr_effect(given, pop, s);
        assert(effect(given, code, inside) == replaced(
            inside,
            sig.args as int,
            sig.outputs as int,
        ));
    }
}

/// The signature of an on is what its code does.
pub proof fn law_on_signature(
    given: spec_fn(Instr) -> Signature,
    code: Seq<Instr>,
    sig: Signature,
    span: usize,
)
    requires
        has_effect(given, code, sig),
        sig.outputs < usize::MAX,
    ensures
        has_effect(given, on_code(code, sig, span), on_sig(sig)),
{
    let whole = on_code(code, sig, span);
    let first = if sig.args == 0 {
        push_temp(1, span)
    } else {
        copy_temp(1, span)
    };
    assert forall|s: Heights| reached(s) implies #[trigger] effect(given, whole, s) == replaced(
        s,
        on_sig(sig).args as int,
        sig.outputs + 1,
    ) by {
        lemma_effect_between(given, first, code, pop_temp(1, span), s);
        let inside = instr_effect(given, first, s);
        assert(effect(given, code, inside) == replaced(
            inside,
            sig.args as int,
            sig.outputs as int,
        ));
    }
}

/// The signature of a by is what its code does, where its function has arguments.
pub proof fn law_by_signature(
    given: spec_fn(Instr) -> Signature,
    code: Seq<Instr>,
    sig: Signature,
    span: usize,
)
    requires
        has_effect(given, code, sig),
        sig.args > 0,
        sig.outputs < usize::MAX,
    ensures
        has_effect(given, by_code(code, sig, span), by_sig(sig)),
{
    let whole = by_code(code, sig, span);
    let dup = Instr::Prim(Primitive::Dup, span);
    let others = (sig.args - 1) as usize;
    assert forall|s: Heights| reached(s) implies #[trigger] effect(given, whole, s) == replaced(
        s,
        sig.args as int,
        sig.outputs + 1,
    ) by {
        if sig.args == 1 {
            lemma_effect_between(given, dup, code, dup, s);
            let inside = instr_effect(given, dup, s);
            assert(effect(given, code, inside) == replaced(
                inside,
                sig.args as int,
                sig.outputs as int,
            ));
        } else {
            let first = push_temp(others, span);
            let last = pop_temp(others, span);
            let around = seq![first, dup, last];
            assert(around =~= seq![first] + seq![dup] + seq![last]);
            lemma_effect_between(given, first, seq![dup], last, s);
            lemma_effect_one(given, dup, instr_effect(given, first, s));
            law_effects_follow(given, around, code, s);
            let inside = effect(given, around, s);
            assert(inside == replaced(s, sig.args as int, sig.args + 1));
            assert(effect(given, code, inside) == replaced(
                inside,
                sig.args as int,
                sig.outputs as int,
            ));
        }
    }
}

/// The effect of a modifier that runs one piece of code with values put aside and another one
/// with them back.
proof fn lemma_effect_two(
    given: spec_fn(Instr) -> Signature,
    before: Seq<Instr>,
    b: Seq<Instr>,
    b_sig: Signature,
    between: Seq<Instr>,
    a: Seq<Instr>,
    a_sig: Signature,
    s: Heights,
)
    requires
        has_effect(given, a, a_sig),
        has_effect(given, b, b_sig),
        reached(effect(given, before, s)),
        reached(
            effect(
                given,
                between,
                replaced(effect(given, before, s), b_sig.args as int, b_sig.outputs as int),
            ),
        ),
    ensures
        effect(given, before + b + between + a, s) == replaced(
            effect(
                given,
                between,
                replaced(effect(given, before, s), b_sig.args as int, b_sig.outputs as int),
            ),
            a_sig.args as int,
            a_sig.outputs as int,
        ),
{
    law_effects_follow(given, before + b + between, a, s);
    law_effects_follow(given, before + b, between, s);
    law_effects_follow(given, before, b, s);
}

/// The effect of an instruction that is only there where a count is not zero.
proof fn lemma_effect_if_any(
    given: spec_fn(Instr) -> Signature,
    count: usize,
    instr: Instr,
    s: Heights,
)
    ensures
        effect(given, if_any(count, instr), s) == if count > 0 {
            instr_effect(given, instr, s)
        } else {
            s
        },
{
    lemma_effect_one(given, instr, s);
}

/// The signature of a bracket is what its code does.
pub proof fn law_bracket_signature(
    given: spec_fn(Instr) -> Signature,
    a: Seq<Instr>,
    a_sig: Signature,
    b: Seq<Instr>,
    b_sig: Signature,
    span: usize,
)
    requires
        has_effect(given, a, a_sig),
        has_effect(given, b, b_sig),
        a_sig.args + b_sig.args <= usize::MAX,
        a_sig.outputs + b_sig.outputs <= usize::MAX,
    ensures
        has_effect(given, bracket_code(a, a_sig, b, span), bracket_sig(a_sig, b_sig)),
{
    let whole = bracket_code(a, a_sig, b, span);
    let n = a_sig.args;
    assert forall|s: Heights| reached(s) implies #[trigger] effect(given, whole, s) == replaced(
        s,
        a_sig.args + b_sig.args,
        a_sig.outputs + b_sig.outputs,
    ) by {
        lemma_effect_one(given, push_temp(n, span), s);
        let inside = instr_effect(given, push_temp(n, span), s);
        let after = replaced(inside, b_sig.args as int, b_sig.outputs as int);
        lemma_effect_one(given, pop_temp(n, span), after);
        lemma_effect_two(
            given,
            seq![push_temp(n, span)],
            b,
            b_sig,
            seq![pop_temp(n, span)],
            a,
            a_sig,
            s,
        );
    }
}

/// The signature of a both is what its code does.
pub proof fn law_both_signature(
    given: spec_fn(Instr) -> Signature,
    code: Seq<Instr>,
    sig: Signature,
    span: usize,
)
    requires
        has_effect(given, code, sig),
        sig.args + sig.args <= usize::MAX,
        sig.outputs + sig.outputs <= usize::MAX,
    ensures
        has_effect(given, both_code(code, sig, span), both_sig(sig)),
{
    law_bracket_signature(given, code, sig, code, sig, span);
}

proof fn lemma_effect_pops(given: spec_fn(Instr) -> Signature, n: nat, span: usize, s: Heights)
    requires
        reached(s),
    ensures
        effect(given, repeated(Instr::Prim(Primitive::Pop, span), n), s) == replaced(
            s,
            n as int,
            0,
        ),
    decreases n,
{
    let pop = Instr::Prim(Primitive::Pop, span);
    if n > 0 {
        lemma_effect_pops(given, (n - 1) as nat, span, s);
        assert(repeated(pop, n).drop_last() =~= repeated(pop, (n - 1) as nat));
    }
}

/// Dropping what is below the top `b` of `a` values.
proof fn lemma_effect_narrow(
    given: spec_fn(Instr) -> Signature,
    a: usize,
    b: usize,
    span: usize,
    s: Heights,
)
    requires
        reached(s),
    ensures
        effect(given, narrow_code(a, b, span), s) == if a <= b {
            s
        } else {
            replaced(s, a as int, b as int)
        },
{
    if a > b {
        let diff = (a - b) as nat;
        let pops = repeated(Instr::Prim(Primitive::Pop, span), diff);
        if b == 0 {
            lemma_effect_pops(given, diff, span, s);
        } else {
            lemma_effect_between(given, push_temp(b, span), pops, pop_temp(b, span), s);
            lemma_effect_pops(given, diff, span, instr_effect(given, push_temp(b, span), s));
        }
    }
}

/// The signature of a fork is what its code does.
pub proof fn law_fork_signature(
    given: spec_fn(Instr) -> Signature,
    a: Seq<Instr>,
    a_sig: Signature,
    b: Seq<Instr>,
    b_sig: Signature,
    span: usize,
)
    requires
        has_effect(given, a, a_sig),
        has_effect(given, b, b_sig),
        a_sig.outputs + b_sig.outputs <= usize::MAX,
    ensures
        has_effect(given, fork_code(a, a_sig, b, b_sig, span), fork_sig(a_sig, b_sig)),
{
    let whole = fork_code(a, a_sig, b, b_sig, span);
    let n = a_sig.args;
    let copy = if_any(n, copy_temp(n, span));
    let narrow = narrow_code(n, b_sig.args, span);
    let pop = if_any(n, pop_temp(n, span));
    assert forall|s: Heights| reached(s) implies #[trigger] effect(given, whole, s) == replaced(
        s,
        fork_sig(a_sig, b_sig).args as int,
        a_sig.outputs + b_sig.outputs,
    ) by {
        lemma_effect_if_any(given, n, copy_temp(n, span), s);
        let copied = effect(given, copy, s);
        law_effects_follow(given, copy, narrow, s);
        lemma_effect_narrow(given, n, b_sig.args, span, copied);
        let inside = effect(given, copy + narrow, s);
        let after = replaced(inside, b_sig.args as int, b_sig.outputs as int);
        lemma_effect_if_any(given, n, pop_temp(n, span), after);
        lemma_effect_two(given, copy + narrow, b, b_sig, pop, a, a_sig, s);
    }
}

/// The signature of a cascade is what its code does, where its first function takes all that its
/// second one leaves, its second one takes all that is kept for the first, and the first leaves
/// at least what is kept beyond what the second leaves.
pub proof fn law_cascade_signature(
    given: spec_fn(Instr) -> Signature,
    a: Seq<Instr>,
    a_sig: Signature,
    b: Seq<Instr>,
    b_sig: Signature,
    span: usize,
)
    requires
        has_effect(given, a, a_sig),
        has_effect(given, b, b_sig),
        b_sig.outputs <= a_sig.args,
        cascade_count(a_sig, b_sig) <= b_sig.args,
        excess(cascade_count(a_sig, b_sig), b_sig.outputs) <= a_sig.outputs,
    ensures
        has_effect(given, cascade_code(a, a_sig, b, b_sig, span), cascade_sig(a_sig, b_sig)),
{
    let whole = cascade_code(a, a_sig, b, b_sig, span);
    let n = cascade_count(a_sig, b_sig);
    let copy = if_any(n, copy_temp(n, span));
    let pop = if_any(n, pop_temp(n, span));
    assert forall|s: Heights| reached(s) implies #[trigger] effect(given, whole, s) == replaced(
        s,
        b_sig.args as int,
        a_sig.outputs as int,
    ) by {
        lemma_effect_if_any(given, n, copy_temp(n, span), s);
        let inside = effect(given, copy, s);
        let after = replaced(inside, b_sig.args as int, b_sig.outputs as int);
        lemma_effect_if_any(given, n, pop_temp(n, span), after);
        lemma_effect_two(given, copy, b, b_sig, pop, a, a_sig, s);
    }
}

/// The signature of a bind is what its code does.
pub proof fn law_bind_signature(
    given: spec_fn(Instr) -> Signature,
    code: Seq<Instr>,
    sig: Signature,
    count: usize,
    span: usize,
)
    requires
        has_effect(given, code, sig),
        sig.args + count <= usize::MAX,
    ensures
        has_effect(given, bind_code(code, count, span), bind_sig(sig, count)),
{
    let whole = bind_code(code, count, span);
    let first = Instr::PushLocals { count, span };
    assert forall|s: Heights| reached(s) implies #[trigger] effect(given, whole, s) == replaced(
        s,
        sig.args + count,
        sig.outputs as int,
    ) by {
        lemma_effect_between(given, first, code, Instr::PopLocals, s);
        let inside = instr_effect(given, first, s);
        assert(effect(given, code, inside) == replaced(
            inside,
            sig.args as int,
            sig.outputs as int,
        ));
    }
}

/// Each step of taking boxes off brings one value back from aside.
proof fn lemma_effect_unbox_each(
    given: spec_fn(Instr) -> Signature,
    n: nat,
    span: usize,
    s: Heights,
)
    requires
        reached(s),
    ensures
        ({
            let t = effect(given, unbox_each(n, span), s);
            &&& t.main == s.main + n
            &&& t.need == if n == 0 {
                s.need
            } else {
                most(s.need, 1 - s.main)
            }
            &&& t.aside == s.aside - n
            &&& t.aside_need == most(s.aside_need, n - s.aside)
            &&& t.locals == s.locals
        }),
    decreases n,
{
    if n > 0 {
        lemma_effect_unbox_each(given, (n - 1) as nat, span, s);
        let unbox = Instr::ImplPrim(ImplPrimitive::UnBox, span);
        let pair = seq![unbox, pop_temp(1, span)];
        let before = effect(given, unbox_each((n - 1) as nat, span), s);
        assert(pair =~= seq![unbox] + seq![pop_temp(1, span)]);
        law_effects_follow(given, seq![unbox], seq![pop_temp(1, span)], before);
        lemma_effect_one(given, unbox, before);
        lemma_effect_one(given, pop_temp(1, span), instr_effect(given, unbox, before));
        law_effects_follow(given, unbox_each((n - 1) as nat, span), pair, s);
    }
}

/// Taking the top values out of their boxes needs them and leaves as many.
proof fn lemma_effect_unbox(
    given: spec_fn(Instr) -> Signature,
    args: usize,
    span: usize,
    s: Heights,
)
    requires
        reached(s),
    ensures
        effect(given, unbox_code(args, span), s) == replaced(s, args as int, args as int),
{
    let unbox = Instr::ImplPrim(ImplPrimitive::UnBox, span);
    if args == 1 {
        lemma_effect_one(given, unbox, s);
    } else if args > 1 {
        let others = (args - 1) as usize;
        let first = push_temp(others, span);
        lemma_effect_between(given, first, unbox_each(others as nat, span), unbox, s);
        lemma_effect_unbox_each(given, others as nat, span, instr_effect(given, first, s));
    }
}

/// A content has the signature of its function.
pub proof fn law_content_signature(
    given: spec_fn(Instr) -> Signature,
    code: Seq<Instr>,
    sig: Signature,
    span: usize,
)
    requires
        has_effect(given, code, sig),
    ensures
        has_effect(given, content_code(code, sig, span), sig),
{
    let whole = content_code(code, sig, span);
    assert forall|s: Heights| reached(s) implies #[trigger] effect(given, whole, s) == replaced(
        s,
        sig.args as int,
        sig.outputs as int,
    ) by {
        lemma_effect_unbox(given, sig.args, span, s);
        law_effects_follow(given, unbox_code(sig.args, span), code, s);
        let inside = replaced(s, sig.args as int, sig.args as int);
        assert(effect(given, code, inside) == replaced(
            inside,
            sig.args as int,
            sig.outputs as int,
        ));
    }
}

/// Code that pushes values takes none and leaves as many as it pushes.
pub proof fn law_pushes_signature(given: spec_fn(Instr) -> Signature, values: Seq<Value>)
    requires
        values.len() <= usize::MAX,
    ensures
        has_effect(
            given,
            pushes(values),
            Signature { args: 0, outputs: values.len() as usize },
        ),
    decreases values.len(),
{
    let whole = pushes(values);
    if values.len() > 0 {
        let fewer = values.drop_last();
        law_pushes_signature(given, fewer);
        assert(whole.drop_last() =~= pushes(fewer));
    }
    assert forall|s: Heights| reached(s) implies #[trigger] effect(given, whole, s) == replaced(
        s,
        0,
        values.len() as int,
    ) by {
        if values.len() > 0 {
            let fewer = values.drop_last();
            assert(effect(given, pushes(fewer), s) == replaced(s, 0, fewer.len() as int));
        }
    }
}

} // verus!
