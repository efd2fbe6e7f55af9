//! What the code of modifiers does to the values on the stack.
//!
//! The top of a stack is its last value. Values that are moved aside come back in the order in
//! which they were. What an instruction does to the main stack is given, but for the instructions
//! that move values between the stacks, for pushes, and for the primitives that drop and duplicate
//! the top value.
use crate::codegen::{
    both_code, both_sig, bracket_code, bracket_sig, by_code, by_sig, cascade_code, cascade_count,
    cascade_sig, content_code, copy_temp, dip_code, dip_sig, fork_code, fork_sig, gap_code, gap_sig,
    if_any, larger, narrow_code, on_code, on_sig, pop_temp, push_temp, repeated, unbox_code,
    unbox_each, under_code,
};
use crate::comptime::pushes;
use crate::instr::{Instr, TempStack};
use crate::prim::{ImplPrimitive, Primitive, Signature};
use crate::value::Value;
use vstd::prelude::*;

verus! {

/// The values on the main stack and those that have been put aside.
#[verifier::ext_equal]
pub struct Stacks {
    pub main: Seq<Value>,
    pub aside: Seq<Value>,
}

/// What the other instructions do to the main stack.
pub type Others = spec_fn(Instr, Seq<Value>) -> Seq<Value>;

/// What a function makes of its arguments. The first argument is the last of them.
pub type Meaning = spec_fn(Seq<Value>) -> Seq<Value>;

/// The last `n` values.
pub open spec fn top(values: Seq<Value>, n: nat) -> Seq<Value> {
    values.skip(values.len() - n)
}

/// All but the last `n` values.
pub open spec fn below(values: Seq<Value>, n: nat) -> Seq<Value> {
    values.take(values.len() - n)
}

/// What one instruction does.
pub open spec fn instr_run(others: Others, instr: Instr, s: Stacks) -> Stacks {
    match instr {
        Instr::PushTemp { stack: TempStack::Inline, count, span } => Stacks {
            main: below(s.main, count as nat),
            aside: s.aside + top(s.main, count as nat).reverse(),
        },
        Instr::PopTemp { stack: TempStack::Inline, count, span } => Stacks {
            main: s.main + top(s.aside, count as nat).reverse(),
            aside: below(s.aside, count as nat),
        },
        Instr::CopyToTemp { stack: TempStack::Inline, count, span } => Stacks {
            main: s.main,
            aside: s.aside + top(s.main, count as nat).reverse(),
        },
        Instr::Push(value) => Stacks { main: s.main.push(value), ..s },
        Instr::Prim(Primitive::Pop, _) => Stacks { main: s.main.drop_last(), ..s },
        Instr::Prim(Primitive::Dup, _) => Stacks { main: s.main.push(s.main.last()), ..s },
        Instr::PushSig(_) | Instr::PopSig => s,
        _ => Stacks { main: others(instr, s.main), ..s },
    }
}

/// What some code does.
pub open spec fn run(others: Others, code: Seq<Instr>, s: Stacks) -> Stacks
    decreases code.len(),
{
    if code.len() == 0 {
        s
    } else {
        instr_run(others, code.last(), run(others, code.drop_last(), s))
    }
}

/// The code replaces its arguments by what the function makes of them, and leaves everything else
/// as it is.
pub open spec fn acts(others: Others, code: Seq<Instr>, args: nat, f: Meaning) -> bool {
    forall|s: Stacks|
        s.main.len() >= args ==> #[trigger] run(others, code, s) == (Stacks {
            main: below(s.main, args) + f(top(s.main, args)),
            ..s
        })
}

/// Code does what its parts do, one after the other.
pub proof fn law_runs_follow(others: Others, a: Seq<Instr>, b: Seq<Instr>, s: Stacks)
    ensures
        run(others, a + b, s) == run(others, b, run(others, a, s)),
    decreases b.len(),
{
    if b.len() == 0 {
        assert(a + b =~= a);
    } else {
        assert((a + b).drop_last() =~= a + b.drop_last());
        law_runs_follow(others, a, b.drop_last(), s);
    }
}

proof fn lemma_run_one(others: Others, instr: Instr, s: Stacks)
    ensures
        run(others, seq![instr], s) == instr_run(others, instr, s),
{
    assert(seq![instr].drop_last() =~= Seq::empty());
    assert(run(others, seq![instr].drop_last(), s) == s);
}

proof fn lemma_run_between(
    others: Others,
    first: Instr,
    code: Seq<Instr>,
    last: Instr,
    s: Stacks,
)
    ensures
        run(others, seq![first] + code + seq![last], s) == instr_run(
            others,
            last,
            run(others, code, instr_run(others, first, s)),
        ),
        run(others, seq![first] + code, s) == run(others, code, instr_run(others, first, s)),
{
    law_runs_follow(others, seq![first] + code, seq![last], s);
    law_runs_follow(others, seq![first], code, s);
    lemma_run_one(others, first, s);
    lemma_run_one(others, last, run(others, seq![first] + code, s));
}

/// The effect of a modifier that runs one piece of code, brings values back and runs another.
proof fn lemma_run_two(
    others: Others,
    before: Seq<Instr>,
    b: Seq<Instr>,
    between: Seq<Instr>,
    a: Seq<Instr>,
    s: Stacks,
)
    ensures
        run(others, before + b + between + a, s) == run(
            others,
            a,
            run(others, between, run(others, b, run(others, before, s))),
        ),
{
    law_runs_follow(others, before + b + between, a, s);
    law_runs_follow(others, before + b, between, s);
    law_runs_follow(others, before, b, s);
}

proof fn lemma_run_if_any(others: Others, count: usize, instr: Instr, s: Stacks)
    ensures
        run(others, if_any(count, instr), s) == if count > 0 {
            instr_run(others, instr, s)
        } else {
            s
        },
{
    lemma_run_one(others, instr, s);
}

/// Values that were put aside come back as they were.
proof fn lemma_back(aside: Seq<Value>, values: Seq<Value>)
    ensures
        top(aside + values.reverse(), values.len()).reverse() == values,
        below(aside + values.reverse(), values.len()) == aside,
{
    let all = aside + values.reverse();
    assert(top(all, values.len()) =~= values.reverse());
    assert(values.reverse().reverse() =~= values);
    assert(below(all, values.len()) =~= aside);
}

/// A dip leaves the top value as it is and does the rest below it.
pub proof fn law_dip_meaning(
    others: Others,
    code: Seq<Instr>,
    sig: Signature,
    f: Meaning,
    span: usize,
)
    requires
        acts(others, code, sig.args as nat, f),
        sig.args < usize::MAX,
    ensures
        acts(
            others,
            dip_code(code, span),
            dip_sig(sig).args as nat,
            |x: Seq<Value>| f(x.drop_last()).push(x.last()),
        ),
{
    let n = sig.args as nat;
    let whole = dip_code(code, span);
    let meaning = |x: Seq<Value>| f(x.drop_last()).push(x.last());
    assert forall|s: Stacks| s.main.len() >= n + 1 implies #[trigger] run(others, whole, s) == (
    Stacks { main: below(s.main, n + 1) + meaning(top(s.main, n + 1)), ..s }) by {
        lemma_run_between(others, push_temp(1, span), code, pop_temp(1, span), s);
        let inside = instr_run(others, push_temp(1, span), s);
        let rest = s.main.drop_last();
        let last = seq![s.main.last()];
        assert(top(s.main, 1) =~= last);
        assert(inside.main =~= rest);
        lemma_back(s.aside, last);
        assert(run(others, code, inside).main == below(rest, n) + f(top(rest, n)));
        assert(below(rest, n) =~= below(s.main, n + 1));
        assert(top(rest, n) =~= top(s.main, n + 1).drop_last());
        assert(run(others, whole, s).main =~= below(s.main, n + 1) + meaning(top(s.main, n + 1)));
    }
}

/// A gap drops the top value and does the rest below it.
pub proof fn law_gap_meaning(
    others: Others,
    code: Seq<Instr>,
    sig: Signature,
    f: Meaning,
    span: usize,
)
    requires
        acts(others, code, sig.args as nat, f),
        sig.args < usize::MAX,
    ensures
        acts(
            others,
            gap_code(code, span),
            gap_sig(sig).args as nat,
            |x: Seq<Value>| f(x.drop_last()),
        ),
{
    let n = sig.args as nat;
    let whole = gap_code(code, span);
    let pop = Instr::Prim(Primitive::Pop, span);
    let meaning = |x: Seq<Value>| f(x.drop_last());
    assert forall|s: Stacks| s.main.len() >= n + 1 implies #[trigger] run(others, whole, s) == (
    Stacks { main: below(s.main, n + 1) + meaning(top(s.main, n + 1)), ..s }) by {
        lemma_run_between(others, pop, code, pop, s);
        let rest = s.main.drop_last();
        assert(below(rest, n) =~= below(s.main, n + 1));
        assert(top(rest, n) =~= top(s.main, n + 1).drop_last());
        assert(run(others, code, Stacks { main: rest, ..s }).main == below(rest, n) + f(
            top(rest, n),
        ));
    }
}

/// An on keeps the first argument on top of what its function leaves.
pub proof fn law_on_meaning(
    others: Others,
    code: Seq<Instr>,
    sig: Signature,
    f: Meaning,
    span: usize,
)
    requires
        acts(others, code, sig.args as nat, f),
    ensures
        acts(
            others,
            on_code(code, sig, span),
            on_sig(sig).args as nat,
            |x: Seq<Value>| f(top(x, sig.args as nat)).push(x.last()),
        ),
{
    let n = sig.args as nat;
    let k = on_sig(sig).args as nat;
    let whole = on_code(code, sig, span);
    let first = if sig.args == 0 {
        push_temp(1, span)
    } else {
        copy_temp(1, span)
    };
    let meaning = |x: Seq<Value>| f(top(x, n)).push(x.last());
    assert forall|s: Stacks| s.main.len() >= k implies #[trigger] run(others, whole, s) == (Stacks {
        main: below(s.main, k) + meaning(top(s.main, k)),
        ..s
    }) by {
        lemma_run_between(others, first, code, pop_temp(1, span), s);
        let inside = instr_run(others, first, s);
        let last = seq![s.main.last()];
        assert(top(s.main, 1) =~= last);
        lemma_back(s.aside, last);
        assert(run(others, code, inside).main == below(inside.main, n) + f(top(inside.main, n)));
        if n == 0 {
            assert(inside.main =~= s.main.drop_last());
            assert(below(inside.main, 0) =~= below(s.main, 1));
            assert(top(inside.main, 0) =~= top(top(s.main, 1), 0));
        } else {
            assert(top(top(s.main, n), n) =~= top(s.main, n));
        }
        assert(run(others, whole, s).main =~= below(s.main, k) + meaning(top(s.main, k)));
    }
}

/// A by keeps the last argument below what its function leaves, where the function has arguments.
pub proof fn law_by_meaning(
    others: Others,
    code: Seq<Instr>,
    sig: Signature,
    f: Meaning,
    span: usize,
)
    requires
        acts(others, code, sig.args as nat, f),
        sig.args > 0,
    ensures
        acts(
            others,
            by_code(code, sig, span),
            by_sig(sig).args as nat,
            |x: Seq<Value>| seq![x[0]] + f(x),
        ),
{
    let n = sig.args as nat;
    let whole = by_code(code, sig, span);
    let dup = Instr::Prim(Primitive::Dup, span);
    let others_count = (sig.args - 1) as usize;
    let meaning = |x: Seq<Value>| seq![x[0]] + f(x);
    assert forall|s: Stacks| s.main.len() >= n implies #[trigger] run(others, whole, s) == (Stacks {
        main: below(s.main, n) + meaning(top(s.main, n)),
        ..s
    }) by {
        let x = top(s.main, n);
        let inside = Stacks { main: below(s.main, n).push(x[0]) + x, ..s };
        if sig.args == 1 {
            lemma_run_between(others, dup, code, dup, s);
            assert(instr_run(others, dup, s).main =~= inside.main);
        } else {
            let first = push_temp(others_count, span);
            let last = pop_temp(others_count, span);
            let around = seq![first, dup, last];
            assert(around =~= seq![first] + seq![dup] + seq![last]);
            lemma_run_between(others, first, seq![dup], last, s);
            lemma_run_one(others, dup, instr_run(others, first, s));
            law_runs_follow(others, around, code, s);
            lemma_back(s.aside, top(s.main, (n - 1) as nat));
            assert(top(s.main, (n - 1) as nat) =~= x.drop_first());
            assert(below(s.main, (n - 1) as nat) =~= below(s.main, n).push(x[0]));
            assert(run(others, around, s).main =~= inside.main);
            assert(run(others, around, s) =~= inside);
        }
        assert(top(inside.main, n) =~= x);
        assert(below(inside.main, n) =~= below(s.main, n).push(x[0]));
        assert(run(others, code, inside).main == below(inside.main, n) + f(x));
        assert(run(others, whole, s).main =~= below(s.main, n) + meaning(x));
    }
}

/// A bracket gives its first function the top arguments and its second one those below them. What
/// the first function leaves is on top.
pub proof fn law_bracket_meaning(
    others: Others,
    a: Seq<Instr>,
    a_sig: Signature,
    f: Meaning,
    b: Seq<Instr>,
    b_sig: Signature,
    g: Meaning,
    span: usize,
)
    requires
        acts(others, a, a_sig.args as nat, f),
        acts(others, b, b_sig.args as nat, g),
        a_sig.args + b_sig.args <= usize::MAX,
    ensures
        acts(
            others,
            bracket_code(a, a_sig, b, span),
            bracket_sig(a_sig, b_sig).args as nat,
            |x: Seq<Value>| g(below(x, a_sig.args as nat)) + f(top(x, a_sig.args as nat)),
        ),
{
    let n = a_sig.args;
    let na = n as nat;
    let nb = b_sig.args as nat;
    let k = na + nb;
    let whole = bracket_code(a, a_sig, b, span);
    let meaning = |x: Seq<Value>| g(below(x, na)) + f(top(x, na));
    assert forall|s: Stacks| s.main.len() >= k implies #[trigger] run(others, whole, s) == (Stacks {
        main: below(s.main, k) + meaning(top(s.main, k)),
        ..s
    }) by {
        let x = top(s.main, k);
        let mine = top(s.main, na);
        let first = seq![push_temp(n, span)];
        let last = seq![pop_temp(n, span)];
        lemma_run_two(others, first, b, last, a, s);
        lemma_run_one(others, push_temp(n, span), s);
        let inside = instr_run(others, push_temp(n, span), s);
        let after = run(others, b, inside);
        lemma_run_one(others, pop_temp(n, span), after);
        lemma_back(s.aside, mine);
        assert(after.main == below(inside.main, nb) + g(top(inside.main, nb)));
        assert(below(inside.main, nb) =~= below(s.main, k));
        assert(top(inside.main, nb) =~= below(x, na));
        assert(mine =~= top(x, na));
        let back = run(others, last, after);
        assert(back.main =~= below(s.main, k) + g(below(x, na)) + mine);
        assert(back.aside =~= s.aside);
        assert(below(back.main, na) =~= below(s.main, k) + g(below(x, na)));
        assert(top(back.main, na) =~= mine);
        assert(run(others, a, back).main == below(back.main, na) + f(mine));
        assert(run(others, whole, s).main =~= below(s.main, k) + meaning(x));
    }
}

/// A both does the same with two sets of arguments.
pub proof fn law_both_meaning(
    others: Others,
    code: Seq<Instr>,
    sig: Signature,
    f: Meaning,
    span: usize,
)
    requires
        acts(others, code, sig.args as nat, f),
        sig.args + sig.args <= usize::MAX,
    ensures
        acts(
            others,
            both_code(code, sig, span),
            both_sig(sig).args as nat,
            |x: Seq<Value>| f(below(x, sig.args as nat)) + f(top(x, sig.args as nat)),
        ),
{
    law_bracket_meaning(others, code, sig, f, code, sig, f, span);
}

proof fn lemma_run_pops(others: Others, n: nat, span: usize, s: Stacks)
    requires
        s.main.len() >= n,
    ensures
        run(others, repeated(Instr::Prim(Primitive::Pop, span), n), s) == (Stacks {
            main: below(s.main, n),
            ..s
        }),
    decreases n,
{
    let pop = Instr::Prim(Primitive::Pop, span);
    if n > 0 {
        let fewer = (n - 1) as nat;
        lemma_run_pops(others, fewer, span, s);
        assert(repeated(pop, n).drop_last() =~= repeated(pop, fewer));
        assert(below(s.main, fewer).drop_last() =~= below(s.main, n));
    } else {
        assert(below(s.main, 0) =~= s.main);
    }
}

/// Dropping what is below the top `b` of `a` values.
proof fn lemma_run_narrow(others: Others, a: usize, b: usize, span: usize, s: Stacks)
    requires
        s.main.len() >= a,
    ensures
        run(others, narrow_code(a, b, span), s) == if a <= b {
            s
        } else {
            Stacks { main: below(s.main, a as nat) + top(s.main, b as nat), ..s }
        },
{
    if a > b {
        let diff = (a - b) as nat;
        let pops = repeated(Instr::Prim(Primitive::Pop, span), diff);
        if b == 0 {
            lemma_run_pops(others, diff, span, s);
            assert(top(s.main, 0) =~= Seq::empty());
            assert(below(s.main, a as nat) + top(s.main, 0) =~= below(s.main, diff));
        } else {
            let kept = top(s.main, b as nat);
            let inside = instr_run(others, push_temp(b, span), s);
            lemma_run_between(others, push_temp(b, span), pops, pop_temp(b, span), s);
            lemma_run_pops(others, diff, span, inside);
            lemma_back(s.aside, kept);
            assert(below(inside.main, diff) =~= below(s.main, a as nat));
            assert(run(others, narrow_code(a, b, span), s) =~= (Stacks {
                main: below(s.main, a as nat) + kept,
                ..s
            }));
        }
    }
}

/// A fork gives both functions the same arguments. What the first function leaves is on top.
pub proof fn law_fork_meaning(
    others: Others,
    a: Seq<Instr>,
    a_sig: Signature,
    f: Meaning,
    b: Seq<Instr>,
    b_sig: Signature,
    g: Meaning,
    span: usize,
)
    requires
        acts(others, a, a_sig.args as nat, f),
        acts(others, b, b_sig.args as nat, g),
    ensures
        acts(
            others,
            fork_code(a, a_sig, b, b_sig, span),
            fork_sig(a_sig, b_sig).args as nat,
            |x: Seq<Value>| g(top(x, b_sig.args as nat)) + f(top(x, a_sig.args as nat)),
        ),
{
    let n = a_sig.args;
    let na = n as nat;
    let nb = b_sig.args as nat;
    let k = larger(a_sig.args, b_sig.args) as nat;
    let whole = fork_code(a, a_sig, b, b_sig, span);
    let copy = if_any(n, copy_temp(n, span));
    let narrow = narrow_code(n, b_sig.args, span);
    let pop = if_any(n, pop_temp(n, span));
    let meaning = |x: Seq<Value>| g(top(x, nb)) + f(top(x, na));
    assert forall|s: Stacks| s.main.len() >= k implies #[trigger] run(others, whole, s) == (Stacks {
        main: below(s.main, k) + meaning(top(s.main, k)),
        ..s
    }) by {
        let x = top(s.main, k);
        let mine = top(s.main, na);
        lemma_run_two(others, copy + narrow, b, pop, a, s);
        lemma_run_if_any(others, n, copy_temp(n, span), s);
        let copied = run(others, copy, s);
        assert(copied =~= (Stacks { main: s.main, aside: s.aside + mine.reverse() }));
        law_runs_follow(others, copy, narrow, s);
        lemma_run_narrow(others, n, b_sig.args, span, copied);
        let inside = run(others, copy + narrow, s);
        assert(below(inside.main, nb) =~= below(s.main, k));
        assert(top(inside.main, nb) =~= top(s.main, nb));
        let after = run(others, b, inside);
        assert(after.main == below(s.main, k) + g(top(s.main, nb)));
        lemma_run_if_any(others, n, pop_temp(n, span), after);
        lemma_back(s.aside, mine);
        let back = run(others, pop, after);
        assert(back.main =~= below(s.main, k) + g(top(s.main, nb)) + mine);
        assert(back.aside =~= s.aside);
        assert(below(back.main, na) =~= below(s.main, k) + g(top(s.main, nb)));
        assert(top(back.main, na) =~= mine);
        assert(run(others, a, back).main == below(back.main, na) + f(mine));
        assert(top(x, nb) =~= top(s.main, nb));
        assert(top(x, na) =~= mine);
        assert(run(others, whole, s).main =~= below(s.main, k) + meaning(x));
    }
}

/// A cascade gives its first function what the second one leaves, below as many of the first
/// arguments as it takes beyond that. It holds where the first function takes all that the second
/// one leaves.
pub proof fn law_cascade_meaning(
    others: Others,
    a: Seq<Instr>,
    a_sig: Signature,
    f: Meaning,
    b: Seq<Instr>,
    b_sig: Signature,
    g: Meaning,
    span: usize,
)
    requires
        acts(others, a, a_sig.args as nat, f),
        acts(others, b, b_sig.args as nat, g),
        forall|x: Seq<Value>| x.len() == b_sig.args ==> (#[trigger] g(x)).len() == b_sig.outputs,
        b_sig.outputs <= a_sig.args,
    ensures
        acts(
            others,
            cascade_code(a, a_sig, b, b_sig, span),
            cascade_sig(a_sig, b_sig).args as nat,
            |x: Seq<Value>|
                below(x, b_sig.args as nat) + f(
                    g(top(x, b_sig.args as nat)) + top(x, cascade_count(a_sig, b_sig) as nat),
                ),
        ),
{
    let n = cascade_count(a_sig, b_sig);
    let nc = n as nat;
    let na = a_sig.args as nat;
    let nb = b_sig.args as nat;
    let k = cascade_sig(a_sig, b_sig).args as nat;
    let whole = cascade_code(a, a_sig, b, b_sig, span);
    let copy = if_any(n, copy_temp(n, span));
    let pop = if_any(n, pop_temp(n, span));
    let meaning = |x: Seq<Value>| below(x, nb) + f(g(top(x, nb)) + top(x, nc));
    assert forall|s: Stacks| s.main.len() >= k implies #[trigger] run(others, whole, s) == (Stacks {
        main: below(s.main, k) + meaning(top(s.main, k)),
        ..s
    }) by {
        let x = top(s.main, k);
        let kept = top(s.main, nc);
        lemma_run_two(others, copy, b, pop, a, s);
        lemma_run_if_any(others, n, copy_temp(n, span), s);
        let inside = run(others, copy, s);
        assert(inside =~= (Stacks { main: s.main, aside: s.aside + kept.reverse() }));
        let made = g(top(s.main, nb));
        let after = run(others, b, inside);
        assert(after.main == below(s.main, nb) + made);
        lemma_run_if_any(others, n, pop_temp(n, span), after);
        lemma_back(s.aside, kept);
        let back = run(others, pop, after);
        assert(back.main =~= below(s.main, nb) + made + kept);
        assert(back.aside =~= s.aside);
        assert(made.len() == b_sig.outputs);
        assert(below(back.main, na) =~= below(s.main, nb));
        assert(top(back.main, na) =~= made + kept);
        assert(run(others, a, back).main == below(back.main, na) + f(made + kept));
        assert(top(x, nb) =~= top(s.main, nb));
        assert(top(x, nc) =~= kept);
        assert(below(s.main, k) + below(x, nb) =~= below(s.main, nb));
        assert(run(others, whole, s).main =~= below(s.main, k) + meaning(x));
    }
}

/// Taking a value out of its box replaces it by what `u` makes of it.
pub open spec fn unboxes(others: Others, span: usize, u: spec_fn(Value) -> Value) -> bool {
    forall|main: Seq<Value>|
        main.len() > 0 ==> #[trigger] others(Instr::ImplPrim(ImplPrimitive::UnBox, span), main)
            == main.drop_last().push(u(main.last()))
}

/// What is left after `n` of the values that were put aside have come back.
proof fn lemma_run_unbox_each(
    others: Others,
    n: nat,
    span: usize,
    u: spec_fn(Value) -> Value,
    s: Stacks,
)
    requires
        unboxes(others, span, u),
        s.main.len() > 0,
        s.aside.len() >= n,
    ensures
        run(others, unbox_each(n, span), s) == (Stacks {
            main: if n == 0 {
                s.main
            } else {
                s.main.drop_last().push(u(s.main.last())) + top(
                    s.aside,
                    n,
                ).reverse().drop_last().map_values(u) + seq![top(s.aside, n).reverse().last()]
            },
            aside: below(s.aside, n),
        }),
    decreases n,
{
    let unbox = Instr::ImplPrim(ImplPrimitive::UnBox, span);
    if n == 0 {
        assert(below(s.aside, 0) =~= s.aside);
    } else {
        let fewer = (n - 1) as nat;
        lemma_run_unbox_each(others, fewer, span, u, s);
        let before = run(others, unbox_each(fewer, span), s);
        let pair = seq![unbox, pop_temp(1, span)];
        assert(pair =~= seq![unbox] + seq![pop_temp(1, span)]);
        law_runs_follow(others, unbox_each(fewer, span), pair, s);
        law_runs_follow(others, seq![unbox], seq![pop_temp(1, span)], before);
        lemma_run_one(others, unbox, before);
        let opened = instr_run(others, unbox, before);
        lemma_run_one(others, pop_temp(1, span), opened);
        let after = run(others, unbox_each(n, span), s);
        let back = top(s.aside, n).reverse();
        assert(back.drop_last() =~= top(s.aside, fewer).reverse());
        assert(after.aside =~= below(s.aside, n));
        assert(before.main.len() > 0);
        assert(opened.main == before.main.drop_last().push(u(before.main.last())));
        assert(top(before.aside, 1).reverse() =~= seq![back.last()]);
        if fewer > 0 {
            let earlier = top(s.aside, fewer).reverse();
            let first = s.main.drop_last().push(u(s.main.last()));
            assert(before.main.drop_last() =~= first + earlier.drop_last().map_values(u));
            assert(before.main.last() == earlier.last());
            assert(earlier.drop_last().map_values(u).push(u(earlier.last()))
                =~= earlier.map_values(u));
            assert(opened.main =~= first + earlier.map_values(u));
        } else {
            assert(back.drop_last().map_values(u) =~= Seq::empty());
        }
        assert(after.main =~= s.main.drop_last().push(u(s.main.last()))
            + back.drop_last().map_values(u) + seq![back.last()]);
    }
}

/// Taking the top values out of their boxes replaces each by what is in it.
proof fn lemma_run_unbox(
    others: Others,
    args: usize,
    span: usize,
    u: spec_fn(Value) -> Value,
    s: Stacks,
)
    requires
        unboxes(others, span, u),
        s.main.len() >= args,
    ensures
        run(others, unbox_code(args, span), s) == (Stacks {
            main: below(s.main, args as nat) + top(s.main, args as nat).map_values(u),
            ..s
        }),
{
    let unbox = Instr::ImplPrim(ImplPrimitive::UnBox, span);
    let n = args as nat;
    let x = top(s.main, n);
    let wanted = below(s.main, n) + x.map_values(u);
    if args == 0 {
        assert(wanted =~= s.main);
    } else if args == 1 {
        lemma_run_one(others, unbox, s);
        assert(s.main.drop_last().push(u(s.main.last())) =~= wanted);
    } else {
        let others_count = (args - 1) as usize;
        let k = others_count as nat;
        let first = push_temp(others_count, span);
        let kept = top(s.main, k);
        let inside = instr_run(others, first, s);
        lemma_run_between(others, first, unbox_each(k, span), unbox, s);
        lemma_run_unbox_each(others, k, span, u, inside);
        lemma_back(s.aside, kept);
        let before = run(others, unbox_each(k, span), inside);
        assert(inside.main.drop_last() =~= below(s.main, n));
        assert(inside.main.last() == x[0]);
        assert(kept =~= x.drop_first());
        assert(before.main.last() == kept.last());
        assert(before.main.drop_last().push(u(before.main.last())) =~= wanted);
        assert(run(others, unbox_code(args, span), s) =~= (Stacks { main: wanted, ..s }));
    }
}

/// A content gives its function what is in the boxes that it is given.
pub proof fn law_content_meaning(
    others: Others,
    code: Seq<Instr>,
    sig: Signature,
    f: Meaning,
    u: spec_fn(Value) -> Value,
    span: usize,
)
    requires
        acts(others, code, sig.args as nat, f),
        unboxes(others, span, u),
    ensures
        acts(
            others,
            content_code(code, sig, span),
            sig.args as nat,
            |x: Seq<Value>| f(x.map_values(u)),
        ),
{
    let n = sig.args as nat;
    let whole = content_code(code, sig, span);
    let meaning = |x: Seq<Value>| f(x.map_values(u));
    assert forall|s: Stacks| s.main.len() >= n implies #[trigger] run(others, whole, s) == (Stacks {
        main: below(s.main, n) + meaning(top(s.main, n)),
        ..s
    }) by {
        let x = top(s.main, n);
        lemma_run_unbox(others, sig.args, span, u, s);
        law_runs_follow(others, unbox_code(sig.args, span), code, s);
        let inside = Stacks { main: below(s.main, n) + x.map_values(u), ..s };
        assert(below(inside.main, n) =~= below(s.main, n));
        assert(top(inside.main, n) =~= x.map_values(u));
        assert(run(others, code, inside).main == below(inside.main, n) + f(x.map_values(u)));
    }
}

/// Code that pushes values leaves them on top, in order.
pub proof fn law_pushes_meaning(others: Others, values: Seq<Value>)
    ensures
        acts(others, pushes(values), 0, |x: Seq<Value>| values),
    decreases values.len(),
{
    let whole = pushes(values);
    let meaning = |x: Seq<Value>| values;
    assert forall|s: Stacks| s.main.len() >= 0 implies #[trigger] run(others, whole, s) == (Stacks {
        main: below(s.main, 0) + meaning(top(s.main, 0)),
        ..s
    }) by {
        assert(below(s.main, 0) =~= s.main);
        if values.len() > 0 {
            let fewer = values.drop_last();
            law_pushes_meaning(others, fewer);
            assert(whole.drop_last() =~= pushes(fewer));
            assert(run(others, pushes(fewer), s).main == below(s.main, 0) + fewer);
            assert((s.main + fewer).push(values.last()) =~= s.main + values);
        } else {
            assert(s.main + values =~= s.main);
        }
    }
}

/// A signature that is stated around code changes nothing.
pub proof fn law_stated_signature_is_silent(
    others: Others,
    code: Seq<Instr>,
    sig: Signature,
    s: Stacks,
)
    ensures
        run(others, seq![Instr::PushSig(sig)] + code + seq![Instr::PopSig], s) == run(
            others,
            code,
            s,
        ),
{
    lemma_run_between(others, Instr::PushSig(sig), code, Instr::PopSig, s);
}

/// An under does the same whether it is called or made into a function.
pub proof fn law_under_same_when_called(
    others: Others,
    before: Seq<Instr>,
    before_sig: Signature,
    code: Seq<Instr>,
    after: Seq<Instr>,
    after_sig: Signature,
    s: Stacks,
)
    ensures
        run(others, under_code(before, before_sig, code, after, after_sig, true), s) == run(
            others,
            under_code(before, before_sig, code, after, after_sig, false),
            s,
        ),
{
    let open = seq![Instr::PushSig(before_sig)];
    let open_after = seq![Instr::PushSig(after_sig)];
    let close = seq![Instr::PopSig];
    let first = open + before + close;
    let last = open_after + after + close;
    assert(under_code(before, before_sig, code, after, after_sig, true) =~= first + code + last);
    law_runs_follow(others, first + code, last, s);
    law_runs_follow(others, first, code, s);
    law_stated_signature_is_silent(others, before, before_sig, s);
    law_stated_signature_is_silent(others, after, after_sig, run(others, first + code, s));
    law_runs_follow(others, before + code, after, s);
    law_runs_follow(others, before, code, s);
}

/// An under does what comes before its function, then what the function does, and then what comes
/// after it.
pub proof fn law_under_meaning(
    others: Others,
    before: Seq<Instr>,
    before_sig: Signature,
    code: Seq<Instr>,
    after: Seq<Instr>,
    after_sig: Signature,
    call: bool,
    s: Stacks,
)
    ensures
        run(others, under_code(before, before_sig, code, after, after_sig, call), s) == run(
            others,
            after,
            run(others, code, run(others, before, s)),
        ),
{
    law_under_same_when_called(others, before, before_sig, code, after, after_sig, s);
    law_runs_follow(others, before + code, after, s);
    law_runs_follow(others, before, code, s);
}

/// A dip of a function with one argument over a duplicate does what an on of the function does.
pub proof fn law_dip_over_duplicate_is_on(
    others: Others,
    code: Seq<Instr>,
    sig: Signature,
    f: Meaning,
    dup: usize,
    span: usize,
    s: Stacks,
)
    requires
        acts(others, code, sig.args as nat, f),
        sig.args == 1,
        s.main.len() >= 1,
    ensures
        run(others, seq![Instr::Prim(Primitive::Dup, dup)] + dip_code(code, span), s) == run(
            others,
            on_code(code, sig, span),
            s,
        ),
{
    let first = Instr::Prim(Primitive::Dup, dup);
    let doubled = instr_run(others, first, s);
    lemma_run_between(others, first, dip_code(code, span), first, s);
    law_dip_meaning(others, code, sig, f, span);
    law_on_meaning(others, code, sig, f, span);
    let x = top(s.main, 1);
    let both = top(doubled.main, 2);
    assert(both.drop_last() =~= x);
    assert(top(x, 1) =~= x);
    assert(below(doubled.main, 2) =~= below(s.main, 1));
    assert(run(others, dip_code(code, span), doubled).main =~= below(s.main, 1) + f(x).push(
        s.main.last(),
    ));
    assert(run(others, on_code(code, sig, span), s).main =~= below(s.main, 1) + f(x).push(
        s.main.last(),
    ));
}

/// A fork of identity and a function does what an on of the function does.
pub proof fn law_fork_with_identity_is_on(
    others: Others,
    identity: Seq<Instr>,
    code: Seq<Instr>,
    sig: Signature,
    f: Meaning,
    span: usize,
    s: Stacks,
)
    requires
        acts(others, identity, 1, |x: Seq<Value>| x),
        acts(others, code, sig.args as nat, f),
        s.main.len() >= on_sig(sig).args,
    ensures
        run(
            others,
            fork_code(identity, Signature { args: 1, outputs: 1 }, code, sig, span),
            s,
        ) == run(others, on_code(code, sig, span), s),
        fork_sig(Signature { args: 1, outputs: 1 }, sig).args == on_sig(sig).args,
{
    let one = Signature { args: 1, outputs: 1 };
    let same = |x: Seq<Value>| x;
    let n = sig.args as nat;
    let k = on_sig(sig).args as nat;
    law_fork_meaning(others, identity, one, same, code, sig, f, span);
    law_on_meaning(others, code, sig, f, span);
    let x = top(s.main, k);
    assert(top(x, 1) =~= seq![x.last()]);
    assert(f(top(x, n)) + top(x, 1) =~= f(top(x, n)).push(x.last()));
}

/// A cascade whose second function leaves at least as much as the first one takes is its second
/// function followed by its first.
pub proof fn law_redundant_cascade(
    a: Seq<Instr>,
    a_sig: Signature,
    b: Seq<Instr>,
    b_sig: Signature,
    span: usize,
)
    requires
        a_sig.args <= b_sig.outputs,
    ensures
        cascade_code(a, a_sig, b, b_sig, span) == b + a,
{
    assert(cascade_code(a, a_sig, b, b_sig, span) =~= b + a);
}

} // verus!
