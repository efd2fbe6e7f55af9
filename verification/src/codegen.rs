//! The code of modifiers, put together from the code of their operands.
//!
//! An operand comes with its signature: how many values its code takes from the stack and how many
//! it leaves there. The first argument is on top of the stack.
use crate::instr::{grounded, Instr, TempStack};
use crate::keeping::lemma_grounded_concat;
use crate::prim::{ImplPrimitive, Primitive, Signature};
use vstd::prelude::*;

verus! {

/// Moves the top values aside.
pub open spec fn push_temp(count: usize, span: usize) -> Instr {
    Instr::PushTemp { stack: TempStack::Inline, count, span }
}

/// Moves values back.
pub open spec fn pop_temp(count: usize, span: usize) -> Instr {
    Instr::PopTemp { stack: TempStack::Inline, count, span }
}

/// Copies the top values aside.
pub open spec fn copy_temp(count: usize, span: usize) -> Instr {
    Instr::CopyToTemp { stack: TempStack::Inline, count, span }
}

/// The larger of two counts.
pub open spec fn larger(a: usize, b: usize) -> usize {
    if a >= b {
        a
    } else {
        b
    }
}

/// The difference of two counts, or nothing where there is none.
pub open spec fn excess(a: usize, b: usize) -> usize {
    if a >= b {
        (a - b) as usize
    } else {
        0
    }
}

fn max(a: usize, b: usize) -> (res: usize)
    ensures
        res == larger(a, b),
{
    if a >= b {
        a
    } else {
        b
    }
}

/// Some code under the top value.
pub open spec fn dip_code(code: Seq<Instr>, span: usize) -> Seq<Instr> {
    seq![push_temp(1, span)] + code + seq![pop_temp(1, span)]
}

pub open spec fn dip_sig(sig: Signature) -> Signature {
    Signature { args: (sig.args + 1) as usize, outputs: (sig.outputs + 1) as usize }
}

/// Some code that is given the values below the top one, which is dropped.
pub open spec fn gap_code(code: Seq<Instr>, span: usize) -> Seq<Instr> {
    seq![Instr::Prim(Primitive::Pop, span)] + code
}

pub open spec fn gap_sig(sig: Signature) -> Signature {
    Signature { args: (sig.args + 1) as usize, outputs: sig.outputs }
}

/// Some code whose first argument is kept on top of what comes out.
pub open spec fn on_code(code: Seq<Instr>, sig: Signature, span: usize) -> Seq<Instr> {
    seq![
        if sig.args == 0 {
            push_temp(1, span)
        } else {
            copy_temp(1, span)
        },
    ] + code + seq![pop_temp(1, span)]
}

pub open spec fn on_sig(sig: Signature) -> Signature {
    Signature { args: larger(sig.args, 1), outputs: (sig.outputs + 1) as usize }
}

/// Some code whose last argument is kept below what comes out.
pub open spec fn by_code(code: Seq<Instr>, sig: Signature, span: usize) -> Seq<Instr> {
    let dup = Instr::Prim(Primitive::Dup, span);
    if sig.args == 0 {
        code
    } else if sig.args == 1 {
        seq![dup] + code
    } else {
        let others = (sig.args - 1) as usize;
        seq![push_temp(others, span), dup, pop_temp(others, span)] + code
    }
}

pub open spec fn by_sig(sig: Signature) -> Signature {
    Signature { args: sig.args, outputs: (sig.outputs + 1) as usize }
}

/// The same instruction several times.
pub open spec fn repeated(instr: Instr, n: nat) -> Seq<Instr> {
    Seq::new(n, |i: int| instr)
}

/// Drops what is below the top `b` of `a` values.
pub open spec fn narrow_code(a: usize, b: usize, span: usize) -> Seq<Instr> {
    if a <= b {
        Seq::empty()
    } else {
        let pops = repeated(Instr::Prim(Primitive::Pop, span), (a - b) as nat);
        if b == 0 {
            pops
        } else {
            seq![push_temp(b, span)] + pops + seq![pop_temp(b, span)]
        }
    }
}

/// An instruction that is only there where a count is not zero.
pub open spec fn if_any(count: usize, instr: Instr) -> Seq<Instr> {
    if count > 0 {
        seq![instr]
    } else {
        Seq::empty()
    }
}

/// Two pieces of code on the same arguments.
pub open spec fn fork_code(
    a: Seq<Instr>,
    a_sig: Signature,
    b: Seq<Instr>,
    b_sig: Signature,
    span: usize,
) -> Seq<Instr> {
    if_any(a_sig.args, copy_temp(a_sig.args, span)) + narrow_code(a_sig.args, b_sig.args, span) + b
        + if_any(a_sig.args, pop_temp(a_sig.args, span)) + a
}

pub open spec fn fork_sig(a: Signature, b: Signature) -> Signature {
    Signature {
        args: larger(a.args, b.args),
        outputs: (a.outputs + b.outputs) as usize,
    }
}

/// How many arguments the first function of a cascade has beyond what the second one leaves.
pub open spec fn cascade_count(a: Signature, b: Signature) -> usize {
    excess(a.args, b.outputs)
}

/// Two pieces of code, the second of which goes first, with the arguments that the first one needs
/// beyond what comes out of it.
pub open spec fn cascade_code(
    a: Seq<Instr>,
    a_sig: Signature,
    b: Seq<Instr>,
    b_sig: Signature,
    span: usize,
) -> Seq<Instr> {
    let count = cascade_count(a_sig, b_sig);
    if_any(count, copy_temp(count, span)) + b + if_any(count, pop_temp(count, span)) + a
}

pub open spec fn cascade_sig(a: Signature, b: Signature) -> Signature {
    let count = cascade_count(a, b);
    Signature {
        args: larger(b.args, count),
        outputs: larger(a.outputs, excess(count, b.outputs)),
    }
}

/// Two pieces of code on different arguments.
pub open spec fn bracket_code(
    a: Seq<Instr>,
    a_sig: Signature,
    b: Seq<Instr>,
    span: usize,
) -> Seq<Instr> {
    seq![push_temp(a_sig.args, span)] + b + seq![pop_temp(a_sig.args, span)] + a
}

pub open spec fn bracket_sig(a: Signature, b: Signature) -> Signature {
    Signature { args: (a.args + b.args) as usize, outputs: (a.outputs + b.outputs) as usize }
}

/// Some code on two sets of arguments.
pub open spec fn both_code(code: Seq<Instr>, sig: Signature, span: usize) -> Seq<Instr> {
    bracket_code(code, sig, code, span)
}

pub open spec fn both_sig(sig: Signature) -> Signature {
    bracket_sig(sig, sig)
}

/// Some code with its arguments as local values.
pub open spec fn bind_code(code: Seq<Instr>, count: usize, span: usize) -> Seq<Instr> {
    seq![Instr::PushLocals { count, span }] + code + seq![Instr::PopLocals]
}

pub open spec fn bind_sig(sig: Signature, count: usize) -> Signature {
    Signature { args: (sig.args + count) as usize, outputs: sig.outputs }
}

/// Takes values out of their boxes, one after the other, as they come back from aside.
pub open spec fn unbox_each(n: nat, span: usize) -> Seq<Instr>
    decreases n,
{
    if n == 0 {
        Seq::empty()
    } else {
        unbox_each((n - 1) as nat, span) + seq![
            Instr::ImplPrim(ImplPrimitive::UnBox, span),
            pop_temp(1, span),
        ]
    }
}

/// Takes the top values out of their boxes.
pub open spec fn unbox_code(args: usize, span: usize) -> Seq<Instr> {
    let last = seq![Instr::ImplPrim(ImplPrimitive::UnBox, span)];
    if args == 0 {
        Seq::empty()
    } else if args == 1 {
        last
    } else {
        let others = (args - 1) as usize;
        seq![push_temp(others, span)] + unbox_each(others as nat, span) + last
    }
}

/// Some code with its arguments taken out of their boxes.
pub open spec fn content_code(code: Seq<Instr>, sig: Signature, span: usize) -> Seq<Instr> {
    unbox_code(sig.args, span) + code
}

/// What comes before and after some code, with the signatures stated around them where the code is
/// called.
pub open spec fn under_code(
    before: Seq<Instr>,
    before_sig: Signature,
    code: Seq<Instr>,
    after: Seq<Instr>,
    after_sig: Signature,
    call: bool,
) -> Seq<Instr> {
    if call {
        seq![Instr::PushSig(before_sig)] + before + seq![Instr::PopSig] + code + seq![
            Instr::PushSig(after_sig),
        ] + after + seq![Instr::PopSig]
    } else {
        before + code + after
    }
}

/// Code in which no function is pushed can stand anywhere.
pub open spec fn plain(code: Seq<Instr>) -> bool {
    forall|i: int| 0 <= i < code.len() ==> !((#[trigger] code[i]) is PushFunc)
}

/// Code between other code in which no function is pushed.
proof fn lemma_grounded_between(
    before: Seq<Instr>,
    code: Seq<Instr>,
    after: Seq<Instr>,
    limit: nat,
)
    requires
        plain(before),
        grounded(code, limit),
        plain(after),
    ensures
        grounded(before + code + after, limit),
{
    assert(grounded(before, limit));
    assert(grounded(after, limit));
    lemma_grounded_concat(before, code, limit);
    lemma_grounded_concat(before + code, after, limit);
}

/// A modifier of one function pushes no functions but those of its operand.
pub proof fn lemma_grounded_one(code: Seq<Instr>, sig: Signature, n: usize, span: usize, limit: nat)
    requires
        grounded(code, limit),
    ensures
        grounded(dip_code(code, span), limit),
        grounded(gap_code(code, span), limit),
        grounded(on_code(code, sig, span), limit),
        grounded(by_code(code, sig, span), limit),
        grounded(bind_code(code, n, span), limit),
        grounded(content_code(code, sig, span), limit),
{
    let none = Seq::<Instr>::empty();
    let dup = Instr::Prim(Primitive::Dup, span);
    let others = (sig.args - 1) as usize;
    lemma_grounded_between(seq![push_temp(1, span)], code, seq![pop_temp(1, span)], limit);
    lemma_grounded_between(seq![copy_temp(1, span)], code, seq![pop_temp(1, span)], limit);
    lemma_grounded_between(
        seq![Instr::PushLocals { count: n, span }],
        code,
        seq![Instr::PopLocals],
        limit,
    );
    lemma_grounded_between(seq![Instr::Prim(Primitive::Pop, span)], code, none, limit);
    assert(gap_code(code, span) + none =~= gap_code(code, span));
    let around = seq![push_temp(others, span), dup, pop_temp(others, span)];
    lemma_grounded_between(around, code, none, limit);
    assert(around + code + none =~= around + code);
    lemma_grounded_between(seq![dup], code, none, limit);
    assert(seq![dup] + code + none =~= seq![dup] + code);
    let unbox = unbox_code(sig.args, span);
    lemma_unbox_plain(others as nat, span);
    assert(plain(unbox));
    lemma_grounded_between(unbox, code, none, limit);
    assert(unbox + code + none =~= unbox + code);
}

proof fn lemma_unbox_plain(n: nat, span: usize)
    ensures
        plain(unbox_each(n, span)),
    decreases n,
{
    if n > 0 {
        lemma_unbox_plain((n - 1) as nat, span);
    }
}

/// A modifier of two functions pushes no functions but those of its operands.
pub proof fn lemma_grounded_two(
    a: Seq<Instr>,
    a_sig: Signature,
    b: Seq<Instr>,
    b_sig: Signature,
    span: usize,
    limit: nat,
)
    requires
        grounded(a, limit),
        grounded(b, limit),
    ensures
        grounded(fork_code(a, a_sig, b, b_sig, span), limit),
        grounded(cascade_code(a, a_sig, b, b_sig, span), limit),
        grounded(bracket_code(a, a_sig, b, span), limit),
{
    let n = a_sig.args;
    let count = cascade_count(a_sig, b_sig);
    let narrow = narrow_code(n, b_sig.args, span);
    let copy = if_any(n, copy_temp(n, span));
    assert(plain(narrow));
    assert(plain(copy + narrow));
    let pop = if_any(n, pop_temp(n, span));
    lemma_grounded_between(copy + narrow, b, pop, limit);
    lemma_grounded_concat(copy + narrow + b + pop, a, limit);
    let copy_some = if_any(count, copy_temp(count, span));
    let pop_some = if_any(count, pop_temp(count, span));
    lemma_grounded_between(copy_some, b, pop_some, limit);
    lemma_grounded_concat(copy_some + b + pop_some, a, limit);
    lemma_grounded_between(seq![push_temp(n, span)], b, seq![pop_temp(n, span)], limit);
    lemma_grounded_concat(seq![push_temp(n, span)] + b + seq![pop_temp(n, span)], a, limit);
}

/// An under pushes no functions but those of its parts.
pub proof fn lemma_grounded_under(
    before: Seq<Instr>,
    before_sig: Signature,
    code: Seq<Instr>,
    after: Seq<Instr>,
    after_sig: Signature,
    call: bool,
    limit: nat,
)
    requires
        grounded(before, limit),
        grounded(code, limit),
        grounded(after, limit),
    ensures
        grounded(under_code(before, before_sig, code, after, after_sig, call), limit),
{
    lemma_grounded_concat(before, code, limit);
    lemma_grounded_concat(before + code, after, limit);
    let open = seq![Instr::PushSig(before_sig)];
    let open_after = seq![Instr::PushSig(after_sig)];
    let close = seq![Instr::PopSig];
    lemma_grounded_between(open, before, close, limit);
    lemma_grounded_concat(open + before + close, code, limit);
    let first = open + before + close + code;
    lemma_grounded_between(open_after, after, close, limit);
    lemma_grounded_concat(first, open_after + after + close, limit);
    assert(first + (open_after + after + close) =~= first + open_after + after + close);
}

/// Code with an instruction before and one after it.
fn between(first: Instr, instrs: Vec<Instr>, last: Instr) -> (res: Vec<Instr>)
    ensures
        res@ == seq![first] + instrs@ + seq![last],
{
    let ghost code = instrs@;
    let mut res = instrs;
    res.insert(0, first);
    res.push(last);
    assert(res@ =~= seq![first] + code + seq![last]);
    res
}

/// The code of a dip.
pub fn make_dip(instrs: Vec<Instr>, span: usize) -> (res: Vec<Instr>)
    ensures
        res@ == dip_code(instrs@, span),
{
    between(
        Instr::PushTemp { stack: TempStack::Inline, count: 1, span },
        instrs,
        Instr::PopTemp { stack: TempStack::Inline, count: 1, span },
    )
}

/// The code of a gap.
pub fn make_gap(instrs: Vec<Instr>, span: usize) -> (res: Vec<Instr>)
    ensures
        res@ == gap_code(instrs@, span),
{
    let mut res = instrs;
    res.insert(0, Instr::Prim(Primitive::Pop, span));
    assert(res@ =~= gap_code(instrs@, span));
    res
}

/// The code of an on.
pub fn make_on(instrs: Vec<Instr>, sig: Signature, span: usize) -> (res: Vec<Instr>)
    ensures
        res@ == on_code(instrs@, sig, span),
{
    let first = if sig.args == 0 {
        Instr::PushTemp { stack: TempStack::Inline, count: 1, span }
    } else {
        Instr::CopyToTemp { stack: TempStack::Inline, count: 1, span }
    };
    between(first, instrs, Instr::PopTemp { stack: TempStack::Inline, count: 1, span })
}

/// The code of a by.
pub fn make_by(instrs: Vec<Instr>, sig: Signature, span: usize) -> (res: Vec<Instr>)
    ensures
        res@ == by_code(instrs@, sig, span),
{
    let mut res = instrs;
    if sig.args > 0 {
        let mut i: usize = 0;
        if sig.args > 1 {
            res.insert(
                i,
                Instr::PushTemp { stack: TempStack::Inline, count: sig.args - 1, span },
            );
            i = i + 1;
        }
        res.insert(i, Instr::Prim(Primitive::Dup, span));
        i = i + 1;
        if sig.args > 1 {
            res.insert(
                i,
                Instr::PopTemp { stack: TempStack::Inline, count: sig.args - 1, span },
            );
        }
    }
    assert(res@ =~= by_code(instrs@, sig, span));
    res
}

/// The code of a fork.
pub fn make_fork(
    a_instrs: Vec<Instr>,
    a_sig: Signature,
    b_instrs: Vec<Instr>,
    b_sig: Signature,
    span: usize,
) -> (res: Vec<Instr>)
    ensures
        res@ == fork_code(a_instrs@, a_sig, b_instrs@, b_sig, span),
{
    let ghost a = a_instrs@;
    let ghost b = b_instrs@;
    let ghost copy = if_any(a_sig.args, copy_temp(a_sig.args, span));
    let ghost narrow = narrow_code(a_sig.args, b_sig.args, span);
    let mut a_instrs = a_instrs;
    let mut b_instrs = b_instrs;
    let mut instrs: Vec<Instr> = Vec::new();
    if a_sig.args > 0 {
        instrs.push(Instr::CopyToTemp { stack: TempStack::Inline, count: a_sig.args, span });
    }
    assert(instrs@ =~= copy);
    if a_sig.args > b_sig.args {
        let diff: usize = a_sig.args - b_sig.args;
        if b_sig.args > 0 {
            instrs.push(Instr::PushTemp { stack: TempStack::Inline, count: b_sig.args, span });
        }
        let ghost opened = instrs@;
        let ghost pop = Instr::Prim(Primitive::Pop, span);
        assert(opened + repeated(pop, 0) =~= opened);
        for i in 0..diff
            invariant
                pop == Instr::Prim(Primitive::Pop, span),
                instrs@ == opened + repeated(pop, i as nat),
        {
            instrs.push(Instr::Prim(Primitive::Pop, span));
            assert(instrs@ =~= opened + repeated(pop, (i + 1) as nat));
        }
        if b_sig.args > 0 {
            instrs.push(Instr::PopTemp { stack: TempStack::Inline, count: b_sig.args, span });
        }
    }
    assert(instrs@ =~= copy + narrow);
    instrs.append(&mut b_instrs);
    if a_sig.args > 0 {
        instrs.push(Instr::PopTemp { stack: TempStack::Inline, count: a_sig.args, span });
    }
    assert(instrs@ =~= copy + narrow + b + if_any(a_sig.args, pop_temp(a_sig.args, span)));
    instrs.append(&mut a_instrs);
    instrs
}

/// The signature of a fork.
pub fn make_fork_sig(a: Signature, b: Signature) -> (res: Signature)
    requires
        a.outputs + b.outputs <= usize::MAX,
    ensures
        res == fork_sig(a, b),
{
    Signature::new(max(a.args, b.args), a.outputs + b.outputs)
}

/// The code of a cascade.
pub fn make_cascade(
    a_instrs: Vec<Instr>,
    a_sig: Signature,
    b_instrs: Vec<Instr>,
    b_sig: Signature,
    span: usize,
) -> (res: Vec<Instr>)
    ensures
        res@ == cascade_code(a_instrs@, a_sig, b_instrs@, b_sig, span),
{
    let ghost b = b_instrs@;
    let mut a_instrs = a_instrs;
    let mut b_instrs = b_instrs;
    let count: usize = a_sig.args.saturating_sub(b_sig.outputs);
    let mut instrs: Vec<Instr> = Vec::new();
    if count > 0 {
        instrs.push(Instr::CopyToTemp { stack: TempStack::Inline, count, span });
    }
    assert(instrs@ =~= if_any(count, copy_temp(count, span)));
    instrs.append(&mut b_instrs);
    if count > 0 {
        instrs.push(Instr::PopTemp { stack: TempStack::Inline, count, span });
    }
    assert(instrs@ =~= if_any(count, copy_temp(count, span)) + b + if_any(
        count,
        pop_temp(count, span),
    ));
    instrs.append(&mut a_instrs);
    instrs
}

/// The signature of a cascade.
pub fn make_cascade_sig(a: Signature, b: Signature) -> (res: Signature)
    ensures
        res == cascade_sig(a, b),
{
    let count: usize = a.args.saturating_sub(b.outputs);
    Signature::new(max(b.args, count), max(a.outputs, count.saturating_sub(b.outputs)))
}

/// The code of a bracket.
pub fn make_bracket(
    a_instrs: Vec<Instr>,
    a_sig: Signature,
    b_instrs: Vec<Instr>,
    span: usize,
) -> (res: Vec<Instr>)
    ensures
        res@ == bracket_code(a_instrs@, a_sig, b_instrs@, span),
{
    let mut a_instrs = a_instrs;
    let mut instrs = between(
        Instr::PushTemp { stack: TempStack::Inline, count: a_sig.args, span },
        b_instrs,
        Instr::PopTemp { stack: TempStack::Inline, count: a_sig.args, span },
    );
    instrs.append(&mut a_instrs);
    instrs
}

/// A copy of some code.
pub fn copied_code(instrs: &Vec<Instr>) -> (res: Vec<Instr>)
    ensures
        res@ == instrs@,
{
    let res = instrs.clone();
    assert(res@ =~= instrs@);
    res
}

/// The code of a both.
pub fn make_both(instrs: Vec<Instr>, sig: Signature, span: usize) -> (res: Vec<Instr>)
    ensures
        res@ == both_code(instrs@, sig, span),
{
    let copy = copied_code(&instrs);
    make_bracket(copy, sig, instrs, span)
}

/// The code of a bind.
pub fn make_bind(instrs: Vec<Instr>, count: usize, span: usize) -> (res: Vec<Instr>)
    ensures
        res@ == bind_code(instrs@, count, span),
{
    between(Instr::PushLocals { count, span }, instrs, Instr::PopLocals)
}

/// The code of a content.
pub fn make_content(instrs: Vec<Instr>, sig: Signature, span: usize) -> (res: Vec<Instr>)
    ensures
        res@ == content_code(instrs@, sig, span),
{
    let mut instrs = instrs;
    let mut prefix: Vec<Instr> = Vec::new();
    if sig.args > 0 {
        if sig.args > 1 {
            let others: usize = sig.args - 1;
            prefix.push(Instr::PushTemp { stack: TempStack::Inline, count: others, span });
            let ghost opened = prefix@;
            assert(opened + unbox_each(0, span) =~= opened);
            for i in 0..others
                invariant
                    prefix@ == opened + unbox_each(i as nat, span),
            {
                prefix.push(Instr::ImplPrim(ImplPrimitive::UnBox, span));
                prefix.push(Instr::PopTemp { stack: TempStack::Inline, count: 1, span });
                assert(prefix@ =~= opened + unbox_each((i + 1) as nat, span));
            }
        }
        prefix.push(Instr::ImplPrim(ImplPrimitive::UnBox, span));
    }
    assert(prefix@ =~= unbox_code(sig.args, span));
    prefix.append(&mut instrs);
    prefix
}

/// The code of an under.
pub fn make_under(
    f_before: Vec<Instr>,
    before_sig: Signature,
    g_instrs: Vec<Instr>,
    f_after: Vec<Instr>,
    after_sig: Signature,
    call: bool,
) -> (res: Vec<Instr>)
    ensures
        res@ == under_code(f_before@, before_sig, g_instrs@, f_after@, after_sig, call),
{
    let ghost wanted = under_code(f_before@, before_sig, g_instrs@, f_after@, after_sig, call);
    let mut f_before = f_before;
    let mut g_instrs = g_instrs;
    let mut f_after = f_after;
    let mut instrs: Vec<Instr> = Vec::new();
    if call {
        instrs.push(Instr::PushSig(before_sig));
    }
    instrs.append(&mut f_before);
    if call {
        instrs.push(Instr::PopSig);
    }
    instrs.append(&mut g_instrs);
    if call {
        instrs.push(Instr::PushSig(after_sig));
    }
    instrs.append(&mut f_after);
    if call {
        instrs.push(Instr::PopSig);
    }
    assert(instrs@ =~= wanted);
    instrs
}

} // verus!
