//! Which code can fail because a pattern does not match.
use crate::assembly::{lemma_body_grounded, Assembly};
use crate::instr::{backward, body_of, grounded, slice_end, Function, Instr};
use crate::prim::{ImplPrimitive, Primitive};
use vstd::prelude::*;

verus! {

/// An instruction that runs one function and, if that fails, another.
pub open spec fn is_try(instr: Instr) -> bool {
    match instr {
        Instr::Prim(prim, _) => prim == Primitive::Try,
        Instr::ImplPrim(prim, _) => prim == ImplPrimitive::TryPattern,
        _ => false,
    }
}

/// An instruction that is itself a pattern match.
pub open spec fn is_pattern(instr: Instr) -> bool {
    match instr {
        Instr::ImplPrim(prim, _) => prim == ImplPrimitive::MatchPattern || prim
            == ImplPrimitive::UnJoinPattern,
        Instr::MatchFormatPattern { .. } => true,
        _ => false,
    }
}

/// A function is pushed at a place, and no `try` takes it directly. A `try` handles the failure
/// of the functions that it takes.
pub open spec fn is_exposed(code: Seq<Instr>, i: int) -> bool {
    code[i] is PushFunc && !(i + 1 < code.len() && is_try(code[i + 1]))
}

/// Whether any instruction matches a pattern, itself or in the function that it pushes.
/// Functions that end after `limit` are not looked into.
pub open spec fn matches_within(code: Seq<Instr>, assembly: Seq<Instr>, limit: nat) -> bool
    decreases limit,
{
    exists|i: int|
        #![trigger code[i]]
        0 <= i < code.len() && (is_pattern(code[i]) || {
            let f = code[i]->PushFunc_0;
            &&& is_exposed(code, i)
            &&& 0 < f.slice.len
            &&& slice_end(f.slice) <= limit
            &&& matches_within(body_of(f, assembly), assembly, (slice_end(f.slice) - 1) as nat)
        })
}

/// Whether the instruction at a place matches a pattern, itself or in the function that it
/// pushes.
spec fn matches_at(code: Seq<Instr>, i: int, assembly: Seq<Instr>, limit: nat) -> bool {
    is_pattern(code[i]) || {
        let f = code[i]->PushFunc_0;
        &&& is_exposed(code, i)
        &&& 0 < f.slice.len
        &&& slice_end(f.slice) <= limit
        &&& matches_within(body_of(f, assembly), assembly, (slice_end(f.slice) - 1) as nat)
    }
}

/// Some instruction matches a pattern if and only if the one at some place does.
proof fn lemma_matches_at(code: Seq<Instr>, assembly: Seq<Instr>, limit: nat)
    ensures
        matches_within(code, assembly, limit) <==> exists|i: int|
            0 <= i < code.len() && #[trigger] matches_at(code, i, assembly, limit),
{
    if matches_within(code, assembly, limit) {
        let i = choose|i: int|
            #![trigger code[i]]
            0 <= i < code.len() && (is_pattern(code[i]) || {
                let f = code[i]->PushFunc_0;
                &&& is_exposed(code, i)
                &&& 0 < f.slice.len
                &&& slice_end(f.slice) <= limit
                &&& matches_within(body_of(f, assembly), assembly, (slice_end(f.slice) - 1) as nat)
            });
        assert(matches_at(code, i, assembly, limit));
    }
    if exists|i: int| 0 <= i < code.len() && #[trigger] matches_at(code, i, assembly, limit) {
        let i = choose|i: int|
            0 <= i < code.len() && #[trigger] matches_at(code, i, assembly, limit);
        assert(code[i] == code[i]);
    }
}

/// Whether code matches a pattern, in itself or in the functions that it pushes, except those
/// that a `try` takes directly.
pub open spec fn has_pattern_matching(code: Seq<Instr>, assembly: Seq<Instr>) -> bool {
    matches_within(code, assembly, assembly.len())
}

/// Whether an instruction runs one function and, if that fails, another.
fn instr_is_try(instr: &Instr) -> (res: bool)
    ensures
        res == is_try(*instr),
{
    match instr {
        Instr::Prim(prim, _) => *prim == Primitive::Try,
        Instr::ImplPrim(prim, _) => *prim == ImplPrimitive::TryPattern,
        _ => false,
    }
}

/// Whether code matches a pattern, where everything that it pushes ends by `limit`.
fn code_matches(code: &[Instr], assembly: &Assembly, limit: usize) -> (res: bool)
    requires
        grounded(code@, limit as nat),
        backward(assembly.instrs@),
        limit <= assembly.instrs@.len(),
    ensures
        res == matches_within(code@, assembly.instrs@, limit as nat),
    decreases limit,
{
    let n: usize = code.len();
    proof {
        lemma_matches_at(code@, assembly.instrs@, limit as nat);
    }
    for i in 0..n
        invariant
            n == code@.len(),
            grounded(code@, limit as nat),
            backward(assembly.instrs@),
            limit <= assembly.instrs@.len(),
            forall|j: int|
                0 <= j < i ==> !#[trigger] matches_at(code@, j, assembly.instrs@, limit as nat),
    {
        let found = match &code[i] {
            Instr::ImplPrim(prim, _) => *prim == ImplPrimitive::MatchPattern || *prim
                == ImplPrimitive::UnJoinPattern,
            Instr::MatchFormatPattern { .. } => true,
            Instr::PushFunc(f) => {
                assert(code@[i as int] == Instr::PushFunc(*f));
                if f.slice.len == 0 || (i < n - 1 && instr_is_try(&code[i + 1])) {
                    false
                } else {
                    proof {
                        lemma_body_grounded(*f, assembly.instrs@);
                    }
                    let end: usize = f.slice.start + f.slice.len;
                    code_matches(f.instrs(assembly), assembly, end - 1)
                }
            },
            _ => false,
        };
        assert(found == matches_at(code@, i as int, assembly.instrs@, limit as nat));
        if found {
            proof {
                lemma_matches_at(code@, assembly.instrs@, limit as nat);
            }
            return true;
        }
    }
    false
}

/// Whether code matches a pattern, in itself or in the functions that it pushes, except those
/// that a `try` takes directly.
pub fn instrs_have_pattern_matching(instrs: &[Instr], assembly: &Assembly) -> (res: bool)
    requires
        grounded(instrs@, assembly.instrs@.len()),
        backward(assembly.instrs@),
    ensures
        res == has_pattern_matching(instrs@, assembly.instrs@),
{
    code_matches(instrs, assembly, assembly.instrs.len())
}

/// What is found does not depend on the limit, nor on code that is added to the assembly, as
/// long as everything that is pushed is within reach.
proof fn lemma_limit_free(code: Seq<Instr>, assembly: Seq<Instr>, more: Seq<Instr>, a: nat, b: nat)
    requires
        backward(assembly),
        grounded(code, a),
        grounded(code, b),
        a <= assembly.len(),
    ensures
        matches_within(code, assembly, a) == matches_within(code, assembly + more, b),
    decreases a,
{
    let all = assembly + more;
    lemma_matches_at(code, assembly, a);
    lemma_matches_at(code, all, b);
    assert forall|i: int| 0 <= i < code.len() implies #[trigger] matches_at(code, i, assembly, a)
        == matches_at(code, i, all, b) by {
        if let Instr::PushFunc(f) = code[i] {
            if 0 < f.slice.len {
                lemma_body_grounded(f, assembly);
                assert(body_of(f, all) =~= body_of(f, assembly));
                let below = (slice_end(f.slice) - 1) as nat;
                lemma_limit_free(body_of(f, assembly), assembly, more, below, below);
            }
        }
    }
    if matches_within(code, assembly, a) {
        let i = choose|i: int| 0 <= i < code.len() && #[trigger] matches_at(code, i, assembly, a);
        assert(matches_at(code, i, all, b));
    }
    if matches_within(code, all, b) {
        let i = choose|i: int| 0 <= i < code.len() && #[trigger] matches_at(code, i, all, b);
        assert(matches_at(code, i, assembly, a));
    }
}

/// Code that is compiled later changes nothing about which code matches patterns.
pub proof fn law_pattern_matching_is_stable(
    code: Seq<Instr>,
    assembly: Seq<Instr>,
    more: Seq<Instr>,
)
    requires
        backward(assembly),
        grounded(code, assembly.len()),
    ensures
        has_pattern_matching(code, assembly + more) == has_pattern_matching(code, assembly),
{
    assert(grounded(code, (assembly + more).len()));
    lemma_limit_free(code, assembly, more, assembly.len(), (assembly + more).len());
}

/// A function that matches patterns makes every code that pushes it match patterns too, except
/// where a `try` takes it directly.
pub proof fn law_pattern_matching_spreads(
    code: Seq<Instr>,
    i: int,
    f: Function,
    assembly: Seq<Instr>,
)
    requires
        backward(assembly),
        grounded(code, assembly.len()),
        0 <= i < code.len(),
        code[i] == Instr::PushFunc(f),
        !(i + 1 < code.len() && is_try(code[i + 1])),
        has_pattern_matching(body_of(f, assembly), assembly),
    ensures
        has_pattern_matching(code, assembly),
{
    let body = body_of(f, assembly);
    let none = Seq::<Instr>::empty();
    if f.slice.len == 0 {
        assert(body.len() == 0);
        assert(!matches_within(body, assembly, assembly.len()));
    } else {
        lemma_body_grounded(f, assembly);
        let below = (slice_end(f.slice) - 1) as nat;
        assert(grounded(body, assembly.len()));
        lemma_limit_free(body, assembly, none, below, assembly.len());
        assert(assembly + none =~= assembly);
        lemma_matches_at(code, assembly, assembly.len());
        assert(matches_at(code, i, assembly, assembly.len()));
    }
}

/// A `try` shields the code around it: code whose functions are all taken directly by a `try`,
/// and which holds no pattern itself, matches no patterns.
pub proof fn law_try_shields(code: Seq<Instr>, assembly: Seq<Instr>)
    requires
        forall|i: int|
            #![trigger code[i]]
            0 <= i < code.len() ==> !is_pattern(code[i]) && (code[i] is PushFunc ==> i + 1
                < code.len() && is_try(code[i + 1])),
    ensures
        !has_pattern_matching(code, assembly),
{
    lemma_matches_at(code, assembly, assembly.len());
}

/// The instruction at a place is a pattern match, or it pushes a function that holds one and that
/// no `try` takes directly after.
pub open spec fn fails_at(code: Seq<Instr>, i: int, assembly: Seq<Instr>) -> bool {
    match code[i] {
        Instr::ImplPrim(prim, _) => prim == ImplPrimitive::MatchPattern || prim
            == ImplPrimitive::UnJoinPattern,
        Instr::MatchFormatPattern { .. } => true,
        Instr::PushFunc(f) => {
            let taken = i + 1 < code.len() && match code[i + 1] {
                Instr::Prim(prim, _) => prim == Primitive::Try,
                Instr::ImplPrim(prim, _) => prim == ImplPrimitive::TryPattern,
                _ => false,
            };
            !taken && has_pattern_matching(body_of(f, assembly), assembly)
        },
        _ => false,
    }
}

/// Code matches a pattern exactly where one of its instructions does, itself or in the function
/// that it pushes, except where a `try` takes that function directly.
pub proof fn law_pattern_matching_found(code: Seq<Instr>, assembly: Seq<Instr>)
    requires
        backward(assembly),
        grounded(code, assembly.len()),
    ensures
        has_pattern_matching(code, assembly) <==> exists|i: int|
            0 <= i < code.len() && #[trigger] fails_at(code, i, assembly),
{
    let none = Seq::<Instr>::empty();
    let n = assembly.len();
    lemma_matches_at(code, assembly, n);
    assert forall|i: int| 0 <= i < code.len() implies #[trigger] fails_at(code, i, assembly)
        == matches_at(code, i, assembly, n) by {
        if let Instr::PushFunc(f) = code[i] {
            let body = body_of(f, assembly);
            if f.slice.len == 0 {
                assert(body.len() == 0);
                assert(!matches_within(body, assembly, n));
            } else {
                lemma_body_grounded(f, assembly);
                let below = (slice_end(f.slice) - 1) as nat;
                assert(grounded(body, n));
                lemma_limit_free(body, assembly, none, below, n);
                assert(assembly + none =~= assembly);
            }
        }
    }
    if has_pattern_matching(code, assembly) {
        let i = choose|i: int| 0 <= i < code.len() && #[trigger] matches_at(code, i, assembly, n);
        assert(fails_at(code, i, assembly));
    }
    if exists|i: int| 0 <= i < code.len() && #[trigger] fails_at(code, i, assembly) {
        let i = choose|i: int| 0 <= i < code.len() && #[trigger] fails_at(code, i, assembly);
        assert(matches_at(code, i, assembly, n));
    }
}

} // verus!
