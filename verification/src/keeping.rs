//! What the steps of the compiler keep.
use crate::assembly::lemma_backward_extended;
use crate::compiler::{
    well_formed, with_body, with_code, with_frame, without_frame, CompilerV, ScopeV,
};
use crate::instr::{grounded, slice_end, Instr};



use vstd::prelude::*;

verus! {

/// What a step of the compiler leaves of a scope: no name is gone, and a step that succeeded has
/// finished every bind that it started on.
pub open spec fn scope_kept(v: ScopeV, w: ScopeV, ok: bool) -> bool {
    &&& w.names.len() >= v.names.len()
    &&& ok ==> w.bind_locals.len() == v.bind_locals.len()
}

/// What a step of the compiler leaves as it was: a well-formed compiler stays so, no code is gone
/// from the assembly, and scopes that were entered have been left. A step that succeeded has also
/// finished every function and every bind that it started on, and expanded every macro.
pub open spec fn place_kept(v: CompilerV, w: CompilerV, ok: bool) -> bool {
    &&& well_formed(v) ==> well_formed(w)
    &&& w.assembly.instrs.len() >= v.assembly.instrs.len()
    &&& w.higher_scopes.len() == v.higher_scopes.len()
    &&& scope_kept(v.scope, w.scope, ok)
    &&& forall|i: int|
        0 <= i < v.higher_scopes.len() ==> #[trigger] scope_kept(
            v.higher_scopes[i],
            w.higher_scopes[i],
            ok,
        )
    &&& ok ==> {
        &&& w.frames.len() == v.frames.len()
        &&& w.macro_depth == v.macro_depth
    }
}

/// The code that a well-formed compiler was given only pushes functions that there are.
pub open spec fn code_fits(v: CompilerV, w: CompilerV, code: Seq<Instr>) -> bool {
    well_formed(v) ==> grounded(code, w.assembly.instrs.len())
}

/// A step after a step that succeeded keeps what both keep.
pub proof fn lemma_kept_on(u: CompilerV, v: CompilerV, w: CompilerV, ok: bool)
    requires
        place_kept(u, v, true),
        place_kept(v, w, ok),
    ensures
        place_kept(u, w, ok),
{
    assert forall|i: int| 0 <= i < u.higher_scopes.len() implies #[trigger] scope_kept(
        u.higher_scopes[i],
        w.higher_scopes[i],
        ok,
    ) by {
        assert(scope_kept(u.higher_scopes[i], v.higher_scopes[i], true));
        assert(scope_kept(v.higher_scopes[i], w.higher_scopes[i], ok));
    }
}

/// After a step, a compiler that only differs in its lists of spans, inputs, references,
/// expansions, errors and diagnostics, and in its mode, is in the same place.
pub proof fn lemma_kept_aside(u: CompilerV, v: CompilerV, w: CompilerV, ok: bool)
    requires
        place_kept(u, v, ok),
        w.assembly.instrs == v.assembly.instrs,
        w.assembly.bindings == v.assembly.bindings,
        w.env == v.env,
        w.frames == v.frames,
        w.scope == v.scope,
        w.higher_scopes == v.higher_scopes,
        w.macro_depth == v.macro_depth,
    ensures
        place_kept(u, w, ok),
{
    assert forall|i: int| 0 <= i < u.higher_scopes.len() implies #[trigger] scope_kept(
        u.higher_scopes[i],
        w.higher_scopes[i],
        ok,
    ) by {
        assert(scope_kept(u.higher_scopes[i], v.higher_scopes[i], ok));
    }
}

/// A step that keeps what a success keeps, keeps what a failure keeps.
pub proof fn lemma_kept_anyway(v: CompilerV, w: CompilerV, ok: bool)
    requires
        place_kept(v, w, ok),
    ensures
        place_kept(v, w, false),
{
    assert forall|i: int| 0 <= i < v.higher_scopes.len() implies #[trigger] scope_kept(
        v.higher_scopes[i],
        w.higher_scopes[i],
        false,
    ) by {
        assert(scope_kept(v.higher_scopes[i], w.higher_scopes[i], ok));
    }
}

/// Code that only pushes functions that there are can be added to the current function.
pub proof fn lemma_kept_code(v: CompilerV, code: Seq<Instr>)
    requires
        code_fits(v, v, code),
    ensures
        place_kept(v, with_code(v, code), true),
{
    let w = with_code(v, code);
    if well_formed(v) {
        if v.frames.len() == 0 {
            lemma_backward_extended(v.assembly.instrs, code);
        } else {
            assert forall|i: int| 0 <= i < w.frames.len() implies grounded(
                #[trigger] w.frames[i],
                w.assembly.instrs.len(),
            ) by {
                if i < v.frames.len() - 1 {
                    assert(w.frames[i] == v.frames[i]);
                } else {
                    lemma_grounded_concat(v.frames.last(), code, v.assembly.instrs.len());
                }
            }
        }
    }
}

/// Code that only pushes functions that there are can be put into the assembly.
pub proof fn lemma_kept_body(v: CompilerV, code: Seq<Instr>)
    requires
        code_fits(v, v, code),
    ensures
        place_kept(v, with_body(v, code), true),
{
    let w = with_body(v, code);
    if well_formed(v) {
        lemma_backward_extended(v.assembly.instrs, code);
        assert forall|i: int| 0 <= i < w.frames.len() implies grounded(
            #[trigger] w.frames[i],
            w.assembly.instrs.len(),
        ) by {
            assert(w.frames[i] == v.frames[i]);
        }
    }
}

/// Two pieces of code that only push functions before a place do so together.
pub proof fn lemma_grounded_concat(a: Seq<Instr>, b: Seq<Instr>, limit: nat)
    requires
        grounded(a, limit),
        grounded(b, limit),
    ensures
        grounded(a + b, limit),
{
    let all = a + b;
    assert forall|i: int|
        #![trigger all[i]]
        0 <= i < all.len() && all[i] is PushFunc implies slice_end(all[i]->PushFunc_0.slice)
        <= limit by {
        if i < a.len() {
            assert(all[i] == a[i]);
        } else {
            assert(all[i] == b[i - a.len()]);
        }
    }
}

/// What is compiled in a new function is kept when the function is finished.
pub proof fn lemma_kept_framed(v: CompilerV, w: CompilerV)
    requires
        place_kept(with_frame(v), w, true),
    ensures
        w.frames.len() > 0,
        place_kept(v, without_frame(w), true),
        code_fits(v, without_frame(w), w.frames.last()),
{
    if well_formed(v) {
        lemma_frame_well_formed(v);
    }
    let x = without_frame(w);
    if well_formed(v) {
        assert forall|i: int| 0 <= i < x.frames.len() implies grounded(
            #[trigger] x.frames[i],
            x.assembly.instrs.len(),
        ) by {
            assert(x.frames[i] == w.frames[i]);
        }
    }
    assert forall|i: int| 0 <= i < v.higher_scopes.len() implies #[trigger] scope_kept(
        v.higher_scopes[i],
        x.higher_scopes[i],
        true,
    ) by {
        assert(scope_kept(with_frame(v).higher_scopes[i], w.higher_scopes[i], true));
    }
}

/// What fails in a new function keeps what a failure keeps.
pub proof fn lemma_kept_framed_failure(v: CompilerV, w: CompilerV, ok: bool)
    requires
        place_kept(with_frame(v), w, ok),
    ensures
        place_kept(v, w, false),
{
    if well_formed(v) {
        lemma_frame_well_formed(v);
    }
    assert forall|i: int| 0 <= i < v.higher_scopes.len() implies #[trigger] scope_kept(
        v.higher_scopes[i],
        w.higher_scopes[i],
        false,
    ) by {
        assert(scope_kept(with_frame(v).higher_scopes[i], w.higher_scopes[i], ok));
    }
}

/// A new function keeps a compiler well formed.
pub proof fn lemma_frame_well_formed(v: CompilerV)
    requires
        well_formed(v),
    ensures
        well_formed(with_frame(v)),
{
    let w = with_frame(v);
    assert forall|i: int| 0 <= i < w.frames.len() implies grounded(
        #[trigger] w.frames[i],
        w.assembly.instrs.len(),
    ) by {
        if i < v.frames.len() {
            assert(w.frames[i] == v.frames[i]);
        }
    }
}

} // verus!
