//! Getting the runtime of macros ready.
use crate::assembly::{AssemblyV, BindingInfo};
use crate::compiler::{Compiler, CompilerV, EnvV};
use crate::instr::FuncSlice;
use crate::keeping::place_kept;
use crate::message::UiuaResult;
use crate::toolchain::{did_run_top_slices, orderly, Toolchain};
use vstd::prelude::*;

verus! {

/// The slices that start after the last one that was loaded; all of them where none was.
pub open spec fn fresh_slices(loaded: Seq<FuncSlice>, all: Seq<FuncSlice>) -> Seq<FuncSlice> {
    if loaded.len() == 0 {
        all
    } else {
        all.filter(|slice: FuncSlice| slice.start > loaded.last().start)
    }
}

/// The runtime of macros, ready to run the code that is in the compiler's assembly: it keeps its
/// own values of the bindings that it has, and only loads slices that it has not loaded.
pub open spec fn prepared_env(v: CompilerV) -> EnvV {
    let known = v.env.assembly.bindings;
    EnvV {
        assembly: AssemblyV {
            bindings: known + v.assembly.bindings.skip(known.len() as int),
            top_slices: fresh_slices(v.env.assembly.top_slices, v.assembly.top_slices),
            ..v.assembly
        },
        ..v.env
    }
}

/// A runtime that is got ready twice has nothing more to load the second time, where the slices
/// of the program lie one after the other and there was something to load the first time.
pub proof fn law_loaded_once(v: CompilerV)
    requires
        forall|i: int, j: int|
            0 <= i < j < v.assembly.top_slices.len() ==> v.assembly.top_slices[i].start
                < v.assembly.top_slices[j].start,
        prepared_env(v).assembly.top_slices.len() > 0,
    ensures
        prepared_env(CompilerV { env: prepared_env(v), ..v }).assembly.top_slices.len() == 0,
{
    let all = v.assembly.top_slices;
    let loaded = v.env.assembly.top_slices;
    let fresh = fresh_slices(loaded, all);
    let last = all.last();
    if loaded.len() > 0 {
        lemma_filter_last(all, |slice: FuncSlice| slice.start > loaded.last().start);
    }
    assert(fresh.last() == last);
    lemma_filter_none(all, |slice: FuncSlice| slice.start > fresh.last().start);
}

/// Where the starts of slices rise, the last of those beyond a start is the last of all.
proof fn lemma_filter_last(all: Seq<FuncSlice>, pred: spec_fn(FuncSlice) -> bool)
    requires
        all.filter(pred).len() > 0,
        forall|i: int, j: int|
            0 <= i < j < all.len() ==> (#[trigger] pred(all[i]) ==> #[trigger] pred(all[j])),
    ensures
        all.filter(pred).last() == all.last(),
    decreases all.len(),
{
    reveal(Seq::filter);
    let n = all.len() as int;
    if !pred(all[n - 1]) {
        assert forall|i: int| 0 <= i < n implies !pred(#[trigger] all[i]) by {
            if i < n - 1 && pred(all[i]) {
                assert(pred(all[n - 1]));
            }
        }
        lemma_filter_none(all, pred);
    }
}

proof fn lemma_filter_none(all: Seq<FuncSlice>, pred: spec_fn(FuncSlice) -> bool)
    requires
        forall|i: int| 0 <= i < all.len() ==> !pred(#[trigger] all[i]),
    ensures
        all.filter(pred).len() == 0,
    decreases all.len(),
{
    reveal(Seq::filter);
    if all.len() > 0 {
        let rest = all.drop_last();
        assert forall|i: int| 0 <= i < rest.len() implies !pred(#[trigger] rest[i]) by {
            assert(rest[i] == all[i]);
        }
        lemma_filter_none(rest, pred);
        assert(!pred(all[all.len() - 1]));
    }
}

/// The slices that start after a place.
fn slices_after(slices: &Vec<FuncSlice>, start: usize) -> (res: Vec<FuncSlice>)
    ensures
        res@ == slices@.filter(|slice: FuncSlice| slice.start > start),
{
    let mut res: Vec<FuncSlice> = Vec::new();
    let ghost pred = |slice: FuncSlice| slice.start > start;
    proof {
        reveal(Seq::filter);
    }
    for i in 0..slices.len()
        invariant
            pred == (|slice: FuncSlice| slice.start > start),
            res@ == slices@.take(i as int).filter(pred),
    {
        proof {
            reveal(Seq::filter);
            assert(slices@.take(i + 1).drop_last() =~= slices@.take(i as int));
        }
        if slices[i].start > start {
            res.push(slices[i]);
        }
    }
    assert(slices@.take(slices@.len() as int) =~= slices@);
    res
}

impl Compiler {
    /// Gets the runtime of macros ready to run code: hands it the code and the bindings that it
    /// does not have yet, and runs what has not been run.
    pub fn prepare_env<T: Toolchain>(&mut self, t: &T) -> (res: UiuaResult<()>)
        requires
            orderly(t),
            old(self)@.env.assembly.bindings.len() <= old(self)@.assembly.bindings.len(),
        ensures
            did_run_top_slices(t, prepared_env(old(self)@), final(self)@.env, res),
            final(self)@ == (CompilerV { env: final(self)@.env, ..old(self)@ }),
            place_kept(old(self)@, final(self)@, true),
            final(self)@.env.assembly.bindings.len() <= final(self)@.assembly.bindings.len(),
    {
        let ghost v = self@;
        let known: usize = self.macro_env.assembly.bindings.len();
        let mut bindings: Vec<BindingInfo> = Vec::new();
        std::mem::swap(&mut bindings, &mut self.macro_env.assembly.bindings);
        assert(bindings@ =~= v.env.assembly.bindings + v.assembly.bindings.subrange(
            known as int,
            known as int,
        ));
        for i in known..self.assembly.bindings.len()
            invariant
                known <= v.assembly.bindings.len(),
                v.assembly.bindings == self.assembly.bindings@,
                bindings@ == v.env.assembly.bindings + v.assembly.bindings.subrange(
                    known as int,
                    i as int,
                ),
        {
            bindings.push(self.assembly.bindings[i].clone());
            assert(bindings@ =~= v.env.assembly.bindings + v.assembly.bindings.subrange(
                known as int,
                i + 1,
            ));
        }
        assert(v.assembly.bindings.subrange(known as int, v.assembly.bindings.len() as int)
            =~= v.assembly.bindings.skip(known as int));
        let mut assembly = self.assembly.clone();
        assembly.bindings = bindings;
        let loaded: usize = self.macro_env.assembly.top_slices.len();
        if loaded > 0 {
            let last = self.macro_env.assembly.top_slices[loaded - 1];
            assembly.top_slices = slices_after(&assembly.top_slices, last.start);
            assert(assembly@.top_slices =~= fresh_slices(
                v.env.assembly.top_slices,
                v.assembly.top_slices,
            )) by {
                assert((|slice: FuncSlice| slice.start > last.start) =~= (|slice: FuncSlice|
                    slice.start > v.env.assembly.top_slices.last().start));
            }
        }
        self.macro_env.assembly = assembly;
        assert(self.macro_env@ =~= prepared_env(v));
        let res = self.macro_env.do_run_top_slices(t);
        assert(self@ =~= (CompilerV { env: self@.env, ..v }));
        res
    }
}

/// A runtime that is got ready keeps its values and the bindings that it knows, and gets those
/// after them from the program. It has the code, the spans and the inputs of the program.
pub proof fn law_prepared_keeps_known(v: CompilerV)
    requires
        v.env.assembly.bindings.len() <= v.assembly.bindings.len(),
    ensures
        ({
            let ready = prepared_env(v);
            let known = v.env.assembly.bindings.len();
            &&& ready.stack == v.env.stack
            &&& ready.assembly.bindings.len() == v.assembly.bindings.len()
            &&& forall|i: int|
                0 <= i < known ==> ready.assembly.bindings[i] == v.env.assembly.bindings[i]
            &&& forall|i: int|
                known <= i < v.assembly.bindings.len() ==> ready.assembly.bindings[i]
                    == v.assembly.bindings[i]
            &&& ready.assembly.instrs == v.assembly.instrs
            &&& ready.assembly.spans == v.assembly.spans
            &&& ready.assembly.inputs == v.assembly.inputs
        }),
{
}

/// What a runtime that is got ready is to load: all slices of the program where it has loaded none,
/// else those that start after the last one that it has loaded.
pub proof fn law_prepared_loads_fresh(v: CompilerV, slice: FuncSlice)
    ensures
        ({
            let all = v.assembly.top_slices;
            let loaded = v.env.assembly.top_slices;
            let fresh = prepared_env(v).assembly.top_slices;
            &&& loaded.len() == 0 ==> fresh == all
            &&& loaded.len() > 0 ==> (fresh.contains(slice) <==> all.contains(slice) && slice.start
                > loaded[loaded.len() - 1].start)
        }),
{
    let all = v.assembly.top_slices;
    let loaded = v.env.assembly.top_slices;
    let pred = |s: FuncSlice| s.start > loaded.last().start;
    if loaded.len() > 0 {
        let fresh = all.filter(pred);
        if fresh.contains(slice) {
            let i = choose|i: int| 0 <= i < fresh.len() && fresh[i] == slice;
            all.lemma_filter_pred(pred, i);
            all.lemma_filter_contains_rev(pred, slice);
        }
        if all.contains(slice) && slice.start > loaded.last().start {
            let i = choose|i: int| 0 <= i < all.len() && all[i] == slice;
            all.lemma_filter_contains(pred, i);
        }
    }
}

/// Where the slices of the program lie one after the other, those that are to be loaded are the
/// last ones, in order.
pub proof fn law_prepared_loads_in_order(v: CompilerV) -> (k: int)
    requires
        forall|i: int, j: int|
            0 <= i < j < v.assembly.top_slices.len() ==> v.assembly.top_slices[i].start
                < v.assembly.top_slices[j].start,
    ensures
        0 <= k <= v.assembly.top_slices.len(),
        prepared_env(v).assembly.top_slices == v.assembly.top_slices.skip(k),
{
    let all = v.assembly.top_slices;
    let loaded = v.env.assembly.top_slices;
    if loaded.len() == 0 {
        assert(all.skip(0) =~= all);
        0
    } else {
        lemma_filter_suffix(all, |slice: FuncSlice| slice.start > loaded.last().start)
    }
}

proof fn lemma_filter_suffix(all: Seq<FuncSlice>, pred: spec_fn(FuncSlice) -> bool) -> (k: int)
    requires
        forall|i: int, j: int|
            0 <= i < j < all.len() ==> (#[trigger] pred(all[i]) ==> #[trigger] pred(all[j])),
    ensures
        0 <= k <= all.len(),
        all.filter(pred) == all.skip(k),
    decreases all.len(),
{
    reveal(Seq::filter);
    let n = all.len() as int;
    if n == 0 {
        assert(all.filter(pred) =~= all.skip(0));
        0
    } else if pred(all[n - 1]) {
        let rest = all.drop_last();
        assert forall|i: int, j: int| 0 <= i < j < rest.len() && #[trigger] pred(
            rest[i],
        ) implies #[trigger] pred(rest[j]) by {
            assert(pred(all[i]));
            assert(pred(all[j]));
        }
        let k = lemma_filter_suffix(rest, pred);
        assert(rest.skip(k).push(all.last()) =~= all.skip(k));
        k
    } else {
        assert forall|i: int| 0 <= i < n implies !pred(#[trigger] all[i]) by {
            if i < n - 1 && pred(all[i]) {
                assert(pred(all[n - 1]));
            }
        }
        lemma_filter_none(all, pred);
        assert(all.filter(pred) =~= all.skip(n));
        n
    }
}

} // verus!
