//! The scope that the expansion of a macro is compiled in.
use crate::compiler::{room_for_locals, well_formed, Compiler, CompilerV, Scope, ScopeKind, ScopeV};
use crate::keeping::{place_kept, scope_kept};
use crate::names::{
    find_made, lemma_made_by_putting, lemma_names_made, lemma_names_put, lemma_nothing_made,
    name_means, named, names_clone, names_distinct, names_drain, names_extend, names_made, names_of,
    names_put, LocalName,
};
use indexmap::IndexMap;
use vstd::prelude::*;

verus! {

/// A compiler that has entered a temporary scope with the given names.
pub open spec fn scope_entered(v: CompilerV, names: Seq<(Seq<char>, LocalName)>) -> CompilerV {
    CompilerV {
        scope: ScopeV {
            kind: ScopeKind::Temp,
            names,
            experimental: v.scope.experimental,
            bind_locals: Seq::empty(),
        },
        higher_scopes: v.higher_scopes.push(v.scope),
        ..v
    }
}

/// A compiler that has left a temporary scope which it entered with the given names. The names that
/// were made in it are put into the scope around, also where a given one was made anew.
pub open spec fn scope_left(w: CompilerV, given: Seq<(Seq<char>, LocalName)>) -> CompilerV {
    let outer = w.higher_scopes.last();
    CompilerV {
        scope: ScopeV { names: names_put(outer.names, names_made(given, w.scope.names)), ..outer },
        higher_scopes: w.higher_scopes.drop_last(),
        ..w
    }
}

/// A temporary scope keeps a compiler well formed.
pub proof fn lemma_scope_entered(v: CompilerV, names: Seq<(Seq<char>, LocalName)>)
    requires
        well_formed(v),
    ensures
        well_formed(scope_entered(v, names)),
{
    let entered = scope_entered(v, names);
    assert forall|i: int| 0 <= i < entered.higher_scopes.len() implies room_for_locals(
        #[trigger] entered.higher_scopes[i],
    ) by {
        if i < v.higher_scopes.len() {
            assert(entered.higher_scopes[i] == v.higher_scopes[i]);
        }
    }
}

/// Leaving a temporary scope keeps what the steps in it keep.
pub proof fn lemma_kept_scoped(
    v: CompilerV,
    names: Seq<(Seq<char>, LocalName)>,
    w: CompilerV,
    ok: bool,
)
    requires
        place_kept(scope_entered(v, names), w, ok),
    ensures
        place_kept(v, scope_left(w, names), ok),
{
    let entered = scope_entered(v, names);
    let x = scope_left(w, names);
    let n = v.higher_scopes.len() as int;
    lemma_names_put(w.higher_scopes.last().names, names_made(names, w.scope.names));
    assert(scope_kept(entered.higher_scopes[n], w.higher_scopes[n], ok));
    assert forall|i: int| 0 <= i < n implies #[trigger] scope_kept(
        v.higher_scopes[i],
        x.higher_scopes[i],
        ok,
    ) by {
        assert(scope_kept(entered.higher_scopes[i], w.higher_scopes[i], ok));
    }
    if well_formed(v) {
        lemma_scope_entered(v, names);
        assert(room_for_locals(w.higher_scopes[n]));
        assert forall|i: int| 0 <= i < x.higher_scopes.len() implies room_for_locals(
            #[trigger] x.higher_scopes[i],
        ) by {
            assert(x.higher_scopes[i] == w.higher_scopes[i]);
        }
    }
}

/// After a temporary scope has been left, a name that was made in it stands for what it was made
/// with, also where it is one of the given names. Any other stands for what it stood for in the
/// scope around. So a name that still stands for what it was given with does not get out: it only
/// stands for that where it did in the scope around.
pub proof fn law_temporary_names(
    w: CompilerV,
    given: Seq<(Seq<char>, LocalName)>,
    name: Seq<char>,
    local: LocalName,
)
    requires
        names_distinct(w.scope.names),
        names_distinct(w.higher_scopes.last().names),
    ensures
        ({
            let made = names_made(given, w.scope.names);
            let outer = w.higher_scopes.last().names;
            let after = scope_left(w, given).scope.names;
            &&& names_distinct(after)
            &&& name_means(made, name, local) == (name_means(w.scope.names, name, local)
                && !name_means(given, name, local))
            &&& name_means(after, name, local) == if named(made, name) {
                name_means(made, name, local)
            } else {
                name_means(outer, name, local)
            }
            &&& name_means(given, name, local) && name_means(w.scope.names, name, local)
                && !name_means(outer, name, local) ==> !name_means(after, name, local)
        }),
{
    lemma_names_made(given, w.scope.names);
    lemma_names_put(w.higher_scopes.last().names, names_made(given, w.scope.names));
}

/// Every name that is made in a temporary scope is in the scope around afterwards, with the meaning
/// that it was made with.
pub proof fn law_new_names_are_kept(
    w: CompilerV,
    given: Seq<(Seq<char>, LocalName)>,
    name: Seq<char>,
    local: LocalName,
)
    requires
        names_distinct(w.scope.names),
        names_distinct(w.higher_scopes.last().names),
        name_means(w.scope.names, name, local),
        !name_means(given, name, local),
    ensures
        name_means(scope_left(w, given).scope.names, name, local),
{
    let made = names_made(given, w.scope.names);
    law_temporary_names(w, given, name, local);
    let j = choose|j: int| 0 <= j < made.len() && #[trigger] made[j] == (name, local);
    assert(made[j].0 == name);
}

/// A temporary scope in which no names are made leaves no trace.
pub proof fn law_scope_restored(v: CompilerV, names: Seq<(Seq<char>, LocalName)>)
    ensures
        scope_left(scope_entered(v, names), names) == v,
{
    let x = scope_left(scope_entered(v, names), names);
    lemma_nothing_made(names);
    assert(x.higher_scopes =~= v.higher_scopes);
    assert(x =~= v);
}

/// A compiler that has left two temporary scopes, one in the other.
pub open spec fn scopes_left(
    w: CompilerV,
    outer: Seq<(Seq<char>, LocalName)>,
    inner: Seq<(Seq<char>, LocalName)>,
) -> CompilerV {
    scope_left(scope_left(w, inner), outer)
}

/// A name that is made in a temporary scope inside another passes out through both, and no other
/// name changes: the scope around both has what was made in the inner one, but for what the outer
/// one was given with, and else what it had. The scopes around are as they were.
pub proof fn law_names_pass_through(
    v: CompilerV,
    outer: Seq<(Seq<char>, LocalName)>,
    inner: Seq<(Seq<char>, LocalName)>,
    w: CompilerV,
    name: Seq<char>,
    local: LocalName,
)
    requires
        w.higher_scopes == scope_entered(scope_entered(v, outer), inner).higher_scopes,
        names_distinct(v.scope.names),
        names_distinct(outer),
        names_distinct(w.scope.names),
    ensures
        ({
            let made = names_made(inner, w.scope.names);
            let after = scopes_left(w, outer, inner);
            &&& name_means(made, name, local) && !name_means(outer, name, local) ==> name_means(
                after.scope.names,
                name,
                local,
            )
            &&& !named(made, name) ==> name_means(after.scope.names, name, local) == name_means(
                v.scope.names,
                name,
                local,
            )
            &&& after.higher_scopes == v.higher_scopes
            &&& after.scope == (ScopeV { names: after.scope.names, ..v.scope })
        }),
{
    let made = names_made(inner, w.scope.names);
    let between = scope_left(w, inner);
    let passed = names_made(outer, names_put(outer, made));
    lemma_names_made(inner, w.scope.names);
    lemma_made_by_putting(outer, made, name, local);
    lemma_names_put(outer, made);
    assert(between.higher_scopes =~= v.higher_scopes.push(v.scope));
    assert(scopes_left(w, outer, inner).higher_scopes =~= v.higher_scopes);
    law_temporary_names(between, outer, name, local);
    if name_means(passed, name, local) {
        let j = choose|j: int| 0 <= j < passed.len() && #[trigger] passed[j] == (name, local);
        assert(passed[j].0 == name);
    }
}

/// A name that is made in a temporary scope inside another, and that the outer one was not given,
/// stands for the same in the scope around both.
pub proof fn law_new_name_passes_out(
    v: CompilerV,
    outer: Seq<(Seq<char>, LocalName)>,
    inner: Seq<(Seq<char>, LocalName)>,
    w: CompilerV,
    name: Seq<char>,
    local: LocalName,
)
    requires
        w.higher_scopes == scope_entered(scope_entered(v, outer), inner).higher_scopes,
        names_distinct(v.scope.names),
        names_distinct(outer),
        names_distinct(w.scope.names),
        name_means(w.scope.names, name, local),
        !name_means(inner, name, local),
        !named(outer, name),
    ensures
        name_means(scopes_left(w, outer, inner).scope.names, name, local),
{
    lemma_names_made(inner, w.scope.names);
    assert(!name_means(outer, name, local)) by {
        if name_means(outer, name, local) {
            let p = choose|p: int| 0 <= p < outer.len() && #[trigger] outer[p] == (name, local);
            assert(outer[p].0 == name);
        }
    }
    law_names_pass_through(v, outer, inner, w, name, local);
}

impl Compiler {
    /// Does something in a temporary scope with the given names. Names that were made meanwhile
    /// are put into the current scope. A name was made meanwhile if it does not stand for what it
    /// was given with.
    pub fn temp_scope<R, F: FnOnce(&mut Compiler) -> R>(
        &mut self,
        names: IndexMap<String, LocalName>,
        f: F,
    ) -> (res: R)
        requires
            forall|m: &mut Compiler|
                (*m)@ == scope_entered(old(self)@, names_of(names)) ==> call_requires(f, (m,)),
            forall|m: &mut Compiler, r: R| #[trigger]
                call_ensures(f, (m,), r) && (*m)@ == scope_entered(old(self)@, names_of(names))
                    ==> {
                    &&& (*final(m))@.higher_scopes.len() > 0
                    &&& (*final(m))@.scope.names.len() >= names_of(names).len()
                },
        ensures
            exists|m: &mut Compiler|
                #![trigger call_ensures(f, (m,), res)]
                {
                    &&& call_ensures(f, (m,), res)
                    &&& (*m)@ == scope_entered(old(self)@, names_of(names))
                    &&& final(self)@ == scope_left((*final(m))@, names_of(names))
                    &&& names_distinct((*final(m))@.scope.names)
                    &&& names_distinct((*final(m))@.higher_scopes.last().names)
                },
            names_distinct(names_of(names)),
            names_distinct(final(self)@.scope.names),
    {
        let ghost v = self@;
        let ghost given = names_of(names);
        let mut macro_names = names_clone(&names);
        let mut scope = Scope {
            kind: ScopeKind::Temp,
            names,
            experimental: self.scope.experimental,
            bind_locals: Vec::new(),
        };
        assert(scope@.bind_locals =~= Seq::empty());
        std::mem::swap(&mut self.scope, &mut scope);
        self.higher_scopes.push(scope);
        assert(self@.higher_scopes =~= v.higher_scopes.push(v.scope));
        assert(self@ == scope_entered(v, given));
        let res = f(self);
        let ghost w = self@;
        match self.higher_scopes.pop() {
            Some(scope) => {
                let mut scope = scope;
                let given_names = names_drain(&mut macro_names);
                let names_now = names_drain(&mut self.scope.names);
                let made = find_made(&given_names, &names_now);
                names_extend(&mut scope.names, made);
                self.scope = scope;
                assert(self@.higher_scopes =~= w.higher_scopes.drop_last());
                assert(self@ =~= scope_left(w, given));
            },
            None => {},
        }
        res
    }
}

} // verus!
