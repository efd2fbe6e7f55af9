//! The names of a scope, in the order in which they were made, in a map of the crate `indexmap`.
use indexmap::IndexMap;
use vstd::prelude::*;

verus! {

/// What a name in a scope stands for: a binding of the assembly, by its number.
#[derive(Debug, Clone, Copy, PartialEq, Eq, Structural)]
pub struct LocalName {
    pub index: usize,
    pub public: bool,
}

/// The ordered map of `indexmap`.
#[verifier::external_type_specification]
#[verifier::external_body]
#[verifier::reject_recursive_types(K)]
#[verifier::reject_recursive_types(V)]
#[verifier::reject_recursive_types(S)]
pub struct ExIndexMap<K, V, S>(indexmap::IndexMap<K, V, S>);

/// The names in a map with what they stand for, in order.
pub uninterp spec fn names_of(names: IndexMap<String, LocalName>) -> Seq<(Seq<char>, LocalName)>;

/// Some names with one more: where the name is already there it gets the new meaning in its
/// place, else it comes last.
pub open spec fn name_put(
    names: Seq<(Seq<char>, LocalName)>,
    name: Seq<char>,
    local: LocalName,
) -> Seq<(Seq<char>, LocalName)>
    decreases names.len(),
{
    if names.len() == 0 {
        seq![(name, local)]
    } else if names[0].0 == name {
        names.update(0, (name, local))
    } else {
        seq![names[0]] + name_put(names.drop_first(), name, local)
    }
}

/// Some names with some more, put in one after the other.
pub open spec fn names_put(
    names: Seq<(Seq<char>, LocalName)>,
    more: Seq<(Seq<char>, LocalName)>,
) -> Seq<(Seq<char>, LocalName)>
    decreases more.len(),
{
    if more.len() == 0 {
        names
    } else {
        name_put(names_put(names, more.drop_last()), more.last().0, more.last().1)
    }
}

/// A list of names as their characters.
pub open spec fn name_pairs(items: Seq<(String, LocalName)>) -> Seq<(Seq<char>, LocalName)> {
    items.map_values(|item: (String, LocalName)| (item.0@, item.1))
}

/// `IndexMap::new`: the map is empty.
#[verifier::external_body]
pub(crate) fn names_new() -> (res: IndexMap<String, LocalName>)
    ensures
        names_of(res) == Seq::<(Seq<char>, LocalName)>::empty(),
{
    IndexMap::new()
}

/// `IndexMap::drain`, of everything: the names are taken out and handed over in order. No name
/// occurs twice in a map.
#[verifier::external_body]
pub(crate) fn names_drain(names: &mut IndexMap<String, LocalName>) -> (res: Vec<
    (String, LocalName),
>)
    ensures
        names_of(*final(names)) == Seq::<(Seq<char>, LocalName)>::empty(),
        name_pairs(res@) == names_of(*old(names)),
        names_distinct(name_pairs(res@)),
{
    names.drain(..).collect()
}

/// `IndexMap::extend`: the pairs are inserted one after the other. A name that is already there
/// keeps its place and gets the new meaning; any other comes last. No name occurs twice in a map,
/// before and after.
#[verifier::external_body]
pub(crate) fn names_extend(names: &mut IndexMap<String, LocalName>, more: Vec<(String, LocalName)>)
    ensures
        names_of(*final(names)) == names_put(names_of(*old(names)), name_pairs(more@)),
        names_distinct(names_of(*old(names))),
        names_distinct(names_of(*final(names))),
{
    names.extend(more)
}

/// `IndexMap::clone`: the same names with the same meanings in the same order. No name occurs
/// twice in a map.
#[verifier::external_body]
pub(crate) fn names_clone(names: &IndexMap<String, LocalName>) -> (res: IndexMap<String, LocalName>)
    ensures
        names_of(res) == names_of(*names),
        names_distinct(names_of(res)),
{
    names.clone()
}

/// A name has the given meaning among some names.
pub open spec fn name_means(
    names: Seq<(Seq<char>, LocalName)>,
    name: Seq<char>,
    local: LocalName,
) -> bool {
    exists|i: int| 0 <= i < names.len() && #[trigger] names[i] == (name, local)
}

/// No name occurs twice.
pub open spec fn names_distinct(names: Seq<(Seq<char>, LocalName)>) -> bool {
    forall|i: int, j: int| 0 <= i < j < names.len() ==> names[i].0 != names[j].0
}

/// A name stands for something among some names.
pub open spec fn named(names: Seq<(Seq<char>, LocalName)>, name: Seq<char>) -> bool {
    exists|i: int| 0 <= i < names.len() && (#[trigger] names[i]).0 == name
}

/// Putting in a name keeps the names that are there in their places, and adds at most the new one
/// at the end.
proof fn lemma_name_put_places(
    names: Seq<(Seq<char>, LocalName)>,
    name: Seq<char>,
    local: LocalName,
)
    ensures
        ({
            let res = name_put(names, name, local);
            &&& names.len() <= res.len() <= names.len() + 1
            &&& forall|i: int| 0 <= i < names.len() ==> (#[trigger] res[i]).0 == names[i].0
            &&& res.len() > names.len() ==> res[names.len() as int].0 == name && !named(names, name)
            &&& names_distinct(names) ==> names_distinct(res)
        }),
    decreases names.len(),
{
    let res = name_put(names, name, local);
    if names.len() > 0 && names[0].0 != name {
        let rest = names.drop_first();
        lemma_name_put_places(rest, name, local);
        let tail = name_put(rest, name, local);
        assert forall|i: int| 0 <= i < names.len() implies (#[trigger] res[i]).0 == names[i].0 by {
            if i > 0 {
                assert(res[i] == tail[i - 1]);
                assert(rest[i - 1] == names[i]);
            }
        }
        if res.len() > names.len() {
            assert(res[names.len() as int] == tail[rest.len() as int]);
            assert forall|i: int| 0 <= i < names.len() implies (#[trigger] names[i]).0 != name by {
                if i > 0 {
                    assert(rest[i - 1] == names[i]);
                }
            }
        }
    }
}

/// Putting in names: a name stands for what it was put in with, and else for what it stood for.
pub proof fn lemma_names_put(
    names: Seq<(Seq<char>, LocalName)>,
    more: Seq<(Seq<char>, LocalName)>,
)
    ensures
        names_put(names, more).len() >= names.len(),
        names_distinct(names) && names_distinct(more) ==> {
            &&& names_distinct(names_put(names, more))
            &&& forall|name: Seq<char>, local: LocalName|
                #![trigger name_means(names_put(names, more), name, local)]
                name_means(names_put(names, more), name, local) == if named(more, name) {
                    name_means(more, name, local)
                } else {
                    name_means(names, name, local)
                }
        },
    decreases more.len(),
{
    if more.len() > 0 {
        let fewer = more.drop_last();
        let last = more.last();
        let before = names_put(names, fewer);
        let after = names_put(names, more);
        lemma_names_put(names, fewer);
        lemma_name_put(before, last.0, last.1);
        lemma_name_put_places(before, last.0, last.1);
        if names_distinct(names) && names_distinct(more) {
            assert forall|i: int, j: int| 0 <= i < j < fewer.len() implies fewer[i].0
                != fewer[j].0 by {
                assert(more[i].0 != more[j].0);
            }
            assert forall|name: Seq<char>, local: LocalName|
                #![trigger name_means(after, name, local)]
                name_means(after, name, local) == if named(more, name) {
                    name_means(more, name, local)
                } else {
                    name_means(names, name, local)
                } by {
                lemma_meaning_added(fewer, last, name, local);
                assert(fewer.push(last) =~= more);
                if name == last.0 {
                    lemma_meaning_unique(after, name, local, last.1);
                } else {
                    assert(name_means(after, name, local) == name_means(before, name, local));
                }
            }
        }
    }
}

/// What one more name at the end changes.
proof fn lemma_meaning_added(
    names: Seq<(Seq<char>, LocalName)>,
    last: (Seq<char>, LocalName),
    name: Seq<char>,
    local: LocalName,
)
    requires
        names_distinct(names.push(last)),
    ensures
        named(names.push(last), name) == (named(names, name) || name == last.0),
        name_means(names.push(last), name, local) == if name == last.0 {
            local == last.1
        } else {
            name_means(names, name, local)
        },
{
    let all = names.push(last);
    let n = names.len() as int;
    assert(all[n] == last);
    if named(all, name) {
        let i = choose|i: int| 0 <= i < all.len() && (#[trigger] all[i]).0 == name;
        if i < n {
            assert(names[i] == all[i]);
        }
    }
    if named(names, name) {
        let i = choose|i: int| 0 <= i < names.len() && (#[trigger] names[i]).0 == name;
        assert(all[i] == names[i]);
    }
    if name_means(all, name, local) {
        let i = choose|i: int| 0 <= i < all.len() && #[trigger] all[i] == (name, local);
        if i < n {
            assert(names[i] == all[i]);
            assert(all[i].0 != all[n].0);
        }
    }
    if name_means(names, name, local) {
        let i = choose|i: int| 0 <= i < names.len() && #[trigger] names[i] == (name, local);
        assert(all[i] == names[i]);
    }
}

/// A name that is there once stands for one thing.
proof fn lemma_meaning_unique(
    names: Seq<(Seq<char>, LocalName)>,
    name: Seq<char>,
    a: LocalName,
    b: LocalName,
)
    requires
        names_distinct(names),
        name_means(names, name, b),
    ensures
        name_means(names, name, a) == (a == b),
{
    if name_means(names, name, a) {
        let i = choose|i: int| 0 <= i < names.len() && #[trigger] names[i] == (name, a);
        let j = choose|j: int| 0 <= j < names.len() && #[trigger] names[j] == (name, b);
        if i < j {
            assert(names[i].0 != names[j].0);
        } else if j < i {
            assert(names[j].0 != names[i].0);
        }
    }
}

/// The names that were made after `given`, in order: those that do not stand for what they were
/// given with.
pub open spec fn names_made(
    given: Seq<(Seq<char>, LocalName)>,
    now: Seq<(Seq<char>, LocalName)>,
) -> Seq<(Seq<char>, LocalName)> {
    now.filter(|entry: (Seq<char>, LocalName)| !name_means(given, entry.0, entry.1))
}

/// One more name is among those that were made if it does not stand for what it was given with.
proof fn lemma_names_made_step(
    given: Seq<(Seq<char>, LocalName)>,
    now: Seq<(Seq<char>, LocalName)>,
)
    requires
        now.len() > 0,
    ensures
        names_made(given, now) == if name_means(given, now.last().0, now.last().1) {
            names_made(given, now.drop_last())
        } else {
            names_made(given, now.drop_last()).push(now.last())
        },
{
    reveal(Seq::filter);
}

/// What the names that were made stand for. None of them occurs twice.
pub proof fn lemma_names_made(
    given: Seq<(Seq<char>, LocalName)>,
    now: Seq<(Seq<char>, LocalName)>,
)
    ensures
        forall|name: Seq<char>, local: LocalName| #[trigger]
            name_means(names_made(given, now), name, local) == (name_means(now, name, local)
                && !name_means(given, name, local)),
        names_distinct(now) ==> names_distinct(names_made(given, now)),
    decreases now.len(),
{
    let made = names_made(given, now);
    if now.len() == 0 {
        reveal(Seq::filter);
    } else {
        let n = now.len() - 1;
        let fewer = now.drop_last();
        let last = now.last();
        let before = names_made(given, fewer);
        lemma_names_made(given, fewer);
        lemma_names_made_step(given, now);
        assert forall|name: Seq<char>, local: LocalName| #[trigger]
            name_means(made, name, local) == (name_means(now, name, local) && !name_means(
                given,
                name,
                local,
            )) by {
            assert(fewer.push(last) =~= now);
            lemma_means_pushed(fewer, last, name, local);
            lemma_means_pushed(before, last, name, local);
            assert(name_means(before, name, local) == (name_means(fewer, name, local)
                && !name_means(given, name, local)));
        }
        if names_distinct(now) {
            assert(names_distinct(fewer));
            assert forall|i: int, j: int| 0 <= i < j < made.len() implies made[i].0
                != made[j].0 by {
                assert(made[i] == before[i]);
                if j < before.len() {
                    assert(made[j] == before[j]);
                } else {
                    assert(before[i] == (before[i].0, before[i].1));
                    assert(name_means(before, before[i].0, before[i].1));
                    assert(name_means(fewer, before[i].0, before[i].1));
                    let k = choose|k: int|
                        0 <= k < fewer.len() && #[trigger] fewer[k] == (before[i].0, before[i].1);
                    assert(now[k].0 != now[n].0);
                }
            }
        }
    }
}

/// What one more name at the end makes names stand for.
proof fn lemma_means_pushed(
    names: Seq<(Seq<char>, LocalName)>,
    last: (Seq<char>, LocalName),
    name: Seq<char>,
    local: LocalName,
)
    ensures
        name_means(names.push(last), name, local) == (name_means(names, name, local) || last == (
            name,
            local,
        )),
{
    let all = names.push(last);
    if name_means(all, name, local) {
        let i = choose|i: int| 0 <= i < all.len() && #[trigger] all[i] == (name, local);
        if i < names.len() {
            assert(names[i] == (name, local));
        }
    }
    if name_means(names, name, local) {
        let i = choose|i: int| 0 <= i < names.len() && #[trigger] names[i] == (name, local);
        assert(all[i] == (name, local));
    }
    if last == (name, local) {
        assert(all[names.len() as int] == (name, local));
    }
}

/// Nothing has been made among names that are as they were given.
pub proof fn lemma_nothing_made(names: Seq<(Seq<char>, LocalName)>)
    ensures
        names_made(names, names).len() == 0,
{
    let made = names_made(names, names);
    lemma_names_made(names, names);
    if made.len() > 0 {
        assert(made[0] == (made[0].0, made[0].1));
        assert(name_means(made, made[0].0, made[0].1));
    }
}

/// What was made by putting names into the given ones: those among them that do not stand for what
/// they were given with.
pub proof fn lemma_made_by_putting(
    given: Seq<(Seq<char>, LocalName)>,
    more: Seq<(Seq<char>, LocalName)>,
    name: Seq<char>,
    local: LocalName,
)
    requires
        names_distinct(given),
        names_distinct(more),
    ensures
        name_means(more, name, local) && !name_means(given, name, local) ==> name_means(
            names_made(given, names_put(given, more)),
            name,
            local,
        ),
        !named(more, name) ==> !named(names_made(given, names_put(given, more)), name),
{
    let now = names_put(given, more);
    let made = names_made(given, now);
    lemma_names_put(given, more);
    lemma_names_made(given, now);
    if name_means(more, name, local) {
        let m = choose|m: int| 0 <= m < more.len() && #[trigger] more[m] == (name, local);
        assert(more[m].0 == name);
        assert(name_means(now, name, local));
    }
    if !named(more, name) && named(made, name) {
        let j = choose|j: int| 0 <= j < made.len() && (#[trigger] made[j]).0 == name;
        assert(made[j] == (name, made[j].1));
        assert(name_means(made, name, made[j].1));
        assert(name_means(now, name, made[j].1));
    }
}

/// Whether a name has the given meaning among some names.
fn find_meaning(names: &Vec<(String, LocalName)>, name: &String, local: LocalName) -> (res: bool)
    ensures
        res == name_means(name_pairs(names@), name@, local),
{
    let ghost all = name_pairs(names@);
    for i in 0..names.len()
        invariant
            all == name_pairs(names@),
            forall|j: int| 0 <= j < i ==> #[trigger] all[j] != (name@, local),
    {
        if names[i].1 == local && names[i].0 == *name {
            assert(all[i as int] == (name@, local));
            return true;
        }
    }
    false
}

/// The names among some that were made after `given`.
pub(crate) fn find_made(given: &Vec<(String, LocalName)>, now: &Vec<(String, LocalName)>) -> (res:
    Vec<(String, LocalName)>)
    ensures
        name_pairs(res@) == names_made(name_pairs(given@), name_pairs(now@)),
{
    let ghost all = name_pairs(now@);
    let ghost had = name_pairs(given@);
    let mut res: Vec<(String, LocalName)> = Vec::new();
    proof {
        reveal(Seq::filter);
        assert(name_pairs(res@) =~= names_made(had, all.take(0)));
    }
    for i in 0..now.len()
        invariant
            all == name_pairs(now@),
            had == name_pairs(given@),
            name_pairs(res@) == names_made(had, all.take(i as int)),
    {
        let ghost before = name_pairs(res@);
        proof {
            assert(all.take(i + 1).drop_last() =~= all.take(i as int));
            lemma_names_made_step(had, all.take(i + 1));
        }
        if !find_meaning(given, &now[i].0, now[i].1) {
            res.push((now[i].0.clone(), now[i].1));
            assert(name_pairs(res@) =~= before.push(all[i as int]));
        }
    }
    assert(all.take(all.len() as int) =~= all);
    res
}

/// A name that was put in has its meaning, and the others keep theirs.
proof fn lemma_name_put(names: Seq<(Seq<char>, LocalName)>, name: Seq<char>, local: LocalName)
    ensures
        name_means(name_put(names, name, local), name, local),
        forall|other: Seq<char>, l: LocalName|
            other != name ==> name_means(name_put(names, name, local), other, l) == name_means(
                names,
                other,
                l,
            ),
    decreases names.len(),
{
    let res = name_put(names, name, local);
    if names.len() == 0 {
        assert(res[0] == (name, local));
        assert forall|other: Seq<char>, l: LocalName| other != name implies name_means(
            res,
            other,
            l,
        ) == name_means(names, other, l) by {}
    } else if names[0].0 == name {
        assert(res[0] == (name, local));
        assert forall|other: Seq<char>, l: LocalName| other != name implies name_means(
            res,
            other,
            l,
        ) == name_means(names, other, l) by {
            if name_means(names, other, l) {
                let i = choose|i: int| 0 <= i < names.len() && #[trigger] names[i] == (other, l);
                assert(res[i] == (other, l));
            }
            if name_means(res, other, l) {
                let i = choose|i: int| 0 <= i < res.len() && #[trigger] res[i] == (other, l);
                assert(names[i] == (other, l));
            }
        }
    } else {
        let rest = names.drop_first();
        lemma_name_put(rest, name, local);
        let tail = name_put(rest, name, local);
        let i = choose|i: int| 0 <= i < tail.len() && #[trigger] tail[i] == (name, local);
        assert(res[i + 1] == (name, local));
        assert forall|other: Seq<char>, l: LocalName| other != name implies name_means(
            res,
            other,
            l,
        ) == name_means(names, other, l) by {
            if name_means(names, other, l) {
                let i = choose|i: int| 0 <= i < names.len() && #[trigger] names[i] == (other, l);
                if i == 0 {
                    assert(res[0] == (other, l));
                } else {
                    assert(rest[i - 1] == (other, l));
                    assert(name_means(rest, other, l));
                    assert(name_means(tail, other, l));
                    let k = choose|k: int| 0 <= k < tail.len() && #[trigger] tail[k] == (other, l);
                    assert(res[k + 1] == (other, l));
                }
            }
            if name_means(res, other, l) {
                let i = choose|i: int| 0 <= i < res.len() && #[trigger] res[i] == (other, l);
                if i == 0 {
                    assert(names[0] == (other, l));
                } else {
                    assert(tail[i - 1] == (other, l));
                    assert(name_means(tail, other, l));
                    assert(name_means(rest, other, l));
                    let k = choose|k: int| 0 <= k < rest.len() && #[trigger] rest[k] == (other, l);
                    assert(names[k + 1] == (other, l));
                }
            }
        }
    }
}

/// A name that is put in leaves the others at their positions.
proof fn lemma_name_put_positions(
    names: Seq<(Seq<char>, LocalName)>,
    name: Seq<char>,
    local: LocalName,
)
    ensures
        names.len() <= name_put(names, name, local).len() <= names.len() + 1,
        forall|i: int|
            0 <= i < names.len() ==> (#[trigger] name_put(names, name, local)[i]).0 == names[i].0,
        name_put(names, name, local).len() > names.len() ==> name_put(names, name, local).last().0
            == name,
    decreases names.len(),
{
    if names.len() > 0 && names[0].0 != name {
        let rest = names.drop_first();
        lemma_name_put_positions(rest, name, local);
        let after = name_put(names, name, local);
        assert forall|i: int| 0 <= i < names.len() implies (#[trigger] after[i]).0
            == names[i].0 by {
            if i > 0 {
                assert(after[i] == name_put(rest, name, local)[i - 1]);
                assert(rest[i - 1] == names[i]);
            }
        }
    }
}

/// Names that are put in leave the names that were there at their positions. Those that are new
/// come after them.
pub proof fn law_names_keep_their_positions(
    names: Seq<(Seq<char>, LocalName)>,
    more: Seq<(Seq<char>, LocalName)>,
)
    ensures
        names_put(names, more).len() >= names.len(),
        forall|i: int|
            0 <= i < names.len() ==> (#[trigger] names_put(names, more)[i]).0 == names[i].0,
        forall|i: int|
            names.len() <= i < names_put(names, more).len() ==> named(
                more,
                (#[trigger] names_put(names, more)[i]).0,
            ),
    decreases more.len(),
{
    if more.len() > 0 {
        let fewer = more.drop_last();
        law_names_keep_their_positions(names, fewer);
        let before = names_put(names, fewer);
        let after = names_put(names, more);
        lemma_name_put_positions(before, more.last().0, more.last().1);
        assert forall|i: int| names.len() <= i < after.len() implies named(
            more,
            (#[trigger] after[i]).0,
        ) by {
            if i < before.len() {
                assert(after[i].0 == before[i].0);
                let j = choose|j: int| 0 <= j < fewer.len() && (#[trigger] fewer[j]).0
                    == before[i].0;
                assert(more[j].0 == before[i].0);
            } else {
                assert(more[more.len() - 1].0 == after[i].0);
            }
        }
    }
}

} // verus!
