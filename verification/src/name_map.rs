//! A map from names to values that keeps its names in their order, so that
//! they can be listed as well as looked up.

use vstd::prelude::*;
use crate::text::{
    comes_before, lemma_precedes_irreflexive, lemma_precedes_total, lemma_precedes_transitive,
    precedes, same_text, starts_with, texts_view,
};

verus! {

/// Each name of `names` comes before all that follow it; so none occurs
/// twice.
pub open spec fn strictly_sorted(names: Seq<Seq<char>>) -> bool {
    forall|i: int, j: int| 0 <= i < j < names.len() ==> precedes(#[trigger] names[i], #[trigger] names[j])
}

/// A place at which `names` holds `name`.
pub open spec fn position(names: Seq<Seq<char>>, name: Seq<char>) -> int {
    choose|i: int| 0 <= i < names.len() && names[i] == name
}

/// In a sorted list a name has one place only.
pub proof fn lemma_position_unique(names: Seq<Seq<char>>, i: int)
    requires
        strictly_sorted(names),
        0 <= i < names.len(),
    ensures
        position(names, names[i]) == i,
{
    let p = position(names, names[i]);
    lemma_precedes_irreflexive(names[i]);
    if p < i {
        assert(precedes(names[p], names[i]));
    } else if i < p {
        assert(precedes(names[i], names[p]));
    }
}

/// Two sorted lists of the same names are the same list.
pub proof fn lemma_sorted_names_determined(a: Seq<Seq<char>>, b: Seq<Seq<char>>)
    requires
        strictly_sorted(a),
        strictly_sorted(b),
        forall|name: Seq<char>| a.contains(name) <==> b.contains(name),
    ensures
        a == b,
    decreases a.len(),
{
    if a.len() == 0 {
        if b.len() > 0 {
            assert(b.contains(b[0]));
        }
        assert(a =~= b);
    } else {
        assert(a.contains(a[0]));
        let k = choose|k: int| 0 <= k < b.len() && b[k] == a[0];
        assert(b.contains(b[0]));
        let m = choose|m: int| 0 <= m < a.len() && a[m] == b[0];
        lemma_precedes_total(a[0], b[0]);
        if m > 0 {
            assert(precedes(a[0], a[m]));
        }
        if k > 0 {
            assert(precedes(b[0], b[k]));
        }
        assert(a[0] == b[0]);
        let ra = a.drop_first();
        let rb = b.drop_first();
        lemma_precedes_irreflexive(a[0]);
        assert forall|x: int, y: int| 0 <= x < y < ra.len() implies precedes(
            #[trigger] ra[x],
            #[trigger] ra[y],
        ) by {
            assert(precedes(a[x + 1], a[y + 1]));
        }
        assert forall|x: int, y: int| 0 <= x < y < rb.len() implies precedes(
            #[trigger] rb[x],
            #[trigger] rb[y],
        ) by {
            assert(precedes(b[x + 1], b[y + 1]));
        }
        assert forall|name: Seq<char>| ra.contains(name) <==> rb.contains(name) by {
            if ra.contains(name) {
                let i = choose|i: int| 0 <= i < ra.len() && ra[i] == name;
                assert(a[i + 1] == name);
                assert(precedes(a[0], a[i + 1]));
                assert(a.contains(name));
                let j = choose|j: int| 0 <= j < b.len() && b[j] == name;
                assert(j > 0);
                assert(rb[j - 1] == name);
            }
            if rb.contains(name) {
                let i = choose|i: int| 0 <= i < rb.len() && rb[i] == name;
                assert(b[i + 1] == name);
                assert(precedes(b[0], b[i + 1]));
                assert(b.contains(name));
                let j = choose|j: int| 0 <= j < a.len() && a[j] == name;
                assert(j > 0);
                assert(ra[j - 1] == name);
            }
        }
        lemma_sorted_names_determined(ra, rb);
        assert(a =~= seq![a[0]] + ra);
        assert(b =~= seq![b[0]] + rb);
    }
}

/// Those of `names` that begin with `text`, in the order of `names`.
pub open spec fn prefix_matches(names: Seq<Seq<char>>, text: Seq<char>) -> Seq<Seq<char>>
    decreases names.len(),
{
    if names.len() == 0 {
        Seq::empty()
    } else if text.is_prefix_of(names.last()) {
        prefix_matches(names.drop_last(), text).push(names.last())
    } else {
        prefix_matches(names.drop_last(), text)
    }
}

/// The matches are the names that begin with `text`; each match stands for
/// a place in `names`, and later matches for later places.
pub proof fn lemma_prefix_matches(names: Seq<Seq<char>>, text: Seq<char>)
    ensures
        prefix_matches(names, text).len() <= names.len(),
        forall|name: Seq<char>| #[trigger]
            prefix_matches(names, text).contains(name) ==> names.contains(name)
                && text.is_prefix_of(name),
        forall|name: Seq<char>| #[trigger]
            names.contains(name) && text.is_prefix_of(name) ==> prefix_matches(
                names,
                text,
            ).contains(name),
        strictly_sorted(names) ==> strictly_sorted(prefix_matches(names, text)),
    decreases names.len(),
{
    let found = prefix_matches(names, text);
    if names.len() > 0 {
        let rest = names.drop_last();
        let last = names.last();
        let before = prefix_matches(rest, text);
        lemma_prefix_matches(rest, text);
        assert(names =~= rest.push(last));
        assert forall|name: Seq<char>| #[trigger] found.contains(name) implies names.contains(name)
            && text.is_prefix_of(name) by {
            let p = choose|p: int| 0 <= p < found.len() && found[p] == name;
            if p < before.len() {
                assert(before[p] == name);
                assert(before.contains(name));
                let q = choose|q: int| 0 <= q < rest.len() && rest[q] == name;
                assert(names[q] == name);
            } else {
                assert(names[names.len() - 1] == name);
            }
        }
        assert forall|name: Seq<char>| #[trigger]
            names.contains(name) && text.is_prefix_of(name) implies found.contains(name) by {
            let q = choose|q: int| 0 <= q < names.len() && names[q] == name;
            if q < rest.len() {
                assert(rest[q] == name);
                assert(rest.contains(name));
                let p = choose|p: int| 0 <= p < before.len() && before[p] == name;
                assert(found[p] == name);
            } else {
                assert(found[found.len() - 1] == name);
            }
        }
        if strictly_sorted(names) {
            assert forall|a: int, b: int| 0 <= a < b < rest.len() implies precedes(
                #[trigger] rest[a],
                #[trigger] rest[b],
            ) by {
                assert(precedes(names[a], names[b]));
            }
            assert forall|a: int, b: int| 0 <= a < b < found.len() implies precedes(
                #[trigger] found[a],
                #[trigger] found[b],
            ) by {
                if b < before.len() {
                    assert(precedes(before[a], before[b]));
                } else {
                    assert(before.contains(before[a]));
                    let q = choose|q: int| 0 <= q < rest.len() && rest[q] == before[a];
                    assert(precedes(names[q], names[names.len() - 1]));
                }
            }
        }
    }
}

/// A map from names to values, held in the order of the names.
pub struct NameMap<V> {
    keys: Vec<String>,
    values: Vec<V>,
}

impl<V: View> View for NameMap<V> {
    type V = Map<Seq<char>, V::V>;

    /// The mapping: each listed name to the value that stands at its place.
    open spec fn view(&self) -> Map<Seq<char>, V::V> {
        Map::new(
            |name: Seq<char>| self.names().contains(name),
            |name: Seq<char>| self.items()[position(self.names(), name)],
        )
    }
}

impl<V: View> NameMap<V> {
    /// The names, in the order in which the map lists them.
    pub closed spec fn names(&self) -> Seq<Seq<char>> {
        Seq::new(self.keys@.len(), |i: int| self.keys@[i]@)
    }

    /// The values, each at the place of its name.
    pub closed spec fn items(&self) -> Seq<V::V> {
        Seq::new(self.values@.len(), |i: int| self.values@[i]@)
    }

    /// Every name has a value, and the names are in order.
    pub open spec fn wf(&self) -> bool {
        self.names().len() == self.items().len() && strictly_sorted(self.names())
    }

    /// In a well-formed map the value at a place belongs to the name there.
    pub proof fn lemma_entry(&self, i: int)
        requires
            self.wf(),
            0 <= i < self.names().len(),
        ensures
            self@.contains_key(self.names()[i]),
            self@[self.names()[i]] == self.items()[i],
    {
        lemma_position_unique(self.names(), i);
    }

    /// The empty map.
    pub fn new() -> (map: Self)
        ensures
            map.wf(),
            map@ == Map::<Seq<char>, V::V>::empty(),
            map.names() == Seq::<Seq<char>>::empty(),
    {
        let map = NameMap { keys: Vec::new(), values: Vec::new() };
        assert(map.names() =~= Seq::<Seq<char>>::empty());
        assert(map@ =~= Map::<Seq<char>, V::V>::empty());
        map
    }

    /// The number of names.
    pub fn len(&self) -> (n: usize)
        ensures
            n == self.names().len(),
    {
        self.keys.len()
    }

    /// The place of `key`, and whether the map holds it: where it does not,
    /// the place at which it would be listed.
    pub fn locate(&self, key: &str) -> (r: (usize, bool))
        requires
            self.wf(),
        ensures
            r.0 <= self.names().len(),
            r.1 == self.names().contains(key@),
            r.1 ==> r.0 < self.names().len() && self.names()[r.0 as int] == key@,
            forall|j: int| 0 <= j < r.0 ==> precedes(#[trigger] self.names()[j], key@),
            forall|j: int|
                r.0 <= j < self.names().len() && !(r.1 && j == r.0) ==> precedes(
                    key@,
                    #[trigger] self.names()[j],
                ),
    {
        let mut i: usize = 0;
        while i < self.keys.len() && comes_before(self.keys[i].as_str(), key)
            invariant
                self.wf(),
                i <= self.keys@.len(),
                forall|j: int| 0 <= j < i ==> precedes(#[trigger] self.names()[j], key@),
            decreases self.keys@.len() - i,
        {
            i += 1;
        }
        let found: bool = i < self.keys.len() && same_text(self.keys[i].as_str(), key);
        proof {
            let names = self.names();
            lemma_precedes_irreflexive(key@);
            if i < names.len() {
                lemma_precedes_total(names[i as int], key@);
                assert forall|j: int| i < j < names.len() implies precedes(
                    key@,
                    #[trigger] names[j],
                ) by {
                    assert(precedes(names[i as int], names[j]));
                    if !found {
                        lemma_precedes_transitive(key@, names[i as int], names[j]);
                    }
                }
            }
            if !found {
                assert forall|j: int| 0 <= j < names.len() implies names[j] != key@ by {
                    if j < i {
                        assert(precedes(names[j], key@));
                    } else {
                        assert(precedes(key@, names[j]));
                    }
                }
            }
        }
        (i, found)
    }

    /// Whether the map holds `key`.
    pub fn contains_key(&self, key: &str) -> (r: bool)
        requires
            self.wf(),
        ensures
            r == self@.contains_key(key@),
    {
        self.locate(key).1
    }

    /// The value of `key`, where the map holds it.
    pub fn get(&self, key: &str) -> (r: Option<&V>)
        requires
            self.wf(),
        ensures
            r matches Some(v) ==> self@.contains_key(key@) && self@[key@] == v@,
            r is None ==> !self@.contains_key(key@),
    {
        let (i, found) = self.locate(key);
        if found {
            proof {
                self.lemma_entry(i as int);
            }
            Some(&self.values[i])
        } else {
            None
        }
    }

    /// The name at place `i`.
    pub fn name_at(&self, i: usize) -> (name: &String)
        requires
            i < self.names().len(),
        ensures
            name@ == self.names()[i as int],
    {
        &self.keys[i]
    }

    /// The value at place `i`.
    pub fn item_at(&self, i: usize) -> (item: &V)
        requires
            self.wf(),
            i < self.names().len(),
        ensures
            item@ == self.items()[i as int],
            self@[self.names()[i as int]] == item@,
    {
        proof {
            self.lemma_entry(i as int);
        }
        &self.values[i]
    }

    /// The names that begin with `text`, in the order of the names.
    pub fn names_with_prefix(&self, text: &str) -> (found: Vec<String>)
        ensures
            texts_view(found@) == prefix_matches(self.names(), text@),
    {
        let mut found: Vec<String> = Vec::new();
        let mut i: usize = 0;
        assert(self.names().take(0) =~= Seq::<Seq<char>>::empty());
        assert(texts_view(found@) =~= Seq::<Seq<char>>::empty());
        while i < self.keys.len()
            invariant
                i <= self.keys@.len(),
                texts_view(found@) == prefix_matches(self.names().take(i as int), text@),
            decreases self.keys@.len() - i,
        {
            proof {
                assert(self.names().take(i + 1).drop_last() =~= self.names().take(i as int));
                assert(self.names().take(i + 1).last() == self.keys@[i as int]@);
            }
            if starts_with(self.keys[i].as_str(), text) {
                let ghost before = found@;
                found.push(self.keys[i].clone());
                assert(texts_view(found@) =~= texts_view(before).push(self.keys@[i as int]@));
            }
            i += 1;
        }
        assert(self.names().take(self.keys@.len() as int) =~= self.names());
        found
    }

    /// Maps `key` to `value`, and hands back the value that `key` had.
    pub fn insert(&mut self, key: String, value: V) -> (previous: Option<V>)
        requires
            old(self).wf(),
        ensures
            final(self).wf(),
            final(self)@ == old(self)@.insert(key@, value@),
            previous matches Some(v) ==> old(self)@.contains_key(key@) && old(self)@[key@] == v@,
            previous is None ==> !old(self)@.contains_key(key@),
            old(self).names().contains(key@) ==> final(self).names() == old(self).names(),
    {
        let (i, found) = self.locate(key.as_str());
        let ghost before = *self;
        if found {
            let previous = self.values.remove(i);
            self.values.insert(i, value);
            proof {
                assert(self.names() =~= before.names());
                assert(self.items() =~= before.items().update(i as int, value@));
                before.lemma_entry(i as int);
                assert forall|name: Seq<char>| self@.contains_key(name) implies #[trigger] self@[name]
                    == before@.insert(key@, value@)[name] by {
                    let p = position(self.names(), name);
                    lemma_position_unique(self.names(), p);
                    lemma_position_unique(self.names(), i as int);
                    if p != i {
                        assert(before@[name] == before.items()[p]);
                    }
                }
                assert(self@ =~= before@.insert(key@, value@));
            }
            Some(previous)
        } else {
            self.keys.insert(i, key);
            self.values.insert(i, value);
            proof {
                let names = self.names();
                assert(names =~= before.names().insert(i as int, key@));
                assert(self.items() =~= before.items().insert(i as int, value@));
                assert forall|a: int, b: int| 0 <= a < b < names.len() implies precedes(
                    #[trigger] names[a],
                    #[trigger] names[b],
                ) by {
                    let oa = if a < i { a } else { a - 1 };
                    let ob = if b < i { b } else { b - 1 };
                    if a != i && b != i {
                        assert(precedes(before.names()[oa], before.names()[ob]));
                    } else if a == i {
                        assert(precedes(key@, before.names()[ob]));
                    } else {
                        assert(precedes(before.names()[oa], key@));
                    }
                }
                assert forall|name: Seq<char>| names.contains(name) <==> (before.names().contains(
                    name,
                ) || name == key@) by {
                    if names.contains(name) {
                        let p = choose|p: int| 0 <= p < names.len() && names[p] == name;
                        if p < i {
                            assert(before.names()[p] == name);
                        } else if p > i {
                            assert(before.names()[p - 1] == name);
                        }
                    }
                    if before.names().contains(name) {
                        let p = choose|p: int| 0 <= p < before.names().len() && before.names()[p] == name;
                        if p < i {
                            assert(names[p] == name);
                        } else {
                            assert(names[p + 1] == name);
                        }
                    }
                    if name == key@ {
                        assert(names[i as int] == name);
                    }
                }
                assert forall|name: Seq<char>| self@.contains_key(name) implies #[trigger] self@[name]
                    == before@.insert(key@, value@)[name] by {
                    let p = position(names, name);
                    lemma_position_unique(names, p);
                    lemma_position_unique(names, i as int);
                    assert(names[p] == name);
                    assert(self@[name] == self.items()[p]);
                    if p < i {
                        assert(before.names()[p] == name);
                        lemma_position_unique(before.names(), p);
                        assert(before.names().contains(name));
                        assert(name != key@);
                        assert(self.items()[p] == before.items()[p]);
                        assert(before@[name] == before.items()[p]);
                        assert(before@.insert(key@, value@)[name] == before@[name]);
                    } else if p > i {
                        assert(before.names()[p - 1] == name);
                        lemma_position_unique(before.names(), p - 1);
                        assert(before.names().contains(name));
                        assert(name != key@);
                        assert(self.items()[p] == before.items()[p - 1]);
                        assert(before@[name] == before.items()[p - 1]);
                        assert(before@.insert(key@, value@)[name] == before@[name]);
                    } else {
                        assert(before@.insert(key@, value@)[name] == value@);
                        assert(name == key@);
                        assert(self.items()[p] == value@);
                    }
                }
                assert(self@ =~= before@.insert(key@, value@));
            }
            None
        }
    }

    /// Takes `key` out of the map, and hands back the value that it had.
    pub fn remove(&mut self, key: &str) -> (previous: Option<V>)
        requires
            old(self).wf(),
        ensures
            final(self).wf(),
            final(self)@ == old(self)@.remove(key@),
            previous matches Some(v) ==> old(self)@.contains_key(key@) && old(self)@[key@] == v@,
            previous is None ==> !old(self)@.contains_key(key@),
    {
        let (i, found) = self.locate(key);
        let ghost before = *self;
        if found {
            let _ = self.keys.remove(i);
            let previous = self.values.remove(i);
            proof {
                let names = self.names();
                assert(names =~= before.names().remove(i as int));
                assert(self.items() =~= before.items().remove(i as int));
                before.lemma_entry(i as int);
                assert forall|a: int, b: int| 0 <= a < b < names.len() implies precedes(
                    #[trigger] names[a],
                    #[trigger] names[b],
                ) by {
                    let oa = if a < i { a } else { a + 1 };
                    let ob = if b < i { b } else { b + 1 };
                    assert(precedes(before.names()[oa], before.names()[ob]));
                }
                lemma_precedes_irreflexive(key@);
                assert forall|name: Seq<char>| names.contains(name) <==> (before.names().contains(
                    name,
                ) && name != key@) by {
                    if names.contains(name) {
                        let p = choose|p: int| 0 <= p < names.len() && names[p] == name;
                        let op = if p < i { p } else { p + 1 };
                        assert(before.names()[op] == name);
                        if op < i {
                            assert(precedes(before.names()[op], before.names()[i as int]));
                        } else {
                            assert(precedes(before.names()[i as int], before.names()[op]));
                        }
                    }
                    if before.names().contains(name) && name != key@ {
                        let p = choose|p: int| 0 <= p < before.names().len() && before.names()[p] == name;
                        if p < i {
                            assert(names[p] == name);
                        } else {
                            assert(names[p - 1] == name);
                        }
                    }
                }
                assert forall|name: Seq<char>| self@.contains_key(name) implies #[trigger] self@[name]
                    == before@.remove(key@)[name] by {
                    let p = position(names, name);
                    lemma_position_unique(names, p);
                    if p < i {
                        lemma_position_unique(before.names(), p);
                    } else {
                        lemma_position_unique(before.names(), p + 1);
                    }
                }
                assert(self@ =~= before@.remove(key@));
            }
            Some(previous)
        } else {
            assert(self@ =~= before@.remove(key@));
            None
        }
    }
}

} // verus!
