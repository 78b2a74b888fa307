//! A map from texts to values that remembers the order of insertion.

use vstd::prelude::*;

use crate::text::same_text;

verus! {

/// Entry `i` of `s` has key `key`.
pub open spec fn key_at<V>(s: Seq<(Seq<char>, V)>, key: Seq<char>, i: int) -> bool {
    0 <= i < s.len() && s[i].0 == key
}

/// Some entry of `s` has key `key`.
pub open spec fn has_key<V>(s: Seq<(Seq<char>, V)>, key: Seq<char>) -> bool {
    exists|i: int| key_at(s, key, i)
}

/// A position at which `s` has key `key`.
pub open spec fn index_of<V>(s: Seq<(Seq<char>, V)>, key: Seq<char>) -> int {
    choose|i: int| key_at(s, key, i)
}

/// The value that `s` has for `key`.
pub open spec fn lookup<V>(s: Seq<(Seq<char>, V)>, key: Seq<char>) -> Option<V> {
    if has_key(s, key) {
        Some(s[index_of(s, key)].1)
    } else {
        None
    }
}

/// `s` without the entry of `key`.
pub open spec fn without<V>(s: Seq<(Seq<char>, V)>, key: Seq<char>) -> Seq<(Seq<char>, V)> {
    if has_key(s, key) {
        s.remove(index_of(s, key))
    } else {
        s
    }
}

/// `s` with `value` as the value of `key`: in place if the key is there, else at the end.
pub open spec fn with<V>(s: Seq<(Seq<char>, V)>, key: Seq<char>, value: V) -> Seq<
    (Seq<char>, V),
> {
    if has_key(s, key) {
        s.update(index_of(s, key), (key, value))
    } else {
        s.push((key, value))
    }
}

/// No key occurs twice.
pub open spec fn distinct_keys<V>(s: Seq<(Seq<char>, V)>) -> bool {
    forall|i: int, j: int|
        0 <= i < s.len() && 0 <= j < s.len() && i != j ==> (#[trigger] s[i]).0 != (
        #[trigger] s[j]).0
}

/// With distinct keys, the position of a key is the only one.
pub proof fn index_is_unique<V>(s: Seq<(Seq<char>, V)>, key: Seq<char>, i: int)
    requires
        distinct_keys(s),
        key_at(s, key, i),
    ensures
        has_key(s, key),
        index_of(s, key) == i,
        lookup(s, key) == Some(s[i].1),
{
    let j = index_of(s, key);
    assert(key_at(s, key, j));
    if i != j {
        assert(s[i].0 != s[j].0);
    }
}

/// Storing a value under a key makes it the key's value, and leaves the other keys alone.
pub proof fn lookup_after_with<V>(s: Seq<(Seq<char>, V)>, key: Seq<char>, value: V, other: Seq<char>)
    requires
        distinct_keys(s),
    ensures
        distinct_keys(with(s, key, value)),
        lookup(with(s, key, value), key) == Some(value),
        other != key ==> lookup(with(s, key, value), other) == lookup(s, other),
{
    let t = with(s, key, value);
    if has_key(s, key) {
        assert(key_at(t, key, index_of(s, key)));
        assert(distinct_keys(t)) by {
            assert forall|i: int, j: int|
                0 <= i < t.len() && 0 <= j < t.len() && i != j implies (#[trigger] t[i]).0 != (
            #[trigger] t[j]).0 by {
                assert(s[i].0 != s[j].0);
            }
        }
        index_is_unique(t, key, index_of(s, key));
    } else {
        assert forall|i: int| 0 <= i < s.len() implies (#[trigger] s[i]).0 != key by {
            assert(!key_at(s, key, i));
        }
        assert(key_at(t, key, s.len() as int));
        index_is_unique(t, key, s.len() as int);
    }
    if other != key {
        if has_key(s, other) {
            let i = index_of(s, other);
            assert(key_at(t, other, i));
            index_is_unique(t, other, i);
        } else if has_key(t, other) {
            let i = index_of(t, other);
            assert(key_at(s, other, i));
        }
    }
}

/// Removing a key leaves nothing under it, and leaves the other keys alone.
pub proof fn lookup_after_without<V>(s: Seq<(Seq<char>, V)>, key: Seq<char>, other: Seq<char>)
    requires
        distinct_keys(s),
    ensures
        distinct_keys(without(s, key)),
        lookup(without(s, key), key) is None,
        other != key ==> lookup(without(s, key), other) == lookup(s, other),
{
    let t = without(s, key);
    if has_key(s, key) {
        let p = index_of(s, key);
        assert(key_at(s, key, p));
        assert forall|i: int, j: int|
            0 <= i < t.len() && 0 <= j < t.len() && i != j implies (#[trigger] t[i]).0 != (
        #[trigger] t[j]).0 by {
            let a = if i < p { i } else { i + 1 };
            let b = if j < p { j } else { j + 1 };
            assert(s[a].0 != s[b].0);
        }
        if has_key(t, key) {
            let i = index_of(t, key);
            assert(key_at(t, key, i));
            let a = if i < p { i } else { i + 1 };
            assert(s[a].0 != s[p].0);
        }
        if other != key {
            if has_key(s, other) {
                let i = index_of(s, other);
                assert(key_at(s, other, i));
                let b = if i < p { i } else { i - 1 };
                assert(key_at(t, other, b));
                index_is_unique(t, other, b);
            } else if has_key(t, other) {
                let i = index_of(t, other);
                assert(key_at(t, other, i));
                let a = if i < p { i } else { i + 1 };
                assert(key_at(s, other, a));
            }
        }
    }
}

/// `s` with `f` applied to every value.
pub open spec fn mapped<V, W>(s: Seq<(Seq<char>, V)>, f: spec_fn(V) -> W) -> Seq<(Seq<char>, W)> {
    s.map_values(|e: (Seq<char>, V)| (e.0, f(e.1)))
}

/// Looking up and removing keys commute with mapping the values.
pub proof fn mapped_commutes<V, W>(s: Seq<(Seq<char>, V)>, f: spec_fn(V) -> W, key: Seq<char>)
    requires
        distinct_keys(s),
    ensures
        distinct_keys(mapped(s, f)),
        lookup(mapped(s, f), key) == match lookup(s, key) {
            Some(v) => Some(f(v)),
            None => None,
        },
        mapped(without(s, key), f) == without(mapped(s, f), key),
{
    let t = mapped(s, f);
    assert forall|i: int, j: int|
        0 <= i < t.len() && 0 <= j < t.len() && i != j implies (#[trigger] t[i]).0 != (
    #[trigger] t[j]).0 by {
        assert(s[i].0 != s[j].0);
    }
    if has_key(s, key) {
        let i = index_of(s, key);
        assert(key_at(s, key, i));
        assert(key_at(t, key, i));
        index_is_unique(t, key, i);
    } else if has_key(t, key) {
        assert(key_at(s, key, index_of(t, key)));
    }
    assert(mapped(without(s, key), f) =~= without(t, key));
}

/// Storing a value commutes with mapping the values.
pub proof fn mapped_commutes_with<V, W>(
    s: Seq<(Seq<char>, V)>,
    f: spec_fn(V) -> W,
    key: Seq<char>,
    value: V,
)
    requires
        distinct_keys(s),
    ensures
        mapped(with(s, key, value), f) == with(mapped(s, f), key, f(value)),
{
    let t = mapped(s, f);
    mapped_commutes(s, f, key);
    if has_key(s, key) {
        let i = index_of(s, key);
        assert(key_at(s, key, i));
        assert(key_at(t, key, i));
        index_is_unique(t, key, i);
    } else if has_key(t, key) {
        assert(key_at(s, key, index_of(t, key)));
    }
    assert(mapped(with(s, key, value), f) =~= with(t, key, f(value)));
}

/// Entries with the contents of their keys.
pub open spec fn entries_view<V>(entries: Seq<(String, V)>) -> Seq<(Seq<char>, V)> {
    entries.map_values(|e: (String, V)| (e.0@, e.1))
}

/// An insertion-ordered map with text keys.
pub struct OrderedMap<V> {
    entries: Vec<(String, V)>,
}

impl<V> View for OrderedMap<V> {
    type V = Seq<(Seq<char>, V)>;

    closed spec fn view(&self) -> Seq<(Seq<char>, V)> {
        entries_view(self.entries@)
    }
}

impl<V> OrderedMap<V> {
    /// No key occurs twice.
    pub open spec fn wf(&self) -> bool {
        distinct_keys(self@)
    }

    pub fn new() -> (map: Self)
        ensures
            map.wf(),
            map@ == Seq::<(Seq<char>, V)>::empty(),
    {
        let map = OrderedMap { entries: Vec::new() };
        assert(map@ =~= Seq::<(Seq<char>, V)>::empty());
        map
    }

    pub fn len(&self) -> (n: usize)
        ensures
            n == self@.len(),
    {
        self.entries.len()
    }

    /// The value of entry `i`, in insertion order.
    pub fn value(&self, i: usize) -> (v: &V)
        requires
            i < self@.len(),
        ensures
            *v == self@[i as int].1,
    {
        &self.entries[i].1
    }

    /// The key of entry `i`, in insertion order.
    pub fn key(&self, i: usize) -> (key: String)
        requires
            i < self@.len(),
        ensures
            key@ == self@[i as int].0,
    {
        self.entries[i].0.clone()
    }

    /// The position of `key`.
    pub fn position(&self, key: &str) -> (found: Option<usize>)
        ensures
            match found {
                Some(i) => key_at(self@, key@, i as int),
                None => !has_key(self@, key@),
            },
    {
        let mut i: usize = 0;
        while i < self.entries.len()
            invariant
                i <= self.entries.len(),
                self@.len() == self.entries.len(),
                forall|k: int| 0 <= k < i ==> !key_at(self@, key@, k),
            decreases self.entries.len() - i,
        {
            assert(self@[i as int].0 == self.entries@[i as int].0@);
            if same_text(self.entries[i].0.as_str(), key) {
                return Some(i);
            }
            i = i + 1;
        }
        None
    }

    /// The value of `key`.
    pub fn get(&self, key: &str) -> (found: Option<&V>)
        requires
            self.wf(),
        ensures
            match found {
                Some(v) => lookup(self@, key@) == Some(*v),
                None => lookup(self@, key@) is None,
            },
    {
        match self.position(key) {
            Some(i) => {
                proof {
                    index_is_unique(self@, key@, i as int);
                }
                Some(&self.entries[i].1)
            },
            None => None,
        }
    }

    /// Stores `value` under `key` and returns the value that was there.
    pub fn insert(&mut self, key: String, value: V) -> (previous: Option<V>)
        requires
            old(self).wf(),
        ensures
            final(self).wf(),
            final(self)@ == with(old(self)@, key@, value),
            previous == lookup(old(self)@, key@),
    {
        proof {
            lookup_after_with(self@, key@, value, key@);
        }
        let ghost before = self@;
        match self.position(key.as_str()) {
            Some(i) => {
                proof {
                    index_is_unique(self@, key@, i as int);
                }
                let taken = self.entries.remove(i);
                assert(taken.1 == before[i as int].1);
                self.entries.insert(i, (key, value));
                assert(self@ =~= with(before, key@, value));
                Some(taken.1)
            },
            None => {
                self.entries.push((key, value));
                assert(self@ =~= with(before, key@, value));
                None
            },
        }
    }

    /// The value of `key`, for changing it in place.
    pub fn get_mut(&mut self, key: &str) -> (found: Option<&mut V>)
        requires
            old(self).wf(),
        ensures
            match found {
                Some(v) => {
                    &&& lookup(old(self)@, key@) == Some(*v)
                    &&& final(self)@ == with(old(self)@, key@, *final(v))
                    &&& final(self).wf()
                },
                None => {
                    &&& lookup(old(self)@, key@) is None
                    &&& *final(self) == *old(self)
                },
            },
    {
        match self.position(key) {
            Some(i) => {
                proof {
                    index_is_unique(self@, key@, i as int);
                }
                let ghost entries = self.entries@;
                assert forall|v: V| #[trigger]
                    entries_view(entries.update(i as int, (entries[i as int].0, v))) == with(
                    old(self)@,
                    key@,
                    v,
                ) && distinct_keys(with(old(self)@, key@, v)) by {
                    lookup_after_with(old(self)@, key@, v, key@);
                    assert(entries_view(entries.update(i as int, (entries[i as int].0, v))) =~= with(
                        old(self)@,
                        key@,
                        v,
                    ));
                }
                let entry = &mut self.entries[i];
                let value = &mut entry.1;
                Some(value)
            },
            None => None,
        }
    }

    /// Removes `key` and returns its value.
    pub fn remove(&mut self, key: &str) -> (removed: Option<V>)
        requires
            old(self).wf(),
        ensures
            final(self).wf(),
            final(self)@ == without(old(self)@, key@),
            removed == lookup(old(self)@, key@),
    {
        proof {
            lookup_after_without(self@, key@, key@);
        }
        let ghost before = self@;
        match self.position(key) {
            Some(i) => {
                proof {
                    index_is_unique(self@, key@, i as int);
                }
                let taken = self.entries.remove(i);
                assert(taken.1 == before[i as int].1);
                assert(self@ =~= without(before, key@));
                Some(taken.1)
            },
            None => None,
        }
    }

    /// Removes the oldest entry.
    pub fn drop_oldest(&mut self)
        requires
            old(self).wf(),
            old(self)@.len() > 0,
        ensures
            final(self).wf(),
            final(self)@ == old(self)@.drop_first(),
    {
        let ghost before = self@;
        let taken = self.entries.remove(0);
        assert(self@ =~= before.drop_first());
        assert forall|i: int, j: int|
            0 <= i < self@.len() && 0 <= j < self@.len() && i != j implies (#[trigger] self@[i]).0
            != (#[trigger] self@[j]).0 by {
            assert(before[i + 1].0 != before[j + 1].0);
        }
    }
}

/// A value that is stored under a key that is there takes the place of the old one; under a new key
/// it goes to the end. Nothing else moves.
pub proof fn stored_values_keep_their_place<V>(
    s: Seq<(Seq<char>, V)>,
    key: Seq<char>,
    value: V,
    i: int,
)
    requires
        distinct_keys(s),
    ensures
        key_at(s, key, i) ==> with(s, key, value) == s.update(i, (key, value)),
        !has_key(s, key) ==> with(s, key, value) == s.push((key, value)),
        key_at(s, key, i) ==> without(s, key) == s.remove(i),
        !has_key(s, key) ==> without(s, key) == s,
{
    if key_at(s, key, i) {
        index_is_unique(s, key, i);
    }
}

/// What is looked up under a key is the value of its entry, and there is none without an entry.
pub proof fn lookups_find_entries<V>(s: Seq<(Seq<char>, V)>, key: Seq<char>, i: int)
    requires
        distinct_keys(s),
    ensures
        0 <= i < s.len() && s[i].0 == key ==> lookup(s, key) == Some(s[i].1),
        (forall|j: int| 0 <= j < s.len() ==> (#[trigger] s[j]).0 != key) ==> lookup(s, key) is None,
{
    if 0 <= i < s.len() && s[i].0 == key {
        assert(key_at(s, key, i));
        index_is_unique(s, key, i);
    }
}

} // verus!
