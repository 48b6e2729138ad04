//! Maps and sets keyed by text, kept in the order of their keys.
use crate::text::{chars_of, same_text};
use vstd::prelude::*;

verus! {

/// `a` comes before `b`: at the first place where they differ `a` has the smaller
/// character, or `a` ends there.
pub open spec fn precedes(a: Seq<char>, b: Seq<char>) -> bool
    decreases a.len(),
{
    if b.len() == 0 {
        false
    } else if a.len() == 0 {
        true
    } else if a[0] != b[0] {
        a[0] < b[0]
    } else {
        precedes(a.drop_first(), b.drop_first())
    }
}

pub proof fn lemma_precedes_total(a: Seq<char>, b: Seq<char>)
    ensures
        a == b || precedes(a, b) || precedes(b, a),
        !(precedes(a, b) && precedes(b, a)),
        a == b ==> !precedes(a, b),
    decreases a.len(),
{
    if a.len() > 0 && b.len() > 0 {
        lemma_precedes_total(a.drop_first(), b.drop_first());
        if a[0] == b[0] && a.drop_first() == b.drop_first() {
            assert(a =~= seq![a[0]] + a.drop_first());
            assert(b =~= seq![b[0]] + b.drop_first());
        }
    } else if a.len() == 0 && b.len() == 0 {
        assert(a =~= b);
    }
}

pub proof fn lemma_precedes_transitive(a: Seq<char>, b: Seq<char>, c: Seq<char>)
    requires
        precedes(a, b),
        precedes(b, c),
    ensures
        precedes(a, c),
    decreases a.len(),
{
    if a.len() > 0 && a[0] == b[0] && b[0] == c[0] {
        lemma_precedes_transitive(a.drop_first(), b.drop_first(), c.drop_first());
    }
}

/// Whether `a` comes before `b`.
pub fn comes_before(a: &str, b: &str) -> (before: bool)
    ensures
        before == precedes(a@, b@),
{
    let left = chars_of(a);
    let right = chars_of(b);
    let mut i: usize = 0;
    assert(left@.skip(0) =~= left@);
    assert(right@.skip(0) =~= right@);
    while i < left.len() && i < right.len()
        invariant
            i <= left@.len(),
            i <= right@.len(),
            left@ == a@,
            right@ == b@,
            precedes(a@, b@) == precedes(left@.skip(i as int), right@.skip(i as int)),
        decreases left@.len() - i,
    {
        assert(left@.skip(i as int).drop_first() =~= left@.skip(i + 1));
        assert(right@.skip(i as int).drop_first() =~= right@.skip(i + 1));
        if left[i] != right[i] {
            return left[i] < right[i];
        }
        i += 1;
    }
    i < right.len()
}

/// The keys stand in strictly increasing order.
pub open spec fn sorted<V>(entries: Seq<(String, V)>) -> bool {
    forall|i: int, j: int|
        0 <= i < j < entries.len() ==> precedes(
            (#[trigger] entries[i]).0@,
            (#[trigger] entries[j]).0@,
        )
}

/// The key stands at position `i`.
pub open spec fn key_at<V>(entries: Seq<(String, V)>, i: int, key: Seq<char>) -> bool {
    0 <= i < entries.len() && entries[i].0@ == key
}

/// The map that a sequence of entries writes down.
pub open spec fn entry_map<V>(entries: Seq<(String, V)>) -> Map<Seq<char>, V> {
    Map::new(
        |key: Seq<char>| exists|i: int| #[trigger] key_at(entries, i, key),
        |key: Seq<char>| entries[choose|i: int| #[trigger] key_at(entries, i, key)].1,
    )
}

proof fn lemma_unique_key<V>(entries: Seq<(String, V)>, i: int, j: int, key: Seq<char>)
    requires
        sorted(entries),
        key_at(entries, i, key),
        key_at(entries, j, key),
    ensures
        i == j,
{
    lemma_precedes_total(key, key);
    if i < j {
        assert(precedes(entries[i].0@, entries[j].0@));
    } else if j < i {
        assert(precedes(entries[j].0@, entries[i].0@));
    }
}

/// The entry at position `i` is what the map holds for its key.
pub proof fn lemma_entry<V>(entries: Seq<(String, V)>, i: int)
    requires
        sorted(entries),
        0 <= i < entries.len(),
    ensures
        entry_map(entries).contains_key(entries[i].0@),
        entry_map(entries)[entries[i].0@] == entries[i].1,
{
    let key = entries[i].0@;
    assert(key_at(entries, i, key));
    let k = choose|k: int| #[trigger] key_at(entries, k, key);
    lemma_unique_key(entries, i, k, key);
}

/// A map from text to `V`. The entries stand in the order of their keys and no
/// key stands twice, so two maps with the same content are the same value.
#[derive(Debug, PartialEq, Eq)]
pub struct TextMap<V> {
    entries: Vec<(String, V)>,
}

impl<V> View for TextMap<V> {
    type V = Map<Seq<char>, V>;

    closed spec fn view(&self) -> Map<Seq<char>, V> {
        entry_map(self.entries@)
    }
}

impl<V> TextMap<V> {
    #[verifier::type_invariant]
    spec fn in_order(self) -> bool {
        sorted(self.entries@)
    }

    pub fn new() -> (map: Self)
        ensures
            map@ == Map::<Seq<char>, V>::empty(),
    {
        let map = TextMap { entries: Vec::new() };
        assert(map@ =~= Map::<Seq<char>, V>::empty());
        map
    }

    /// The position of the first entry whose key does not come before `key`.
    fn position(&self, key: &str) -> (p: usize)
        ensures
            p <= self.entries@.len(),
            forall|i: int|
                0 <= i < p ==> precedes((#[trigger] self.entries@[i]).0@, key@),
            forall|i: int|
                p <= i < self.entries@.len() ==> (#[trigger] self.entries@[i]).0@ == key@
                    || precedes(key@, self.entries@[i].0@),
            forall|i: int|
                p < i < self.entries@.len() ==> (#[trigger] self.entries@[i]).0@ != key@,
    {
        proof {
            use_type_invariant(self);
        }
        let mut p: usize = 0;
        while p < self.entries.len() && comes_before(self.entries[p].0.as_str(), key)
            invariant
                p <= self.entries@.len(),
                forall|i: int|
                    0 <= i < p ==> precedes((#[trigger] self.entries@[i]).0@, key@),
            decreases self.entries@.len() - p,
        {
            p += 1;
        }
        proof {
            if p < self.entries@.len() {
                let here = self.entries@[p as int].0@;
                lemma_precedes_total(here, key@);
                assert forall|i: int| p < i < self.entries@.len() implies precedes(
                    key@,
                    (#[trigger] self.entries@[i]).0@,
                ) by {
                    assert(precedes(here, self.entries@[i].0@));
                    if here != key@ {
                        lemma_precedes_transitive(key@, here, self.entries@[i].0@);
                    }
                }
                assert forall|i: int| p < i < self.entries@.len() implies (
                #[trigger] self.entries@[i]).0@ != key@ by {
                    assert(precedes(key@, self.entries@[i].0@));
                    lemma_precedes_total(key@, self.entries@[i].0@);
                }
            }
        }
        p
    }

    /// What the map holds for `key`.
    pub fn get(&self, key: &str) -> (value: Option<&V>)
        ensures
            match value {
                Some(value) => self@.contains_key(key@) && *value == self@[key@],
                None => !self@.contains_key(key@),
            },
    {
        proof {
            use_type_invariant(self);
        }
        let p: usize = self.position(key);
        if p < self.entries.len() && same_text(self.entries[p].0.as_str(), key) {
            proof {
                lemma_entry(self.entries@, p as int);
            }
            Some(&self.entries[p].1)
        } else {
            proof {
                if self@.contains_key(key@) {
                    let i = choose|i: int| #[trigger] key_at(self.entries@, i, key@);
                    lemma_precedes_total(key@, key@);
                }
            }
            None
        }
    }

    pub fn contains_key(&self, key: &str) -> (found: bool)
        ensures
            found == self@.contains_key(key@),
    {
        self.get(key).is_some()
    }

    /// The map with `value` for `key`, in place of what it held for it.
    pub fn insert(self, key: &str, value: V) -> (map: Self)
        ensures
            map@ == self@.insert(key@, value),
    {
        proof {
            use_type_invariant(&self);
            lemma_precedes_total(key@, key@);
        }
        let p: usize = self.position(key);
        let ghost before = self.entries@;
        let TextMap { entries } = self;
        let mut entries = entries;
        let replaces = p < entries.len() && same_text(entries[p].0.as_str(), key);
        if replaces {
            let _replaced = entries.remove(p);
        }
        let ghost rest = entries@;
        entries.insert(p, (key.to_owned(), value));
        proof {
            let skip: int = if replaces { 1 } else { 0 };
            assert forall|i: int| 0 <= i < entries@.len() && i != p implies #[trigger] entries@[i]
                == before[if i < p { i } else { i - 1 + skip }] by {}
            assert(entries@[p as int].0@ == key@ && entries@[p as int].1 == value);
            assert(sorted(entries@)) by {
                assert forall|i: int, j: int| 0 <= i < j < entries@.len() implies precedes(
                    (#[trigger] entries@[i]).0@,
                    (#[trigger] entries@[j]).0@,
                ) by {
                    let bi = if i < p { i } else { i - 1 + skip };
                    let bj = if j < p { j } else { j - 1 + skip };
                    if i == p {
                        assert(before[bj].0@ == key@ || precedes(key@, before[bj].0@));
                    } else if j == p {
                        assert(precedes(before[bi].0@, key@));
                    } else {
                        assert(precedes(before[bi].0@, before[bj].0@));
                    }
                }
            }
            let after = entry_map(entries@);
            let wanted = entry_map(before).insert(key@, value);
            assert forall|k: Seq<char>| after.contains_key(k) == wanted.contains_key(k) by {
                if after.contains_key(k) && k != key@ {
                    let i = choose|i: int| #[trigger] key_at(entries@, i, k);
                    assert(key_at(before, if i < p { i } else { i - 1 + skip }, k));
                }
                if wanted.contains_key(k) {
                    if k == key@ {
                        assert(key_at(entries@, p as int, k));
                    } else {
                        let i = choose|i: int| #[trigger] key_at(before, i, k);
                        assert(key_at(entries@, if i < p { i } else { i + 1 - skip }, k));
                    }
                }
            }
            assert forall|k: Seq<char>| after.contains_key(k) implies after[k] == wanted[k] by {
                let i = choose|i: int| #[trigger] key_at(entries@, i, k);
                lemma_entry(entries@, i);
                if k != key@ {
                    lemma_entry(before, if i < p { i } else { i - 1 + skip });
                } else {
                    lemma_unique_key(entries@, i, p as int, k);
                }
            }
            assert(after =~= wanted);
        }
        TextMap { entries }
    }

    /// The entries, in the order of their keys.
    pub fn entries(&self) -> (entries: &Vec<(String, V)>)
        ensures
            sorted(entries@),
            entry_map(entries@) == self@,
    {
        proof {
            use_type_invariant(self);
        }
        &self.entries
    }

    /// The keys, in increasing order.
    pub fn keys(&self) -> (keys: Vec<&str>)
        ensures
            forall|i: int, j: int|
                0 <= i < j < keys@.len() ==> precedes(
                    (#[trigger] keys@[i])@,
                    (#[trigger] keys@[j])@,
                ),
            forall|key: Seq<char>| #[trigger]
                self@.contains_key(key) <==> keys@.map_values(|k: &str| k@).contains(key),
    {
        proof {
            use_type_invariant(self);
        }
        let mut keys: Vec<&str> = Vec::new();
        let mut i: usize = 0;
        while i < self.entries.len()
            invariant
                i <= self.entries@.len(),
                keys@.len() == i,
                forall|k: int| 0 <= k < i ==> (#[trigger] keys@[k])@ == self.entries@[k].0@,
            decreases self.entries@.len() - i,
        {
            keys.push(self.entries[i].0.as_str());
            i += 1;
        }
        proof {
            let names = keys@.map_values(|k: &str| k@);
            assert forall|i: int, j: int| 0 <= i < j < keys@.len() implies precedes(
                (#[trigger] keys@[i])@,
                (#[trigger] keys@[j])@,
            ) by {
                assert(precedes(self.entries@[i].0@, self.entries@[j].0@));
            }
            assert forall|key: Seq<char>| #[trigger]
                self@.contains_key(key) <==> names.contains(key) by {
                if self@.contains_key(key) {
                    let i = choose|i: int| #[trigger] key_at(self.entries@, i, key);
                    assert(names[i] == key);
                }
                if names.contains(key) {
                    let i = choose|i: int| 0 <= i < names.len() && names[i] == key;
                    assert(key_at(self.entries@, i, key));
                }
            }
        }
        keys
    }
}

impl<V: Clone> Clone for TextMap<V> {
    /// A map with the same keys, and a clone of each value.
    fn clone(&self) -> (map: Self)
        ensures
            map@.dom() == self@.dom(),
            forall|key: Seq<char>| #[trigger]
                map@.contains_key(key) ==> cloned(self@[key], map@[key]),
    {
        proof {
            use_type_invariant(self);
        }
        let mut entries: Vec<(String, V)> = Vec::new();
        let mut i: usize = 0;
        while i < self.entries.len()
            invariant
                i <= self.entries@.len(),
                entries@.len() == i,
                forall|k: int|
                    0 <= k < i ==> (#[trigger] entries@[k]).0 == self.entries@[k].0 && cloned(
                        self.entries@[k].1,
                        entries@[k].1,
                    ),
            decreases self.entries@.len() - i,
        {
            entries.push((self.entries[i].0.clone(), self.entries[i].1.clone()));
            i += 1;
        }
        proof {
            assert forall|i: int, j: int| 0 <= i < j < entries@.len() implies precedes(
                (#[trigger] entries@[i]).0@,
                (#[trigger] entries@[j]).0@,
            ) by {
                assert(precedes(self.entries@[i].0@, self.entries@[j].0@));
            }
            assert forall|key: Seq<char>| entry_map(entries@).contains_key(key)
                == self@.contains_key(key) by {
                if entry_map(entries@).contains_key(key) {
                    let i = choose|i: int| #[trigger] key_at(entries@, i, key);
                    assert(key_at(self.entries@, i, key));
                }
                if self@.contains_key(key) {
                    let i = choose|i: int| #[trigger] key_at(self.entries@, i, key);
                    assert(key_at(entries@, i, key));
                }
            }
            assert(entry_map(entries@).dom() =~= self@.dom());
            assert forall|key: Seq<char>| #[trigger]
                entry_map(entries@).contains_key(key) implies cloned(
                self@[key],
                entry_map(entries@)[key],
            ) by {
                let i = choose|i: int| #[trigger] key_at(entries@, i, key);
                lemma_entry(entries@, i);
                lemma_entry(self.entries@, i);
            }
        }
        TextMap { entries }
    }
}

} // verus!
