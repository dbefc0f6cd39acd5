//! Keyed entries in the order in which they were seen, and the visitor that
//! collects them: a key that comes again keeps its place and takes the new
//! value.

use vstd::prelude::*;
use vstd::std_specs::convert::FromSpecImpl;
use vstd::utf8::encode_utf8_decode_utf8;

verus! {

/// The place of the last entry under `key`, or -1 where there is none.
pub open spec fn last_index<V>(entries: Seq<(Seq<char>, V)>, key: Seq<char>) -> int
    decreases entries.len(),
{
    if entries.len() == 0 {
        -1
    } else if entries.last().0 == key {
        entries.len() - 1
    } else {
        last_index(entries.drop_last(), key)
    }
}

/// No key occurs twice.
pub open spec fn distinct_keys<V>(entries: Seq<(Seq<char>, V)>) -> bool {
    forall|i: int, j: int|
        0 <= i < j < entries.len() ==> (#[trigger] entries[i]).0 != (#[trigger] entries[j]).0
}

/// `entries` after one more entry has been seen: a new key goes to the end,
/// a key seen before keeps its place and takes the new value.
pub open spec fn upsert<V>(entries: Seq<(Seq<char>, V)>, key: Seq<char>, value: V) -> Seq<
    (Seq<char>, V),
> {
    let at = last_index(entries, key);
    if 0 <= at < entries.len() {
        entries.update(at, (key, value))
    } else {
        entries.push((key, value))
    }
}

/// The value under `key`: that of its last entry.
pub open spec fn value_of<V>(entries: Seq<(Seq<char>, V)>, key: Seq<char>) -> Option<V> {
    let at = last_index(entries, key);
    if 0 <= at < entries.len() {
        Some(entries[at].1)
    } else {
        None
    }
}

/// What a visitor holds that started from `start` and has since seen the
/// first `n` of `entries`.
pub open spec fn visited<V>(start: Seq<(Seq<char>, V)>, entries: Seq<(Seq<char>, V)>, n: nat) -> Seq<
    (Seq<char>, V),
>
    decreases n,
{
    if n == 0 || n > entries.len() {
        start
    } else {
        upsert(visited(start, entries, (n - 1) as nat), entries[n - 1].0, entries[n - 1].1)
    }
}

/// What a visitor that starts with nothing holds after all of `entries`.
pub open spec fn collected<V>(entries: Seq<(Seq<char>, V)>) -> Seq<(Seq<char>, V)> {
    visited(Seq::empty(), entries, entries.len())
}

/// Keyed entries, each key and each value by its view.
pub open spec fn entry_views<V: View>(entries: Seq<(String, V)>) -> Seq<(Seq<char>, V::V)> {
    entries.map_values(|entry: (String, V)| (entry.0@, entry.1@))
}

/// Whether two strings hold the same text.
pub fn same_text(a: &str, b: &str) -> (same: bool)
    ensures
        same == (a@ == b@),
{
    let x = a.as_bytes();
    let y = b.as_bytes();
    proof {
        encode_utf8_decode_utf8(a@);
        encode_utf8_decode_utf8(b@);
    }
    if x.len() != y.len() {
        return false;
    }
    let mut i: usize = 0;
    while i < x.len()
        invariant
            i <= x.len(),
            x.len() == y.len(),
            forall|j: int| 0 <= j < i ==> x@[j] == y@[j],
            a@ == b@ ==> x@ == y@,
        decreases x.len() - i,
    {
        if x[i] != y[i] {
            return false;
        }
        i += 1;
    }
    assert(x@ =~= y@);
    true
}

/// Entries in the order in which they were seen.
#[derive(Debug)]
pub struct KeyValueVec<K, V>(pub Vec<(K, V)>);

impl<K, V> From<KeyValueVec<K, V>> for Vec<(K, V)> {
    fn from(src: KeyValueVec<K, V>) -> (items: Self) {
        src.0
    }
}

impl<K, V> FromSpecImpl<KeyValueVec<K, V>> for Vec<(K, V)> {
    open spec fn obeys_from_spec() -> bool {
        true
    }

    open spec fn from_spec(src: KeyValueVec<K, V>) -> Self {
        src.0
    }
}

/// Collects the entries of an object while they are visited, one after the
/// other.
pub struct KeyValueVisitor<K, V> {
    pub items: Vec<(K, V)>,
}

impl<K, V> KeyValueVisitor<K, V> {
    /// A visitor that has seen nothing yet.
    pub fn new() -> (visitor: Self)
        ensures
            visitor.items@ == Seq::<(K, V)>::empty(),
    {
        KeyValueVisitor { items: Vec::new() }
    }
}

impl<V: View> KeyValueVisitor<String, V> {
    /// What has been collected, each entry by its view.
    pub open spec fn entries(&self) -> Seq<(Seq<char>, V::V)> {
        entry_views(self.items@)
    }

    /// Takes the next entry of the object. A key that was seen before keeps
    /// its place and takes the new value; a new key goes to the end.
    pub fn visit_entry(&mut self, key: String, value: V)
        ensures
            final(self).entries() == upsert(old(self).entries(), key@, value@),
    {
        let ghost before = self.entries();
        let mut at = self.items.len();
        assert(before.take(at as int) == before);
        while at > 0 && !same_text(self.items[at - 1].0.as_str(), key.as_str())
            invariant
                at <= self.items.len(),
                self.entries() == before,
                last_index(before, key@) == last_index(before.take(at as int), key@),
            decreases at,
        {
            assert(before.take(at as int).drop_last() == before.take(at - 1));
            at -= 1;
        }
        if at > 0 {
            self.items.set(at - 1, (key, value));
        } else {
            self.items.push((key, value));
        }
    }

    /// Takes every entry of an object, in the order of the document, and
    /// hands back what was collected.
    pub fn visit_map(self, access: Vec<(String, V)>) -> (collected: KeyValueVec<String, V>)
        ensures
            entry_views(collected.0@) == visited(
                self.entries(),
                entry_views(access@),
                access.len() as nat,
            ),
    {
        let mut visitor = self;
        let ghost start = visitor.entries();
        let ghost all = entry_views(access@);
        for entry in it: access
            invariant
                entry_views(it.seq()) == all,
                visitor.entries() == visited(start, all, it.index() as nat),
        {
            let (key, value) = entry;
            visitor.visit_entry(key, value);
        }
        KeyValueVec(visitor.items)
    }
}

/// Where the last entry under a key is, and that none follows it.
pub proof fn lemma_last_index<V>(entries: Seq<(Seq<char>, V)>, key: Seq<char>)
    ensures
        -1 <= last_index(entries, key) < entries.len(),
        last_index(entries, key) >= 0 ==> entries[last_index(entries, key)].0 == key,
        forall|i: int|
            last_index(entries, key) < i < entries.len() ==> (#[trigger] entries[i]).0 != key,
    decreases entries.len(),
{
    if entries.len() > 0 && entries.last().0 != key {
        lemma_last_index(entries.drop_last(), key);
        assert forall|i: int| last_index(entries, key) < i < entries.len() implies (
        #[trigger] entries[i]).0 != key by {
            if i < entries.len() - 1 {
                assert(entries.drop_last()[i] == entries[i]);
            }
        }
    }
}

/// Two lists with the same keys hold each key at the same place.
pub proof fn lemma_same_index<V>(a: Seq<(Seq<char>, V)>, b: Seq<(Seq<char>, V)>, key: Seq<char>)
    requires
        a.len() <= b.len(),
        forall|i: int| 0 <= i < a.len() ==> (#[trigger] a[i]).0 == b[i].0,
        forall|i: int| a.len() <= i < b.len() ==> (#[trigger] b[i]).0 != key,
    ensures
        last_index(a, key) == last_index(b, key),
    decreases b.len(),
{
    if b.len() > a.len() {
        lemma_same_index(a, b.drop_last(), key);
    } else if a.len() > 0 {
        if a.last().0 != key {
            lemma_same_index(a.drop_last(), b.drop_last(), key);
        }
    }
}

/// A visitor never holds a key twice.
pub proof fn lemma_visited_distinct<V>(
    start: Seq<(Seq<char>, V)>,
    entries: Seq<(Seq<char>, V)>,
    n: nat,
)
    requires
        distinct_keys(start),
    ensures
        distinct_keys(visited(start, entries, n)),
    decreases n,
{
    if !(n == 0 || n > entries.len()) {
        let before = visited(start, entries, (n - 1) as nat);
        lemma_visited_distinct(start, entries, (n - 1) as nat);
        lemma_last_index(before, entries[n - 1].0);
    }
}

/// Under every key a visitor holds the last value that it has seen for it.
pub proof fn lemma_visited_last_wins<V>(
    start: Seq<(Seq<char>, V)>,
    entries: Seq<(Seq<char>, V)>,
    n: nat,
    key: Seq<char>,
)
    requires
        n <= entries.len(),
    ensures
        value_of(visited(start, entries, n), key) == if value_of(entries.take(n as int), key)
            is Some {
            value_of(entries.take(n as int), key)
        } else {
            value_of(start, key)
        },
    decreases n,
{
    if n > 0 {
        let before = visited(start, entries, (n - 1) as nat);
        let entry = entries[n - 1];
        let after = upsert(before, entry.0, entry.1);
        let seen = entries.take(n as int);
        lemma_visited_last_wins(start, entries, (n - 1) as nat, key);
        assert(seen.drop_last() == entries.take(n - 1));
        assert(seen.last() == entry);
        lemma_last_index(before, entry.0);
        lemma_last_index(before, key);
        lemma_last_index(seen.drop_last(), key);
        let at = last_index(before, entry.0);
        if at >= 0 {
            lemma_same_index(before, after, key);
        } else {
            assert(after.drop_last() == before);
        }
    } else {
        assert(entries.take(0).len() == 0);
    }
}

/// Where no key occurs twice, a visitor keeps every entry as it came and in
/// the order in which it came.
pub proof fn lemma_visited_keeps_order<V>(entries: Seq<(Seq<char>, V)>, n: nat)
    requires
        distinct_keys(entries),
        n <= entries.len(),
    ensures
        visited(Seq::empty(), entries, n) == entries.take(n as int),
    decreases n,
{
    if n > 0 {
        lemma_visited_keeps_order(entries, (n - 1) as nat);
        let before = entries.take(n - 1);
        lemma_last_index(before, entries[n - 1].0);
        if last_index(before, entries[n - 1].0) >= 0 {
            let at = last_index(before, entries[n - 1].0);
            assert(before[at] == entries[at]);
        }
        assert(before.push(entries[n - 1]) == entries.take(n as int));
    } else {
        assert(entries.take(0) == Seq::<(Seq<char>, V)>::empty());
    }
}

/// What holds of every value that a visitor started with, and of every value
/// that it has seen, holds of every value that it holds.
pub proof fn lemma_visited_values<V>(
    start: Seq<(Seq<char>, V)>,
    entries: Seq<(Seq<char>, V)>,
    n: nat,
    holds: spec_fn(V) -> bool,
)
    requires
        forall|i: int| 0 <= i < start.len() ==> holds((#[trigger] start[i]).1),
        forall|i: int| 0 <= i < entries.len() ==> holds((#[trigger] entries[i]).1),
    ensures
        forall|i: int|
            0 <= i < visited(start, entries, n).len() ==> holds(
                (#[trigger] visited(start, entries, n)[i]).1,
            ),
    decreases n,
{
    if !(n == 0 || n > entries.len()) {
        let before = visited(start, entries, (n - 1) as nat);
        lemma_visited_values(start, entries, (n - 1) as nat, holds);
        lemma_last_index(before, entries[n - 1].0);
        assert(holds(entries[n - 1].1));
    }
}

/// What is collected holds no key twice; where the entries hold none twice,
/// it is the entries themselves, in their order.
pub proof fn lemma_collected<V>(entries: Seq<(Seq<char>, V)>)
    ensures
        distinct_keys(collected(entries)),
        distinct_keys(entries) ==> collected(entries) == entries,
        forall|key: Seq<char>| #[trigger]
            value_of(collected(entries), key) == value_of(entries, key),
{
    lemma_visited_distinct(Seq::empty(), entries, entries.len());
    assert(entries.take(entries.len() as int) == entries);
    if distinct_keys(entries) {
        lemma_visited_keeps_order(entries, entries.len());
    }
    assert forall|key: Seq<char>| #[trigger]
        value_of(collected(entries), key) == value_of(entries, key) by {
        lemma_visited_last_wins(Seq::empty(), entries, entries.len(), key);
    }
}

} // verus!
