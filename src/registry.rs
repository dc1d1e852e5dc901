//! Bounded, insertion-ordered registry of pending segment requests.
use vstd::multiset::Multiset;
use vstd::prelude::*;

verus! {

/// Keys of a sequence of entries, in order.
pub open spec fn keys_of<S>(entries: Seq<(String, S)>) -> Seq<Seq<char>> {
    entries.map_values(|e: (String, S)| e.0@)
}

/// Reply sinks of a sequence of entries, in order.
pub open spec fn sinks_of<S>(entries: Seq<(String, S)>) -> Seq<S> {
    entries.map_values(|e: (String, S)| e.1)
}

/// No key occurs twice.
pub open spec fn keys_unique<S>(entries: Seq<(String, S)>) -> bool {
    forall|i: int, j: int|
        0 <= i < entries.len() && 0 <= j < entries.len() && i != j ==> entries[i].0@
            != entries[j].0@
}

/// Position of `key` among the entries, or -1.
pub open spec fn position_of<S>(entries: Seq<(String, S)>, key: Seq<char>) -> int {
    if exists|i: int| 0 <= i < entries.len() && entries[i].0@ == key {
        choose|i: int| 0 <= i < entries.len() && entries[i].0@ == key
    } else {
        -1
    }
}

/// Entries and displaced sink after inserting `key` with `sink`: an entry with
/// the same key leaves and its sink is displaced; otherwise, when the registry
/// would grow past `capacity`, the oldest entry leaves and its sink is displaced.
/// The new entry is always the newest.
pub open spec fn after_insert<S>(entries: Seq<(String, S)>, capacity: nat, key: String, sink: S) -> (
    Seq<(String, S)>,
    Option<S>,
) {
    let i = position_of(entries, key@);
    if i >= 0 {
        (entries.remove(i).push((key, sink)), Some(entries[i].1))
    } else if entries.len() + 1 > capacity {
        let grown = entries.push((key, sink));
        (grown.drop_first(), Some(grown[0].1))
    } else {
        (entries.push((key, sink)), None)
    }
}

/// Entries and taken sink after removing `key`.
pub open spec fn after_remove<S>(entries: Seq<(String, S)>, key: Seq<char>) -> (
    Seq<(String, S)>,
    Option<S>,
) {
    let i = position_of(entries, key);
    if i >= 0 {
        (entries.remove(i), Some(entries[i].1))
    } else {
        (entries, None)
    }
}

/// The sink in `o`, as a bag of zero or one sinks.
pub open spec fn option_bag<S>(o: Option<S>) -> Multiset<S> {
    match o {
        Some(s) => Multiset::empty().insert(s),
        None => Multiset::empty(),
    }
}

/// Inserting keeps the keys unique and never takes the registry past its
/// capacity.
pub proof fn lemma_insert_bounded<S>(entries: Seq<(String, S)>, capacity: nat, key: String, sink: S)
    requires
        keys_unique(entries),
        entries.len() <= capacity,
    ensures
        keys_unique(after_insert(entries, capacity, key, sink).0),
        after_insert(entries, capacity, key, sink).0.len() <= capacity,
{
    let i = position_of(entries, key@);
    let after = after_insert(entries, capacity, key, sink).0;
    if i >= 0 {
        let rest = entries.remove(i);
        assert(entries[i].0@ == key@);
        assert forall|a: int, b: int| 0 <= a < after.len() && 0 <= b < after.len() && a != b implies after[a].0@ != after[b].0@ by {
            if a < rest.len() && b < rest.len() {
                let ia = if a < i { a } else { a + 1 };
                let ib = if b < i { b } else { b + 1 };
                assert(after[a] == entries[ia]);
                assert(after[b] == entries[ib]);
            } else if a < rest.len() {
                let ia = if a < i { a } else { a + 1 };
                assert(after[a] == entries[ia]);
            } else if b < rest.len() {
                let ib = if b < i { b } else { b + 1 };
                assert(after[b] == entries[ib]);
            }
        }
    } else {
        assert(forall|j: int| 0 <= j < entries.len() ==> entries[j].0@ != key@);
        let grown = entries.push((key, sink));
        assert(keys_unique(grown)) by {
            assert forall|a: int, b: int| 0 <= a < grown.len() && 0 <= b < grown.len() && a != b implies grown[a].0@ != grown[b].0@ by {
                if a < entries.len() && b < entries.len() {
                } else if a < entries.len() {
                    assert(grown[b] == (key, sink));
                } else {
                    assert(grown[a] == (key, sink));
                }
            }
        }
        if entries.len() + 1 > capacity {
            assert forall|a: int, b: int| 0 <= a < after.len() && 0 <= b < after.len() && a != b implies after[a].0@ != after[b].0@ by {
                assert(after[a] == grown[a + 1]);
                assert(after[b] == grown[b + 1]);
            }
        }
    }
}

/// Inserting loses no sink: the sinks held before and the new one are exactly
/// the sinks held after and the displaced one.
pub proof fn lemma_insert_keeps_sinks<S>(entries: Seq<(String, S)>, capacity: nat, key: String, sink: S)
    ensures
        sinks_of(entries).to_multiset().insert(sink) =~= sinks_of(
            after_insert(entries, capacity, key, sink).0,
        ).to_multiset().add(option_bag(after_insert(entries, capacity, key, sink).1)),
{
    broadcast use vstd::seq_lib::group_to_multiset_ensures, vstd::multiset::group_multiset_axioms;

    let i = position_of(entries, key@);
    let (after, displaced) = after_insert(entries, capacity, key, sink);
    if i >= 0 {
        assert(sinks_of(after) =~= sinks_of(entries).remove(i).push(sink));
        assert(sinks_of(entries)[i] == entries[i].1);
    } else if entries.len() + 1 > capacity {
        let grown = entries.push((key, sink));
        assert(sinks_of(grown) =~= sinks_of(entries).push(sink));
        assert(sinks_of(after) =~= sinks_of(grown).remove(0));
        assert(sinks_of(grown)[0] == grown[0].1);
    } else {
        assert(sinks_of(after) =~= sinks_of(entries).push(sink));
    }
}

/// Removing loses no sink: the sinks held before are exactly the sinks held
/// after and the one taken out.
pub proof fn lemma_remove_keeps_sinks<S>(entries: Seq<(String, S)>, key: Seq<char>)
    ensures
        sinks_of(entries).to_multiset() =~= sinks_of(after_remove(entries, key).0).to_multiset().add(
            option_bag(after_remove(entries, key).1),
        ),
{
    broadcast use vstd::seq_lib::group_to_multiset_ensures, vstd::multiset::group_multiset_axioms;

    let i = position_of(entries, key);
    if i >= 0 {
        assert(sinks_of(entries.remove(i)) =~= sinks_of(entries).remove(i));
        assert(sinks_of(entries)[i] == entries[i].1);
    }
}

/// Inserting a request for a new key into a full registry displaces exactly
/// one entry, the oldest, and leaves the registry full.
pub proof fn lemma_overflow_evicts_oldest<S>(entries: Seq<(String, S)>, capacity: nat, key: String, sink: S)
    requires
        keys_unique(entries),
        entries.len() == capacity,
        !keys_of(entries).contains(key@),
    ensures
        after_insert(entries, capacity, key, sink).0 == entries.push((key, sink)).drop_first(),
        after_insert(entries, capacity, key, sink).1 == Some(entries.push((key, sink))[0].1),
        after_insert(entries, capacity, key, sink).0.len() == capacity,
{
    if position_of(entries, key@) >= 0 {
        let i = position_of(entries, key@);
        assert(keys_of(entries)[i] == key@);
    }
}

/// Registry contents after inserting each of `requests` in turn.
pub open spec fn insert_all<S>(entries: Seq<(String, S)>, capacity: nat, requests: Seq<(String, S)>) -> Seq<(String, S)>
    decreases requests.len(),
{
    if requests.len() == 0 {
        entries
    } else {
        let before = insert_all(entries, capacity, requests.drop_last());
        after_insert(before, capacity, requests.last().0, requests.last().1).0
    }
}

/// Whatever the requests inserted, one after another, the registry never holds
/// more than its capacity, and never two entries for one key.
pub proof fn lemma_insert_all_bounded<S>(entries: Seq<(String, S)>, capacity: nat, requests: Seq<(String, S)>)
    requires
        keys_unique(entries),
        entries.len() <= capacity,
    ensures
        keys_unique(insert_all(entries, capacity, requests)),
        insert_all(entries, capacity, requests).len() <= capacity,
    decreases requests.len(),
{
    if requests.len() > 0 {
        lemma_insert_all_bounded(entries, capacity, requests.drop_last());
        let before = insert_all(entries, capacity, requests.drop_last());
        lemma_insert_bounded(before, capacity, requests.last().0, requests.last().1);
    }
}

/// Pending requests, oldest first.
pub struct SegmentRequestCache<S> {
    requests: Vec<(String, S)>,
    capacity: usize,
}

impl<S> SegmentRequestCache<S> {
    pub closed spec fn entries(&self) -> Seq<(String, S)> {
        self.requests@
    }

    pub closed spec fn spec_capacity(&self) -> nat {
        self.capacity as nat
    }

    /// Keys are unique and there are never more entries than the capacity.
    pub open spec fn wf(&self) -> bool {
        &&& keys_unique(self.entries())
        &&& self.entries().len() <= self.spec_capacity()
    }

    /// An empty registry holding at most `capacity` requests.
    pub fn new(capacity: usize) -> (r: Self)
        ensures
            r.wf(),
            r.entries() == Seq::<(String, S)>::empty(),
            r.spec_capacity() == capacity,
    {
        SegmentRequestCache { requests: Vec::new(), capacity }
    }

    /// Number of pending requests.
    pub fn len(&self) -> (r: usize)
        ensures
            r == self.entries().len(),
    {
        self.requests.len()
    }

    /// Most requests the registry holds at once.
    pub fn capacity(&self) -> (r: usize)
        ensures
            r == self.spec_capacity(),
    {
        self.capacity
    }

    /// Whether a request for `key` is pending.
    pub fn contains(&self, key: &str) -> (r: bool)
        requires
            self.wf(),
        ensures
            r == keys_of(self.entries()).contains(key@),
    {
        let owned = key.to_owned();
        let found = self.find(&owned);
        proof {
            if keys_of(self.entries()).contains(key@) {
                let j = choose|j: int| 0 <= j < keys_of(self.entries()).len() && keys_of(self.entries())[j] == key@;
                assert(self.entries()[j].0@ == key@);
            }
            if found.is_some() {
                let i = found.unwrap() as int;
                assert(keys_of(self.entries())[i] == key@);
            }
        }
        found.is_some()
    }

    /// Empties the registry, handing back every pending sink, oldest first.
    pub fn into_sinks(self) -> (r: Vec<S>)
        ensures
            r@ == sinks_of(self.entries()),
    {
        let mut requests = self.requests;
        let ghost all = requests@;
        let mut sinks: Vec<S> = Vec::new();
        while requests.len() > 0
            invariant
                sinks_of(all) == sinks@ + sinks_of(requests@),
            decreases requests@.len(),
        {
            let ghost prev = requests@;
            let (_, sink) = requests.remove(0);
            proof {
                assert(sinks_of(prev) =~= seq![sink] + sinks_of(requests@));
                assert(sinks@.push(sink) + sinks_of(requests@) =~= sinks@ + sinks_of(prev));
            }
            sinks.push(sink);
        }
        proof {
            assert(sinks_of(requests@) =~= Seq::<S>::empty());
            assert(sinks@ + Seq::<S>::empty() =~= sinks@);
        }
        sinks
    }

    /// Index of the entry for `key`.
    fn find(&self, key: &String) -> (r: Option<usize>)
        requires
            self.wf(),
        ensures
            match r {
                Some(i) => i < self.entries().len() && i == position_of(self.entries(), key@),
                None => position_of(self.entries(), key@) == -1,
            },
    {
        let mut i: usize = 0;
        while i < self.requests.len()
            invariant
                self.wf(),
                i <= self.requests@.len(),
                forall|j: int| 0 <= j < i ==> self.requests@[j].0@ != key@,
            decreases self.requests@.len() - i,
        {
            if self.requests[i].0 == *key {
                proof {
                    let p = position_of(self.entries(), key@);
                    assert(self.entries()[i as int].0@ == key@);
                    assert(0 <= p < self.entries().len() && self.entries()[p].0@ == key@);
                    assert(p == i);
                }
                return Some(i);
            }
            i += 1;
        }
        None
    }

    /// Records `value` as the reply sink for `key`. Returns the sink that had to
    /// leave, which its owner resolves with a timeout: the one this key held
    /// before, or else the oldest one when the registry was full.
    pub fn insert(&mut self, key: String, value: S) -> (displaced: Option<S>)
        requires
            old(self).wf(),
        ensures
            final(self).wf(),
            final(self).spec_capacity() == old(self).spec_capacity(),
            (final(self).entries(), displaced) == after_insert(
                old(self).entries(),
                old(self).spec_capacity(),
                key,
                value,
            ),
    {
        let ghost before = self.entries();
        let mut displaced: Option<S> = None;
        match self.find(&key) {
            Some(i) => {
                let (_, previous) = self.requests.remove(i);
                displaced = Some(previous);
            },
            None => {},
        }
        let ghost mid = self.entries();
        self.requests.push((key, value));
        if self.requests.len() > self.capacity {
            let (_, oldest) = self.requests.remove(0);
            displaced = Some(oldest);
        }
        proof {
            let grown = mid.push((key, value));
            assert forall|a: int, b: int|
                0 <= a < self.entries().len() && 0 <= b < self.entries().len() && a != b
                implies self.entries()[a].0@ != self.entries()[b].0@ by {
                if position_of(before, key@) >= 0 {
                    assert(mid == before.remove(position_of(before, key@)));
                }
            }
            if position_of(before, key@) < 0 && before.len() + 1 > self.capacity {
                assert(self.entries() =~= grown.drop_first());
            }
        }
        displaced
    }

    /// Takes the entry for `key`, if any, out of the registry.
    pub fn remove(&mut self, key: &str) -> (r: Option<S>)
        requires
            old(self).wf(),
        ensures
            final(self).wf(),
            final(self).spec_capacity() == old(self).spec_capacity(),
            (final(self).entries(), r) == after_remove(old(self).entries(), key@),
    {
        let owned = key.to_owned();
        match self.find(&owned) {
            Some(i) => {
                let (_, sink) = self.requests.remove(i);
                Some(sink)
            },
            None => None,
        }
    }
}

} // verus!
