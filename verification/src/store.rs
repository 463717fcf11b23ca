//! An in-memory model of the durable status store: a key-value store whose
//! writes fully replace the prior value and reset its time-to-live.
//!
//! The real store is a remote service and may be unreachable; the model
//! carries an availability switch so that callers' behaviour under store
//! failure can be exercised: while the store is unavailable every operation
//! fails and nothing is written.

use vstd::prelude::*;

verus! {

/// What the store holds under one key: the status string and the
/// time-to-live the last write set.
#[verifier::ext_equal]
pub struct StoredValue {
    pub status: Seq<char>,
    pub ttl_secs: u64,
}

/// The one failure the store can report: it cannot be reached.
#[derive(Debug)]
pub enum StoreError {
    Unavailable,
}

struct Entry {
    key: String,
    value: String,
    ttl_secs: u64,
}

/// Mathematical model of the store: the key-value map and the availability
/// switch.
#[verifier::ext_equal]
pub struct StoreView {
    pub map: Map<Seq<char>, StoredValue>,
    pub available: bool,
}

/// The in-memory store.
pub struct MemStore {
    entries: Vec<Entry>,
    available: bool,
}

impl Entry {
    spec fn key_view(&self) -> Seq<char> {
        self.key@
    }

    spec fn value_view(&self) -> StoredValue {
        StoredValue { status: self.value@, ttl_secs: self.ttl_secs }
    }
}

impl View for MemStore {
    type V = StoreView;

    closed spec fn view(&self) -> StoreView {
        StoreView { map: entries_map(self.entries@), available: self.available }
    }
}

spec fn entries_map(s: Seq<Entry>) -> Map<Seq<char>, StoredValue>
    decreases s.len(),
{
    if s.len() == 0 {
        Map::empty()
    } else {
        entries_map(s.drop_last()).insert(s.last().key_view(), s.last().value_view())
    }
}

/// No two entries share a key.
spec fn keys_unique(s: Seq<Entry>) -> bool {
    forall|i: int, j: int|
        0 <= i < j < s.len() ==> (#[trigger] s[i].key_view()) != (#[trigger] s[j].key_view())
}

proof fn lemma_entries_map_found(s: Seq<Entry>, i: int)
    requires
        keys_unique(s),
        0 <= i < s.len(),
    ensures
        entries_map(s).contains_key(s[i].key_view()),
        entries_map(s)[s[i].key_view()] == s[i].value_view(),
    decreases s.len(),
{
    if i < s.len() - 1 {
        assert(s.drop_last()[i] == s[i]);
        lemma_entries_map_found(s.drop_last(), i);
    }
}

proof fn lemma_entries_map_absent(s: Seq<Entry>, k: Seq<char>)
    requires
        forall|i: int| 0 <= i < s.len() ==> (#[trigger] s[i].key_view()) != k,
    ensures
        !entries_map(s).contains_key(k),
    decreases s.len(),
{
    if s.len() > 0 {
        assert(forall|i: int|
            0 <= i < s.drop_last().len() ==> (#[trigger] s.drop_last()[i].key_view()) != k);
        lemma_entries_map_absent(s.drop_last(), k);
    }
}

proof fn lemma_entries_map_update(s: Seq<Entry>, i: int, e: Entry)
    requires
        keys_unique(s),
        0 <= i < s.len(),
        e.key_view() == s[i].key_view(),
    ensures
        entries_map(s.update(i, e)) =~= entries_map(s).insert(e.key_view(), e.value_view()),
    decreases s.len(),
{
    let t = s.update(i, e);
    if i == s.len() - 1 {
        assert(t.drop_last() =~= s.drop_last());
        assert(t.last() == e);
    } else {
        lemma_entries_map_update(s.drop_last(), i, e);
        assert(t.drop_last() =~= s.drop_last().update(i, e));
        assert(t.last() == s.last());
        assert(s.last().key_view() != e.key_view());
    }
}

impl MemStore {
    /// Keys stay pairwise distinct, so the entry list and the map agree.
    pub closed spec fn wf(&self) -> bool {
        keys_unique(self.entries@)
    }

    /// A fresh, empty, reachable store.
    pub fn new() -> (r: MemStore)
        ensures
            r.wf(),
            r@ == (StoreView { map: Map::<Seq<char>, StoredValue>::empty(), available: true }),
    {
        let r = MemStore { entries: Vec::new(), available: true };
        proof {
            assert(r@ =~= (StoreView {
                map: Map::<Seq<char>, StoredValue>::empty(),
                available: true,
            }));
        }
        r
    }

    /// Flips whether the store can be reached; the stored data is untouched.
    pub fn set_available(&mut self, available: bool)
        requires
            old(self).wf(),
        ensures
            final(self).wf(),
            final(self)@ == (StoreView { available, ..old(self)@ }),
    {
        self.available = available;
        proof {
            assert(self@ =~= (StoreView { available, ..old(self)@ }));
        }
    }

    /// Writes `value` under `key` with the given time-to-live, fully
    /// replacing any prior value.  Fails exactly when the store is
    /// unreachable, and then writes nothing.
    #[verifier::loop_isolation(false)]
    pub fn put(&mut self, key: &String, value: &String, ttl_secs: u64) -> (r: Result<
        (),
        StoreError,
    >)
        requires
            old(self).wf(),
        ensures
            final(self).wf(),
            final(self)@.available == old(self)@.available,
            r is Ok <==> old(self)@.available,
            r is Err ==> final(self)@ == old(self)@,
            r is Ok ==> final(self)@.map == old(self)@.map.insert(
                key@,
                StoredValue { status: value@, ttl_secs },
            ),
    {
        if !self.available {
            return Err(StoreError::Unavailable);
        }
        let mut i: usize = 0;
        while i < self.entries.len()
            invariant
                self == old(self),
                i <= self.entries@.len(),
                forall|j: int| 0 <= j < i ==> (#[trigger] self.entries@[j].key_view()) != key@,
            decreases self.entries@.len() - i,
        {
            if self.entries[i].key.eq(key) {
                let e = Entry { key: key.clone(), value: value.clone(), ttl_secs };
                proof {
                    lemma_entries_map_update(self.entries@, i as int, e);
                }
                self.entries[i] = e;
                proof {
                    assert(forall|j: int|
                        0 <= j < self.entries@.len() ==> (#[trigger] self.entries@[j].key_view())
                            == old(self).entries@[j].key_view());
                    assert(self@ =~= (StoreView {
                        map: old(self)@.map.insert(key@, StoredValue { status: value@, ttl_secs }),
                        available: true,
                    }));
                }
                return Ok(());
            }
            i = i + 1;
        }
        self.entries.push(Entry { key: key.clone(), value: value.clone(), ttl_secs });
        proof {
            assert(self.entries@.drop_last() =~= old(self).entries@);
            assert(self@.map =~= old(self)@.map.insert(key@, StoredValue { status: value@, ttl_secs }));
        }
        Ok(())
    }

    /// Reads the value last written under `key`, or nothing when no write
    /// for it is held.  Fails exactly when the store is unreachable.
    #[verifier::loop_isolation(false)]
    pub fn get(&self, key: &String) -> (r: Result<Option<String>, StoreError>)
        requires
            self.wf(),
        ensures
            match r {
                Ok(Some(v)) => self@.available && self@.map.contains_key(key@) && v@
                    == self@.map[key@].status,
                Ok(None) => self@.available && !self@.map.contains_key(key@),
                Err(StoreError::Unavailable) => !self@.available,
            },
    {
        if !self.available {
            return Err(StoreError::Unavailable);
        }
        let mut i: usize = 0;
        while i < self.entries.len()
            invariant
                i <= self.entries@.len(),
                forall|j: int| 0 <= j < i ==> (#[trigger] self.entries@[j].key_view()) != key@,
            decreases self.entries@.len() - i,
        {
            if self.entries[i].key.eq(key) {
                proof {
                    lemma_entries_map_found(self.entries@, i as int);
                }
                return Ok(Some(self.entries[i].value.clone()));
            }
            i = i + 1;
        }
        proof {
            lemma_entries_map_absent(self.entries@, key@);
        }
        Ok(None)
    }
}

} // verus!
