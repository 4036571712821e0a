//! The size-accounted, TTL-expiring key/value store at the heart of the
//! cache.  The store is modelled as a map from keys to entries; every
//! method's contract is stated over that map.  Entries become invisible the
//! moment their deadline passes, whether or not a sweep has removed them;
//! the byte counter always equals the sum of the stored entry sizes and
//! never exceeds the capacity.
//!
//! Time is a parameter: callers pass the current epoch second into every
//! time-dependent operation, and the surrounding program reads the clock.

use vstd::prelude::*;
use crate::cloning::DeepClone;
use crate::codec::{
    enc_entry_items, enc_ip_info, enc_snapshot, enc_str, enc_u64, put_ip_info, put_str, put_u64,
};
use crate::decode::{
    bounded_entries, dec_snapshot_entries, has_snapshot, lemma_snapshot_round, take_snapshot,
};
use crate::record::{Entry, EntryView, IpInfo, IpInfoView};
use crate::{ENTRY_OVERHEAD_BYTES, ENTRY_TTL_SECS, MAX_MEMORY_BYTES, PERSIST_INTERVAL_SECS};

verus! {

/// Why a store operation was refused.
#[derive(Clone, Copy, PartialEq, Eq, Structural, Debug)]
pub enum CacheError {
    /// The write would push the byte count over the capacity.
    CapacityExceeded,
    /// Persisted bytes did not decode as a snapshot.
    SerializationError,
    /// The surrounding program could not read or write the snapshot file.
    IoError,
}

/// The bytes an entry is accounted with: the encoded key and value plus a
/// fixed overhead.
pub open spec fn entry_cost(k: Seq<char>, v: IpInfoView) -> int {
    enc_str(k).len() + enc_ip_info(v).len() + ENTRY_OVERHEAD_BYTES
}

// ---------------------------------------------------------------------------
// The sequence-of-entries model and its lemmas
// ---------------------------------------------------------------------------

/// No key occurs twice.
pub open spec fn uniq_keys(s: Seq<(Seq<char>, EntryView)>) -> bool {
    forall|i: int, j: int| 0 <= i < j < s.len() ==> s[i].0 != s[j].0
}

/// The map an entry sequence denotes; later entries win.
pub open spec fn map_of(s: Seq<(Seq<char>, EntryView)>) -> Map<Seq<char>, EntryView>
    decreases s.len(),
{
    if s.len() == 0 {
        Map::empty()
    } else {
        map_of(s.drop_last()).insert(s.last().0, s.last().1)
    }
}

/// The bytes the entries account for in total.
pub open spec fn sum_sizes(s: Seq<(Seq<char>, EntryView)>) -> int
    decreases s.len(),
{
    if s.len() == 0 {
        0
    } else {
        sum_sizes(s.drop_last()) + s.last().1.size_bytes
    }
}

pub proof fn lemma_sum_nonneg(s: Seq<(Seq<char>, EntryView)>)
    ensures
        sum_sizes(s) >= 0,
    decreases s.len(),
{
    if s.len() > 0 {
        lemma_sum_nonneg(s.drop_last());
    }
}

pub proof fn lemma_map_of_contains(s: Seq<(Seq<char>, EntryView)>, k: Seq<char>)
    ensures
        map_of(s).contains_key(k) <==> exists|i: int| 0 <= i < s.len() && s[i].0 == k,
    decreases s.len(),
{
    if s.len() > 0 {
        lemma_map_of_contains(s.drop_last(), k);
        if s.last().0 == k {
            assert(s[s.len() - 1].0 == k);
        } else {
            if map_of(s).contains_key(k) {
                let i = choose|i: int| 0 <= i < s.drop_last().len() && s.drop_last()[i].0 == k;
                assert(s[i].0 == k);
            }
            if exists|i: int| 0 <= i < s.len() && s[i].0 == k {
                let i = choose|i: int| 0 <= i < s.len() && s[i].0 == k;
                assert(i < s.len() - 1);
                assert(s.drop_last()[i].0 == k);
            }
        }
    }
}

pub proof fn lemma_map_of_index(s: Seq<(Seq<char>, EntryView)>, i: int)
    requires
        uniq_keys(s),
        0 <= i < s.len(),
    ensures
        map_of(s).contains_key(s[i].0),
        map_of(s)[s[i].0] == s[i].1,
    decreases s.len(),
{
    if i == s.len() - 1 {
    } else {
        assert(s.drop_last()[i] == s[i]);
        assert(uniq_keys(s.drop_last())) by {
            assert(forall|a: int, b: int|
                0 <= a < b < s.drop_last().len() ==> s.drop_last()[a] == s[a] && s.drop_last()[b]
                    == s[b]);
        }
        lemma_map_of_index(s.drop_last(), i);
        assert(s[i].0 != s.last().0);
    }
}

pub proof fn lemma_uniq_drop_last(s: Seq<(Seq<char>, EntryView)>)
    requires
        uniq_keys(s),
        s.len() > 0,
    ensures
        uniq_keys(s.drop_last()),
        !map_of(s.drop_last()).contains_key(s.last().0),
{
    assert(forall|a: int, b: int|
        0 <= a < b < s.drop_last().len() ==> s.drop_last()[a] == s[a] && s.drop_last()[b] == s[b]);
    lemma_map_of_contains(s.drop_last(), s.last().0);
    assert forall|i: int| 0 <= i < s.drop_last().len() implies s.drop_last()[i].0 != s.last().0 by {
        assert(s.drop_last()[i] == s[i]);
        assert(s[i].0 != s[s.len() - 1].0);
    }
}

pub proof fn lemma_map_of_len(s: Seq<(Seq<char>, EntryView)>)
    requires
        uniq_keys(s),
    ensures
        map_of(s).dom().finite(),
        map_of(s).dom().len() == s.len(),
    decreases s.len(),
{
    if s.len() == 0 {
        assert(map_of(s).dom() =~= Set::<Seq<char>>::empty());
    } else {
        lemma_uniq_drop_last(s);
        lemma_map_of_len(s.drop_last());
        assert(map_of(s).dom() =~= map_of(s.drop_last()).dom().insert(s.last().0));
    }
}

/// Any single entry accounts for no more than the whole sum.
pub proof fn lemma_entry_le_sum(s: Seq<(Seq<char>, EntryView)>, i: int)
    requires
        0 <= i < s.len(),
    ensures
        s[i].1.size_bytes <= sum_sizes(s),
    decreases s.len(),
{
    lemma_sum_nonneg(s.drop_last());
    if i == s.len() - 1 {
    } else {
        assert(s.drop_last()[i] == s[i]);
        lemma_entry_le_sum(s.drop_last(), i);
    }
}

pub proof fn lemma_map_of_push(s: Seq<(Seq<char>, EntryView)>, p: (Seq<char>, EntryView))
    ensures
        map_of(s.push(p)) == map_of(s).insert(p.0, p.1),
        sum_sizes(s.push(p)) == sum_sizes(s) + p.1.size_bytes,
{
    assert(s.push(p).drop_last() =~= s);
    assert(s.push(p).last() == p);
}

pub proof fn lemma_map_of_update(s: Seq<(Seq<char>, EntryView)>, i: int, p: (Seq<char>, EntryView))
    requires
        uniq_keys(s),
        0 <= i < s.len(),
        p.0 == s[i].0,
    ensures
        uniq_keys(s.update(i, p)),
        map_of(s.update(i, p)) == map_of(s).insert(p.0, p.1),
        sum_sizes(s.update(i, p)) == sum_sizes(s) - s[i].1.size_bytes + p.1.size_bytes,
    decreases s.len(),
{
    let t = s.update(i, p);
    assert(uniq_keys(t)) by {
        assert(forall|a: int|
            0 <= a < s.len() ==> t[a].0 == s[a].0);
    }
    if i == s.len() - 1 {
        assert(t.drop_last() =~= s.drop_last());
        assert(t.last() == p);
    } else {
        lemma_uniq_drop_last(s);
        assert(t.drop_last() =~= s.drop_last().update(i, p));
        assert(t.last() == s.last());
        lemma_map_of_update(s.drop_last(), i, p);
        // the two inserts commute because the keys differ
        assert(p.0 != s.last().0);
        assert(map_of(s).insert(p.0, p.1) =~= map_of(s.drop_last()).insert(p.0, p.1).insert(
            s.last().0,
            s.last().1,
        ));
    }
}

pub proof fn lemma_sum_concat(a: Seq<(Seq<char>, EntryView)>, b: Seq<(Seq<char>, EntryView)>)
    ensures
        sum_sizes(a + b) == sum_sizes(a) + sum_sizes(b),
    decreases b.len(),
{
    if b.len() == 0 {
        assert(a + b =~= a);
    } else {
        assert((a + b).drop_last() =~= a + b.drop_last());
        assert((a + b).last() == b.last());
        lemma_sum_concat(a, b.drop_last());
    }
}

/// A prefix accounts for no more than the whole.
pub proof fn lemma_sum_take_le(s: Seq<(Seq<char>, EntryView)>, i: int)
    requires
        0 <= i <= s.len(),
    ensures
        sum_sizes(s.take(i)) <= sum_sizes(s),
{
    assert(s =~= s.take(i) + s.skip(i));
    lemma_sum_concat(s.take(i), s.skip(i));
    lemma_sum_nonneg(s.skip(i));
}

pub proof fn lemma_map_of_seq_remove(s: Seq<(Seq<char>, EntryView)>, i: int)
    requires
        uniq_keys(s),
        0 <= i < s.len(),
    ensures
        uniq_keys(s.remove(i)),
        map_of(s.remove(i)) == map_of(s).remove(s[i].0),
        sum_sizes(s.remove(i)) == sum_sizes(s) - s[i].1.size_bytes,
    decreases s.len(),
{
    let t = s.remove(i);
    assert(uniq_keys(t)) by {
        assert(forall|a: int|
            0 <= a < t.len() ==> t[a] == (if a < i {
                s[a]
            } else {
                s[a + 1]
            }));
    }
    if i == s.len() - 1 {
        assert(t =~= s.drop_last());
        lemma_uniq_drop_last(s);
        assert(map_of(s) == map_of(s.drop_last()).insert(s.last().0, s.last().1));
        assert(map_of(s).remove(s[i].0) =~= map_of(s.drop_last()));
    } else {
        lemma_uniq_drop_last(s);
        assert(t.drop_last() =~= s.drop_last().remove(i));
        assert(t.last() == s.last());
        lemma_map_of_seq_remove(s.drop_last(), i);
        assert(s.drop_last()[i] == s[i]);
        assert(s[i].0 != s.last().0);
        assert(map_of(s).remove(s[i].0) =~= map_of(s.drop_last()).remove(s[i].0).insert(
            s.last().0,
            s.last().1,
        ));
    }
}

// ---------------------------------------------------------------------------
// The expiry sweep on the model
// ---------------------------------------------------------------------------

/// The entries that survive a sweep at `now`, in their original order.
pub open spec fn sweep_seq(s: Seq<(Seq<char>, EntryView)>, now: u64) -> Seq<
    (Seq<char>, EntryView),
>
    decreases s.len(),
{
    if s.len() == 0 {
        Seq::empty()
    } else if s.last().1.expires_at > now {
        sweep_seq(s.drop_last(), now).push(s.last())
    } else {
        sweep_seq(s.drop_last(), now)
    }
}

/// The map restricted to the bindings that are still live at `now`.
pub open spec fn sweep_map(m: Map<Seq<char>, EntryView>, now: u64) -> Map<Seq<char>, EntryView> {
    Map::new(|k: Seq<char>| m.dom().contains(k) && m[k].expires_at > now, |k: Seq<char>| m[k])
}

pub proof fn lemma_sweep_props(s: Seq<(Seq<char>, EntryView)>, now: u64)
    ensures
        forall|i: int|
            0 <= i < sweep_seq(s, now).len() ==> exists|j: int|
                0 <= j < s.len() && s[j] == #[trigger] sweep_seq(s, now)[i],
        sweep_seq(s, now).len() <= s.len(),
        sum_sizes(sweep_seq(s, now)) <= sum_sizes(s),
        uniq_keys(s) ==> uniq_keys(sweep_seq(s, now)),
        uniq_keys(s) ==> map_of(sweep_seq(s, now)) == sweep_map(map_of(s), now),
    decreases s.len(),
{
    let ss = sweep_seq(s, now);
    if s.len() == 0 {
        assert(map_of(ss) =~= sweep_map(map_of(s), now));
    } else {
        let d = s.drop_last();
        let sd = sweep_seq(d, now);
        lemma_sweep_props(d, now);
        lemma_sum_nonneg(sd);
        assert forall|i: int| 0 <= i < ss.len() implies exists|j: int|
            0 <= j < s.len() && s[j] == #[trigger] ss[i] by {
            if i < sd.len() {
                let j = choose|j: int| 0 <= j < d.len() && d[j] == sd[i];
                assert(s[j] == ss[i]);
            } else {
                assert(ss[i] == s.last());
                assert(s[s.len() - 1] == ss[i]);
            }
        }
        if s.last().1.expires_at > now {
            assert(ss.drop_last() =~= sd);
            assert(ss.last() == s.last());
            assert(sum_sizes(ss) == sum_sizes(sd) + s.last().1.size_bytes);
        }
        if uniq_keys(s) {
            lemma_uniq_drop_last(s);
            assert(uniq_keys(sd));
            if s.last().1.expires_at > now {
                // the pushed key is new among the survivors
                assert forall|i: int| 0 <= i < sd.len() implies sd[i].0 != s.last().0 by {
                    let j = choose|j: int| 0 <= j < d.len() && d[j] == sd[i];
                    assert(s[j] == d[j]);
                    assert(s[j].0 != s[s.len() - 1].0);
                }
                assert(uniq_keys(ss)) by {
                    assert(forall|i: int| 0 <= i < sd.len() ==> ss[i] == sd[i]);
                    assert(ss[ss.len() - 1] == s.last());
                }
                lemma_map_of_push(sd, s.last());
                lemma_map_of_contains(d, s.last().0);
                assert(map_of(ss) =~= sweep_map(map_of(s), now));
            } else {
                lemma_map_of_contains(d, s.last().0);
                assert(map_of(ss) =~= sweep_map(map_of(s), now));
            }
        }
    }
}

// ---------------------------------------------------------------------------
// The store
// ---------------------------------------------------------------------------

/// The persistent, memory-bounded TTL store.
pub struct KvStore {
    entries: Vec<(String, Entry)>,
    current_size_bytes: usize,
    last_persist: u64,
}

/// Finds the index holding `key`, if any.
fn index_of(entries: &Vec<(String, Entry)>, key: &String) -> (r: Option<usize>)
    ensures
        match r {
            Some(i) => i < entries@.len() && entries@[i as int].0@ == key@,
            None => forall|i: int| 0 <= i < entries@.len() ==> entries@[i].0@ != key@,
        },
{
    let mut i: usize = 0;
    while i < entries.len()
        invariant
            i <= entries@.len(),
            forall|j: int| 0 <= j < i ==> entries@[j].0@ != key@,
        decreases entries@.len() - i,
    {
        if entries[i].0.eq(key) {
            return Some(i);
        }
        i = i + 1;
    }
    None
}

impl KvStore {
    /// The entries as a sequence of key/entry pairs.
    pub closed spec fn entries_view(self) -> Seq<(Seq<char>, EntryView)> {
        self.entries.deep_view()
    }

    /// The store as a map from key to entry.
    pub closed spec fn map_view(self) -> Map<Seq<char>, EntryView> {
        map_of(self.entries_view())
    }

    /// The bytes the store currently accounts for.
    pub closed spec fn memory_spec(self) -> int {
        self.current_size_bytes as int
    }

    /// The second of the last successful persist.
    pub closed spec fn last_persist_spec(self) -> u64 {
        self.last_persist
    }

    /// Well-formedness: unique keys, an exact byte counter, and the counter
    /// within the capacity.
    pub closed spec fn wf(self) -> bool {
        &&& uniq_keys(self.entries_view())
        &&& self.current_size_bytes as int == sum_sizes(self.entries_view())
        &&& self.current_size_bytes <= MAX_MEMORY_BYTES
    }

    /// A key is visible at `now`: present and not yet expired.
    pub open spec fn live(self, k: Seq<char>, now: u64) -> bool {
        self.map_view().contains_key(k) && self.map_view()[k].expires_at > now
    }

    /// Relates a pair in the entry sequence to the stored vector.
    proof fn lemma_entry_at(self, i: int)
        requires
            0 <= i < self.entries@.len(),
        ensures
            self.entries_view().len() == self.entries@.len(),
            self.entries_view()[i] == (self.entries@[i].0@, self.entries@[i].1.deep_view()),
    {
    }

    /// An empty store.
    pub fn new(now: u64) -> (s: Self)
        ensures
            s.wf(),
            s.map_view() == Map::<Seq<char>, EntryView>::empty(),
            s.memory_spec() == 0,
            s.last_persist_spec() == now,
    {
        let s = KvStore { entries: Vec::new(), current_size_bytes: 0, last_persist: now };
        proof {
            assert(s.entries_view() =~= Seq::<(Seq<char>, EntryView)>::empty());
        }
        s
    }

    /// Returns a copy of the value iff the key is live at `now`.
    pub fn get(&self, key: &String, now: u64) -> (r: Option<IpInfo>)
        requires
            self.wf(),
        ensures
            match r {
                Some(v) => self.live(key@, now) && v.deep_view() == self.map_view()[key@].value,
                None => !self.live(key@, now),
            },
    {
        match index_of(&self.entries, key) {
            Some(i) => {
                proof {
                    self.lemma_entry_at(i as int);
                    lemma_map_of_index(self.entries_view(), i as int);
                }
                let e = &self.entries[i].1;
                if e.expires_at > now {
                    Some(e.value.deep_clone())
                } else {
                    None
                }
            },
            None => {
                proof {
                    lemma_map_of_contains(self.entries_view(), key@);
                    if self.map_view().contains_key(key@) {
                        let i = choose|i: int|
                            0 <= i < self.entries_view().len() && self.entries_view()[i].0 == key@;
                        self.lemma_entry_at(i);
                    }
                }
                None
            },
        }
    }

    /// Whether the key is live at `now`, without copying the value.
    pub fn contains_key(&self, key: &String, now: u64) -> (r: bool)
        requires
            self.wf(),
        ensures
            r == self.live(key@, now),
    {
        match index_of(&self.entries, key) {
            Some(i) => {
                proof {
                    self.lemma_entry_at(i as int);
                    lemma_map_of_index(self.entries_view(), i as int);
                }
                self.entries[i].1.expires_at > now
            },
            None => {
                proof {
                    lemma_map_of_contains(self.entries_view(), key@);
                    if self.map_view().contains_key(key@) {
                        let i = choose|i: int|
                            0 <= i < self.entries_view().len() && self.entries_view()[i].0 == key@;
                        self.lemma_entry_at(i);
                    }
                }
                false
            },
        }
    }

    /// How many entries the store holds, expired ones included.
    pub fn len(&self) -> (r: usize)
        requires
            self.wf(),
        ensures
            r as nat == self.map_view().dom().len(),
    {
        proof {
            lemma_map_of_len(self.entries_view());
        }
        self.entries.len()
    }

    /// Whether the store holds no entry at all.
    pub fn is_empty(&self) -> (r: bool)
        requires
            self.wf(),
        ensures
            r == (self.map_view().dom().len() == 0),
    {
        proof {
            lemma_map_of_len(self.entries_view());
        }
        self.entries.is_empty()
    }

    /// The bytes the store currently accounts for.
    pub fn memory_usage(&self) -> (r: usize)
        ensures
            r as int == self.memory_spec(),
    {
        self.current_size_bytes
    }

    /// Whether enough time has passed since the last persist for another.
    pub fn persist_due(&self, now: u64) -> (r: bool)
        ensures
            r == (now >= self.last_persist_spec() && now - self.last_persist_spec()
                >= PERSIST_INTERVAL_SECS),
    {
        now >= self.last_persist && now - self.last_persist >= PERSIST_INTERVAL_SECS
    }

    /// Records that a snapshot was written at `now`.
    pub fn mark_persisted(&mut self, now: u64)
        requires
            old(self).wf(),
        ensures
            final(self).wf(),
            final(self).map_view() == old(self).map_view(),
            final(self).memory_spec() == old(self).memory_spec(),
            final(self).last_persist_spec() == now,
    {
        self.last_persist = now;
    }

    /// The bytes the key currently accounts for, or zero if absent.
    pub open spec fn prior_size(self, k: Seq<char>) -> int {
        if self.map_view().contains_key(k) {
            self.map_view()[k].size_bytes as int
        } else {
            0
        }
    }

    /// The byte count the store would hold after writing `k` with value
    /// view `v`.
    pub open spec fn set_total(self, k: Seq<char>, v: IpInfoView) -> int {
        self.memory_spec() - self.prior_size(k) + entry_cost(k, v)
    }

    /// Inserts or overwrites, stamping the entry with `now + TTL`; refuses
    /// the write in full if it would push the byte count over the capacity.
    pub fn set(&mut self, key: String, value: IpInfo, now: u64) -> (r: Result<(), CacheError>)
        requires
            old(self).wf(),
            now + ENTRY_TTL_SECS <= u64::MAX,
        ensures
            final(self).wf(),
            final(self).last_persist_spec() == old(self).last_persist_spec(),
            r is Ok <==> old(self).set_total(key@, value.deep_view()) <= MAX_MEMORY_BYTES,
            match r {
                Ok(()) => {
                    &&& final(self).map_view() == old(self).map_view().insert(
                        key@,
                        EntryView {
                            value: value.deep_view(),
                            expires_at: (now + ENTRY_TTL_SECS) as u64,
                            size_bytes: entry_cost(key@, value.deep_view()) as usize,
                        },
                    )
                    &&& final(self).memory_spec() == old(self).set_total(key@, value.deep_view())
                },
                Err(e) => {
                    &&& e == CacheError::CapacityExceeded
                    &&& *final(self) == *old(self)
                },
            },
    {
        let ghost cost = entry_cost(key@, value.deep_view());
        let ghost total = old(self).set_total(key@, value.deep_view());
        let idx = index_of(&self.entries, &key);
        let prior: usize = match idx {
            Some(i) => {
                proof {
                    self.lemma_entry_at(i as int);
                    lemma_map_of_index(self.entries_view(), i as int);
                    lemma_entry_le_sum(self.entries_view(), i as int);
                }
                self.entries[i].1.size_bytes
            },
            None => {
                proof {
                    lemma_map_of_contains(self.entries_view(), key@);
                    if self.map_view().contains_key(key@) {
                        let i = choose|i: int|
                            0 <= i < self.entries_view().len() && self.entries_view()[i].0 == key@;
                        self.lemma_entry_at(i);
                    }
                }
                0
            },
        };
        assert(prior as int == old(self).prior_size(key@));
        assert(prior <= self.current_size_bytes);
        let remaining = self.current_size_bytes - prior;
        let cost_exec: usize = match measure_entry(&key, &value) {
            None => {
                assert(total > MAX_MEMORY_BYTES);
                return Err(CacheError::CapacityExceeded);
            },
            Some(c) => c,
        };
        let new_total: usize = match remaining.checked_add(cost_exec) {
            None => {
                assert(total > MAX_MEMORY_BYTES);
                return Err(CacheError::CapacityExceeded);
            },
            Some(t) => t,
        };
        assert(new_total as int == total);
        if new_total > MAX_MEMORY_BYTES {
            return Err(CacheError::CapacityExceeded);
        }
        let ghost key_v = key@;
        let ghost pre = self.entries.deep_view();
        let entry = Entry { value, expires_at: now + ENTRY_TTL_SECS, size_bytes: cost_exec };
        let ghost pair = (key_v, entry.deep_view());
        match idx {
            Some(i) => {
                self.entries.set(i, (key, entry));
                proof {
                    assert(self.entries.deep_view() =~= pre.update(i as int, pair)) by {
                        assert(forall|j: int|
                            0 <= j < self.entries@.len() ==> self.entries.deep_view()[j]
                                == self.entries@[j].deep_view());
                    }
                    lemma_map_of_update(pre, i as int, pair);
                }
            },
            None => {
                self.entries.push((key, entry));
                proof {
                    assert(self.entries.deep_view() =~= pre.push(pair)) by {
                        assert(forall|j: int|
                            0 <= j < self.entries@.len() ==> self.entries.deep_view()[j]
                                == self.entries@[j].deep_view());
                    }
                    lemma_map_of_push(pre, pair);
                    assert(uniq_keys(pre.push(pair))) by {
                        assert(forall|j: int|
                            0 <= j < pre.len() ==> pre.push(pair)[j] == pre[j]);
                        assert(forall|j: int| 0 <= j < pre.len() ==> pre[j].0 != key_v);
                    }
                }
            },
        }
        self.current_size_bytes = new_total;
        Ok(())
    }

    /// Unconditionally removes the key, expired or not, and returns its
    /// value.
    pub fn remove(&mut self, key: &String) -> (r: Option<IpInfo>)
        requires
            old(self).wf(),
        ensures
            final(self).wf(),
            final(self).last_persist_spec() == old(self).last_persist_spec(),
            match r {
                Some(v) => {
                    &&& old(self).map_view().contains_key(key@)
                    &&& v.deep_view() == old(self).map_view()[key@].value
                    &&& final(self).map_view() == old(self).map_view().remove(key@)
                    &&& final(self).memory_spec() == old(self).memory_spec() - old(
                        self,
                    ).map_view()[key@].size_bytes
                },
                None => {
                    &&& !old(self).map_view().contains_key(key@)
                    &&& *final(self) == *old(self)
                },
            },
    {
        match index_of(&self.entries, key) {
            Some(i) => {
                proof {
                    self.lemma_entry_at(i as int);
                    lemma_map_of_index(self.entries_view(), i as int);
                    lemma_entry_le_sum(self.entries_view(), i as int);
                    lemma_map_of_seq_remove(self.entries_view(), i as int);
                }
                let ghost pre = self.entries.deep_view();
                let (_k, e) = self.entries.remove(i);
                proof {
                    assert(self.entries.deep_view() =~= pre.remove(i as int)) by {
                        assert(forall|j: int|
                            0 <= j < self.entries@.len() ==> self.entries.deep_view()[j]
                                == self.entries@[j].deep_view());
                    }
                }
                self.current_size_bytes = self.current_size_bytes - e.size_bytes;
                Some(e.value)
            },
            None => {
                proof {
                    lemma_map_of_contains(self.entries_view(), key@);
                    if self.map_view().contains_key(key@) {
                        let i = choose|i: int|
                            0 <= i < self.entries_view().len() && self.entries_view()[i].0 == key@;
                        self.lemma_entry_at(i);
                    }
                }
                None
            },
        }
    }

    /// Removes every entry whose deadline has passed; returns how many.
    pub fn cleanup_expired(&mut self, now: u64) -> (r: usize)
        requires
            old(self).wf(),
        ensures
            final(self).wf(),
            final(self).last_persist_spec() == old(self).last_persist_spec(),
            final(self).map_view() == sweep_map(old(self).map_view(), now),
            final(self).memory_spec() <= old(self).memory_spec(),
            r as int == old(self).map_view().dom().len() - final(self).map_view().dom().len(),
    {
        let ghost s0 = self.entries_view();
        let n = self.entries.len();
        proof {
            assert(s0.len() == n);
            lemma_map_of_len(s0);
        }
        let mut kept: Vec<(String, Entry)> = Vec::new();
        let mut kept_sum: usize = 0;
        let mut i: usize = 0;
        proof {
            assert(kept.deep_view() =~= sweep_seq(s0.take(0), now));
        }
        while i < n
            invariant
                self.wf(),
                n == self.entries@.len(),
                self.entries_view() == s0,
                self.current_size_bytes as int == sum_sizes(s0),
                i <= n,
                kept.deep_view() == sweep_seq(s0.take(i as int), now),
                kept@.len() == kept.deep_view().len(),
                kept_sum as int == sum_sizes(kept.deep_view()),
            decreases n - i,
        {
            proof {
                self.lemma_entry_at(i as int);
                let t = s0.take(i + 1);
                assert(t.drop_last() =~= s0.take(i as int));
                assert(t.last() == s0[i as int]);
                lemma_sweep_props(t, now);
                lemma_sum_take_le(s0, i + 1);
                lemma_sum_nonneg(sweep_seq(t, now));
            }
            let e = &self.entries[i];
            if e.1.expires_at > now {
                let ghost prev = kept.deep_view();
                let ghost p = s0[i as int];
                proof {
                    let t = s0.take(i + 1);
                    assert(sweep_seq(t, now) == prev.push(p));
                    assert(prev.push(p).drop_last() =~= prev);
                    assert(sum_sizes(prev.push(p)) == sum_sizes(prev) + p.1.size_bytes);
                    assert(kept_sum + p.1.size_bytes <= MAX_MEMORY_BYTES);
                }
                let ek = e.0.clone();
                let ev = e.1.deep_clone();
                let sz = ev.size_bytes;
                assert(sz == p.1.size_bytes);
                kept.push((ek, ev));
                kept_sum = kept_sum + sz;
                proof {
                    assert(kept.deep_view() =~= prev.push(p)) by {
                        assert(forall|j: int|
                            0 <= j < kept@.len() ==> kept.deep_view()[j]
                                == kept@[j].deep_view());
                    }
                }
            } else {
                proof {
                    assert(sweep_seq(s0.take(i + 1), now) =~= sweep_seq(s0.take(i as int), now));
                }
            }
            i = i + 1;
        }
        proof {
            assert(s0.take(n as int) =~= s0);
            lemma_sweep_props(s0, now);
            lemma_sum_take_le(s0, n as int);
            lemma_map_of_len(kept.deep_view());
        }
        let removed = n - kept.len();
        self.entries = kept;
        self.current_size_bytes = kept_sum;
        removed
    }
}

impl KvStore {
    /// Serialises the whole store, expired entries included, to the bytes
    /// the surrounding program writes to disk in one atomic replace.
    #[verifier::rlimit(100)]
    pub fn snapshot(&self, created_at: u64) -> (out: Vec<u8>)
        requires
            self.wf(),
        ensures
            out@ == enc_snapshot(self.entries_view(), created_at),
    {
        let ghost s0 = self.entries_view();
        let n = self.entries.len();
        proof {
            assert(s0.len() == n);
        }
        let mut out: Vec<u8> = Vec::new();
        put_u64(&mut out, created_at);
        put_u64(&mut out, n as u64);
        let mut i: usize = 0;
        while i < n
            invariant
                self.wf(),
                n == self.entries@.len(),
                self.entries_view() == s0,
                i <= n,
                out@ == enc_u64(created_at) + enc_u64(n as u64) + enc_entry_items(
                    s0.take(i as int),
                ),
            decreases n - i,
        {
            proof {
                self.lemma_entry_at(i as int);
            }
            let e = &self.entries[i];
            put_str(&mut out, &e.0);
            put_ip_info(&mut out, &e.1.value);
            put_u64(&mut out, e.1.expires_at);
            put_u64(&mut out, e.1.size_bytes as u64);
            proof {
                let t = s0.take(i + 1);
                assert(t.drop_last() =~= s0.take(i as int));
                assert(t.last() == s0[i as int]);
                assert(out@ =~= enc_u64(created_at) + enc_u64(n as u64) + enc_entry_items(
                    s0.take(i + 1),
                ));
            }
            i = i + 1;
        }
        proof {
            assert(s0.take(n as int) =~= s0);
        }
        out
    }
}


/// A sweep of a prefix accounts for no more bytes than a sweep of the
/// whole.
pub proof fn lemma_sweep_take_le(s: Seq<(Seq<char>, EntryView)>, now: u64, i: int)
    requires
        0 <= i <= s.len(),
    ensures
        sum_sizes(sweep_seq(s.take(i), now)) <= sum_sizes(sweep_seq(s, now)),
    decreases s.len(),
{
    if i == s.len() {
        assert(s.take(i) =~= s);
    } else {
        assert(s.take(i) =~= s.drop_last().take(i));
        lemma_sweep_take_le(s.drop_last(), now, i);
        if s.last().1.expires_at > now {
            assert(sweep_seq(s, now).drop_last() =~= sweep_seq(s.drop_last(), now));
            assert(sweep_seq(s, now).last() == s.last());
            assert(sum_sizes(sweep_seq(s, now)) == sum_sizes(sweep_seq(s.drop_last(), now))
                + s.last().1.size_bytes);
        }
    }
}

/// Finds an earlier occurrence of `key` among the first `n` pairs.
fn index_in_prefix(entries: &Vec<(String, Entry)>, n: usize, key: &String) -> (r: Option<usize>)
    requires
        n <= entries@.len(),
    ensures
        match r {
            Some(j) => j < n && entries@[j as int].0@ == key@,
            None => forall|j: int| 0 <= j < n ==> entries@[j].0@ != key@,
        },
{
    let mut j: usize = 0;
    while j < n
        invariant
            n <= entries@.len(),
            j <= n,
            forall|k: int| 0 <= k < j ==> entries@[k].0@ != key@,
        decreases n - j,
    {
        if entries[j].0.eq(key) {
            return Some(j);
        }
        j = j + 1;
    }
    None
}

impl KvStore {
    /// Replaces the store's contents with the entries of a snapshot,
    /// discarding the ones already expired at `now`.  The write succeeds
    /// exactly when the bytes are one complete snapshot, no key occurs
    /// twice in it, and the surviving entries fit the capacity; on any
    /// failure the store is left untouched.
    #[verifier::rlimit(100)]
    pub fn restore(&mut self, bytes: &Vec<u8>, now: u64) -> (r: Result<(), CacheError>)
        requires
            old(self).wf(),
        ensures
            final(self).wf(),
            final(self).last_persist_spec() == old(self).last_persist_spec(),
            r is Ok <==> (has_snapshot(bytes@) && uniq_keys(dec_snapshot_entries(bytes@))
                && sum_sizes(sweep_seq(dec_snapshot_entries(bytes@), now)) <= MAX_MEMORY_BYTES),
            match r {
                Ok(()) => {
                    &&& final(self).map_view() == sweep_map(
                        map_of(dec_snapshot_entries(bytes@)),
                        now,
                    )
                    &&& final(self).memory_spec() == sum_sizes(
                        sweep_seq(dec_snapshot_entries(bytes@), now),
                    )
                },
                Err(e) => {
                    &&& *final(self) == *old(self)
                    &&& (e == CacheError::SerializationError || e
                        == CacheError::CapacityExceeded)
                },
            },
    {
        let (_created_at, decoded) = match take_snapshot(bytes) {
            None => {
                return Err(CacheError::SerializationError);
            },
            Some(v) => v,
        };
        let ghost d = dec_snapshot_entries(bytes@);
        let n = decoded.len();
        proof {
            assert(decoded.deep_view() == d);
            assert(d.len() == n);
        }
        let mut kept: Vec<(String, Entry)> = Vec::new();
        let mut kept_sum: usize = 0;
        let mut i: usize = 0;
        proof {
            assert(d.take(0) =~= Seq::<(Seq<char>, EntryView)>::empty());
            assert(kept.deep_view() =~= sweep_seq(d.take(0), now));
        }
        while i < n
            invariant
                *self == *old(self),
                self.wf(),
                n == decoded@.len(),
                decoded.deep_view() == d,
                d.len() == n,
                has_snapshot(bytes@),
                d == dec_snapshot_entries(bytes@),
                i <= n,
                uniq_keys(d.take(i as int)),
                kept.deep_view() == sweep_seq(d.take(i as int), now),
                kept@.len() == kept.deep_view().len(),
                kept_sum as int == sum_sizes(sweep_seq(d.take(i as int), now)),
                kept_sum <= MAX_MEMORY_BYTES,
            decreases n - i,
        {
            proof {
                assert(decoded.deep_view()[i as int] == decoded@[i as int].deep_view());
                let t = d.take(i + 1);
                assert(t.drop_last() =~= d.take(i as int));
                assert(t.last() == d[i as int]);
            }
            let e = &decoded[i];
            match index_in_prefix(&decoded, i, &e.0) {
                Some(j) => {
                    proof {
                        assert(decoded.deep_view()[j as int] == decoded@[j as int].deep_view());
                        assert(d[j as int].0 == d[i as int].0);
                        assert(!uniq_keys(d));
                    }
                    return Err(CacheError::SerializationError);
                },
                None => {
                    proof {
                        assert forall|k: int| 0 <= k < i implies d[k].0 != d[i as int].0 by {
                            assert(decoded.deep_view()[k] == decoded@[k].deep_view());
                        }
                        assert(uniq_keys(d.take(i + 1))) by {
                            assert(forall|a: int|
                                0 <= a <= i ==> d.take(i + 1)[a] == d[a]);
                        }
                    }
                },
            }
            if e.1.expires_at > now {
                let ghost prev = kept.deep_view();
                let ghost p = d[i as int];
                proof {
                    let t = d.take(i + 1);
                    assert(sweep_seq(t, now) == prev.push(p));
                    assert(prev.push(p).drop_last() =~= prev);
                    assert(sum_sizes(prev.push(p)) == sum_sizes(prev) + p.1.size_bytes);
                }
                let sz = e.1.size_bytes;
                let new_sum = match kept_sum.checked_add(sz) {
                    None => {
                        proof {
                            lemma_sweep_take_le(d, now, i + 1);
                        }
                        return Err(CacheError::CapacityExceeded);
                    },
                    Some(t) => t,
                };
                if new_sum > MAX_MEMORY_BYTES {
                    proof {
                        lemma_sweep_take_le(d, now, i + 1);
                    }
                    return Err(CacheError::CapacityExceeded);
                }
                let ek = e.0.clone();
                let ev = e.1.deep_clone();
                kept.push((ek, ev));
                kept_sum = new_sum;
                proof {
                    assert(kept.deep_view() =~= prev.push(p)) by {
                        assert(forall|j: int|
                            0 <= j < kept@.len() ==> kept.deep_view()[j] == kept@[j].deep_view());
                    }
                }
            } else {
                proof {
                    assert(sweep_seq(d.take(i + 1), now) =~= sweep_seq(d.take(i as int), now));
                }
            }
            i = i + 1;
        }
        proof {
            assert(d.take(n as int) =~= d);
            lemma_sweep_props(d, now);
        }
        self.entries = kept;
        self.current_size_bytes = kept_sum;
        Ok(())
    }
}

/// Law: after a write that succeeded at `now`, the key is live at every
/// moment before its deadline, and a read then returns the written value.
pub proof fn lemma_write_then_read(
    pre: KvStore,
    post: KvStore,
    k: Seq<char>,
    v: IpInfoView,
    now: u64,
    t: u64,
)
    requires
        pre.wf(),
        now + ENTRY_TTL_SECS <= u64::MAX,
        post.map_view() == pre.map_view().insert(
            k,
            EntryView {
                value: v,
                expires_at: (now + ENTRY_TTL_SECS) as u64,
                size_bytes: entry_cost(k, v) as usize,
            },
        ),
        t < now + ENTRY_TTL_SECS,
    ensures
        post.live(k, t),
        post.map_view()[k].value == v,
{
}

/// Law: once an entry's deadline has passed it is invisible to reads,
/// whether or not a sweep has removed it yet.
pub proof fn lemma_expired_invisible(s: KvStore, k: Seq<char>, now: u64)
    requires
        s.map_view().contains_key(k) ==> s.map_view()[k].expires_at <= now,
    ensures
        !s.live(k, now),
{
}

/// Law: a snapshot taken by `snapshot` and fed to `restore` on any store
/// succeeds, and rebuilds exactly the entries of the snapshotted store
/// that are unexpired at load time; entries already expired then are
/// absent.
pub proof fn lemma_persist_load_round_trip(
    store: KvStore,
    created_at: u64,
    now: u64,
    bytes: Seq<u8>,
)
    requires
        store.wf(),
        bounded_entries(store.entries_view()),
        bytes == enc_snapshot(store.entries_view(), created_at),
    ensures
        has_snapshot(bytes),
        dec_snapshot_entries(bytes) == store.entries_view(),
        uniq_keys(dec_snapshot_entries(bytes)),
        sum_sizes(sweep_seq(dec_snapshot_entries(bytes), now)) <= MAX_MEMORY_BYTES,
        sweep_map(map_of(dec_snapshot_entries(bytes)), now) == sweep_map(store.map_view(), now),
{
    lemma_snapshot_round(bytes, store.entries_view(), created_at);
    lemma_sweep_props(store.entries_view(), now);
    lemma_sum_nonneg(sweep_seq(store.entries_view(), now));
}

/// Measures what an entry would be accounted with: the encoded key and
/// value plus the fixed overhead.  `None` when the sum does not fit.
fn measure_entry(key: &String, value: &IpInfo) -> (r: Option<usize>)
    ensures
        match r {
            Some(c) => c as int == entry_cost(key@, value.deep_view()),
            None => entry_cost(key@, value.deep_view()) > usize::MAX,
        },
{
    let mut kb: Vec<u8> = Vec::new();
    put_str(&mut kb, key);
    let mut vb: Vec<u8> = Vec::new();
    put_ip_info(&mut vb, value);
    proof {
        assert(kb@ =~= enc_str(key@));
        assert(vb@ =~= enc_ip_info(value.deep_view()));
    }
    match kb.len().checked_add(vb.len()) {
        None => None,
        Some(ab) => ab.checked_add(ENTRY_OVERHEAD_BYTES),
    }
}

} // verus!
