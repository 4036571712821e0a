//! The typed cache the pipeline reads and writes: a facade over the store
//! that keys merged records by the looked-up text and reports its size.
//! The surrounding program wraps one instance in its lock and passes the
//! clock in.

use vstd::prelude::*;
use vstd::string::StringExecFns;
use crate::kv_store::{CacheError, KvStore};
use crate::record::IpInfo;
use crate::{ENTRY_TTL_SECS, MAX_MEMORY_BYTES};

verus! {

/// The record cache of the service.
pub struct IpCache {
    store: KvStore,
}

impl IpCache {
    pub closed spec fn store_view(self) -> KvStore {
        self.store
    }

    pub open spec fn wf(self) -> bool {
        self.store_view().wf()
    }

    /// An empty cache.
    pub fn new(now: u64) -> (r: Self)
        ensures
            r.wf(),
            r.store_view().map_view() == Map::<Seq<char>, crate::record::EntryView>::empty(),
    {
        IpCache { store: KvStore::new(now) }
    }

    /// A copy of the record iff the key is live at `now`.
    pub fn get(&self, ip: &str, now: u64) -> (r: Option<IpInfo>)
        requires
            self.wf(),
        ensures
            match r {
                Some(v) => self.store_view().live(ip@, now) && v.deep_view()
                    == self.store_view().map_view()[ip@].value,
                None => !self.store_view().live(ip@, now),
            },
    {
        let key = String::from_str(ip);
        self.store.get(&key, now)
    }

    /// Writes the record under the key with a fresh deadline; refused in
    /// full when it would overshoot the capacity.
    pub fn set(&mut self, ip: &str, info: IpInfo, now: u64) -> (r: Result<(), CacheError>)
        requires
            old(self).wf(),
            now + ENTRY_TTL_SECS <= u64::MAX,
        ensures
            final(self).wf(),
            r is Ok <==> old(self).store_view().set_total(ip@, info.deep_view())
                <= MAX_MEMORY_BYTES,
            r is Ok ==> final(self).store_view().map_view() == old(
                self,
            ).store_view().map_view().insert(
                ip@,
                crate::record::EntryView {
                    value: info.deep_view(),
                    expires_at: (now + ENTRY_TTL_SECS) as u64,
                    size_bytes: crate::kv_store::entry_cost(ip@, info.deep_view()) as usize,
                },
            ),
            r is Err ==> *final(self) == *old(self),
    {
        let key = String::from_str(ip);
        self.store.set(key, info, now)
    }

    /// Whether the key is live at `now`.
    pub fn contains(&self, ip: &str, now: u64) -> (r: bool)
        requires
            self.wf(),
        ensures
            r == self.store_view().live(ip@, now),
    {
        let key = String::from_str(ip);
        self.store.contains_key(&key, now)
    }

    /// Drops the key, expired or not.
    pub fn remove(&mut self, ip: &str) -> (r: Option<IpInfo>)
        requires
            old(self).wf(),
        ensures
            final(self).wf(),
            match r {
                Some(v) => {
                    &&& old(self).store_view().map_view().contains_key(ip@)
                    &&& v.deep_view() == old(self).store_view().map_view()[ip@].value
                    &&& final(self).store_view().map_view() == old(
                        self,
                    ).store_view().map_view().remove(ip@)
                },
                None => {
                    &&& !old(self).store_view().map_view().contains_key(ip@)
                    &&& *final(self) == *old(self)
                },
            },
    {
        let key = String::from_str(ip);
        self.store.remove(&key)
    }

    /// How many entries the cache holds and how many bytes they account
    /// for.
    pub fn stats(&self) -> (r: (usize, usize))
        requires
            self.wf(),
        ensures
            r.0 as nat == self.store_view().map_view().dom().len(),
            r.1 as int == self.store_view().memory_spec(),
    {
        (self.store.len(), self.store.memory_usage())
    }

    /// Removes every expired entry; returns how many went.
    pub fn sweep_expired(&mut self, now: u64) -> (r: usize)
        requires
            old(self).wf(),
        ensures
            final(self).wf(),
            final(self).store_view().map_view() == crate::kv_store::sweep_map(
                old(self).store_view().map_view(),
                now,
            ),
    {
        self.store.cleanup_expired(now)
    }

    /// Whether enough time has passed since the last snapshot.
    pub fn persist_due(&self, now: u64) -> (r: bool)
        ensures
            r == (now >= self.store_view().last_persist_spec() && now - self.store_view(
            ).last_persist_spec() >= crate::PERSIST_INTERVAL_SECS),
    {
        self.store.persist_due(now)
    }

    /// The bytes of a whole snapshot, for the surrounding program to write
    /// to disk atomically.
    pub fn snapshot(&self, created_at: u64) -> (out: Vec<u8>)
        requires
            self.wf(),
        ensures
            out@ == crate::codec::enc_snapshot(self.store_view().entries_view(), created_at),
    {
        self.store.snapshot(created_at)
    }

    /// Records that a snapshot was written at `now`.
    pub fn mark_persisted(&mut self, now: u64)
        requires
            old(self).wf(),
        ensures
            final(self).wf(),
            final(self).store_view().map_view() == old(self).store_view().map_view(),
            final(self).store_view().last_persist_spec() == now,
    {
        self.store.mark_persisted(now)
    }

    /// Replaces the cache's contents with a snapshot's unexpired entries.
    pub fn restore(&mut self, bytes: &Vec<u8>, now: u64) -> (r: Result<(), CacheError>)
        requires
            old(self).wf(),
        ensures
            final(self).wf(),
            r is Ok ==> final(self).store_view().map_view() == crate::kv_store::sweep_map(
                crate::kv_store::map_of(crate::decode::dec_snapshot_entries(bytes@)),
                now,
            ),
            r is Err ==> *final(self) == *old(self),
    {
        self.store.restore(bytes, now)
    }
}

} // verus!
