//! The degenerate cache for frames declared static: it holds exactly one
//! record whose stored stamp is ignored on read.

use vstd::prelude::*;

use crate::cache::CacheRead;
use crate::error::TF2Error;
use crate::transform_storage::{CompactFrameID, TransformStorage};

verus! {

/// Single-slot cache. A read returns the held record with the caller's
/// query time substituted for the stored stamp, so a static frame is
/// available at every time.
#[derive(Debug, Clone, Copy)]
pub struct StaticCache {
    storage: TransformStorage,
}

impl StaticCache {
    /// The record currently held.
    pub closed spec fn spec_storage(&self) -> TransformStorage {
        self.storage
    }

    /// Builds the cache around its single record.
    pub fn new(storage: TransformStorage) -> (r: StaticCache)
        ensures
            r.spec_storage() == storage,
    {
        StaticCache { storage }
    }

    /// The held record restamped with the query time.
    pub fn get_data(&self, time: u64) -> (r: Result<CacheRead, TF2Error>)
        ensures
            r == Ok::<CacheRead, TF2Error>(
                CacheRead::Exact(TransformStorage { stamp: time, ..self.spec_storage() }),
            ),
    {
        let mut data_out = self.storage;
        data_out.stamp = time;
        Ok(CacheRead::Exact(data_out))
    }

    /// Replaces the held record; always counts as added.
    pub fn insert_data(&mut self, new_data: &TransformStorage) -> (added: bool)
        ensures
            final(self).spec_storage() == *new_data,
            added,
    {
        self.storage = *new_data;
        true
    }

    /// Clearing a static frame is a no-op: its transform is declared
    /// time-invariant.
    pub fn clear_list(&mut self)
        ensures
            *final(self) == *old(self),
    {
    }

    /// The parent id of the held record, at any time.
    pub fn get_parent(&self, _time: u64) -> (r: Result<Option<CompactFrameID>, TF2Error>)
        ensures
            r == Ok::<Option<CompactFrameID>, TF2Error>(Some(self.spec_storage().frame_id)),
    {
        Ok(Some(self.storage.frame_id))
    }

    /// A static frame has no history to bound queries against.
    pub fn get_latest_timestamp(&self) -> (r: Option<u64>)
        ensures
            r is None,
    {
        None
    }

    /// Reports time 0 with the held parent, which the buffer's time-bound
    /// walks read as "available from the beginning".
    pub fn get_latest_timestamp_and_parent(&self) -> (r: Option<(u64, CompactFrameID)>)
        ensures
            r == Some((0u64, self.spec_storage().frame_id)),
    {
        Some((0, self.storage.frame_id))
    }

    /// A static frame has no history to bound queries against.
    pub fn get_oldest_timestamp(&self) -> (r: Option<u64>)
        ensures
            r is None,
    {
        None
    }

    /// A static cache always holds exactly one record.
    pub fn get_list_length(&self) -> (r: usize)
        ensures
            r == 1,
    {
        1
    }

    /// No latest stamp, paired with the held parent id.
    pub fn get_latest_time_and_parent(&self) -> (r: (Option<u64>, CompactFrameID))
        ensures
            r == (None::<u64>, self.spec_storage().frame_id),
    {
        (self.get_latest_timestamp(), self.storage.frame_id)
    }
}

} // verus!
