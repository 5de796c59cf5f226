//! The per-frame temporal cache: a time-ordered history of transform
//! records with bounded retention, out-of-order insertion, pruning, and
//! point-in-time lookup.
//!
//! Records are kept in non-increasing timestamp order; the record at index 0
//! is the newest. A lookup either hits a stored record exactly or names the
//! adjacent pair to interpolate between; the numeric blend itself is the
//! caller's business, so a lookup returns a [`CacheRead`] rather than a
//! finished record.

use vstd::prelude::*;

use crate::error::TF2Error;
use crate::transform_storage::{CompactFrameID, TransformStorage};

verus! {

/// Retention window used when no other is given, in nanoseconds.
pub const DEFAULT_CACHE_TIME_NS: u64 = 10_000_000_000;

/// The outcome of reading a cache at a point in time.
///
/// `Exact` hands back a stored record (or, for a static frame, the stored
/// record restamped with the query time). `Interpolate` names the adjacent
/// pair whose timestamps bracket the query time strictly, with
/// `older.stamp < time < newer.stamp` and `older.frame_id == newer.frame_id`;
/// the blended record inherits both ids from `older` and carries `time` as
/// its stamp.
#[derive(Debug, Clone, Copy, PartialEq, Eq, Structural)]
pub enum CacheRead {
    Exact(TransformStorage),
    Interpolate { older: TransformStorage, newer: TransformStorage, time: u64 },
}

impl CacheRead {
    /// The timestamp the resolved record carries.
    pub open spec fn spec_stamp(self) -> u64 {
        match self {
            CacheRead::Exact(r) => r.stamp,
            CacheRead::Interpolate { time, .. } => time,
        }
    }

    /// The parent-frame id the resolved record carries.
    pub open spec fn spec_frame_id(self) -> CompactFrameID {
        match self {
            CacheRead::Exact(r) => r.frame_id,
            CacheRead::Interpolate { older, .. } => older.frame_id,
        }
    }

    /// The child-frame id the resolved record carries.
    pub open spec fn spec_child_frame_id(self) -> CompactFrameID {
        match self {
            CacheRead::Exact(r) => r.child_frame_id,
            CacheRead::Interpolate { older, .. } => older.child_frame_id,
        }
    }

    /// The timestamp the resolved record carries.
    pub fn stamp(&self) -> (r: u64)
        ensures
            r == self.spec_stamp(),
    {
        match self {
            CacheRead::Exact(rec) => rec.stamp,
            CacheRead::Interpolate { time, .. } => *time,
        }
    }

    /// The parent-frame id the resolved record carries.
    pub fn frame_id(&self) -> (r: CompactFrameID)
        ensures
            r == self.spec_frame_id(),
    {
        match self {
            CacheRead::Exact(rec) => rec.frame_id,
            CacheRead::Interpolate { older, .. } => older.frame_id,
        }
    }

    /// The child-frame id the resolved record carries.
    pub fn child_frame_id(&self) -> (r: CompactFrameID)
        ensures
            r == self.spec_child_frame_id(),
    {
        match self {
            CacheRead::Exact(rec) => rec.child_frame_id,
            CacheRead::Interpolate { older, .. } => older.child_frame_id,
        }
    }
}

/// True when the stamps of `s` never increase from newest to oldest.
pub open spec fn stamps_descending(s: Seq<TransformStorage>) -> bool {
    forall|i: int, j: int| 0 <= i <= j < s.len() ==> s[i].stamp >= s[j].stamp
}

/// `a - b`, saturating at zero.
pub open spec fn sat_sub(a: u64, b: u64) -> u64 {
    if a >= b {
        (a - b) as u64
    } else {
        0
    }
}

/// Number of leading records of `s` whose stamp is at least `cut`.
pub open spec fn keep_len(s: Seq<TransformStorage>, cut: u64) -> int
    decreases s.len(),
{
    if s.len() == 0 {
        0
    } else if s[0].stamp >= cut {
        1 + keep_len(s.drop_first(), cut)
    } else {
        0
    }
}

/// What pruning leaves: every record older than
/// `newest.stamp - max_ns` (saturating) is dropped. On a descending
/// sequence that is a prefix.
pub open spec fn pruned(s: Seq<TransformStorage>, max_ns: u64) -> Seq<TransformStorage> {
    if s.len() == 0 {
        s
    } else {
        s.take(keep_len(s, sat_sub(s[0].stamp, max_ns)))
    }
}

/// The first index of `s` whose stamp is at most `stamp`; `s.len()` when
/// every stamp is larger. On a descending sequence this is where a record
/// with that stamp is inserted.
pub open spec fn insert_pos(s: Seq<TransformStorage>, stamp: u64) -> int
    decreases s.len(),
{
    if s.len() == 0 {
        0
    } else if s[0].stamp > stamp {
        1 + insert_pos(s.drop_first(), stamp)
    } else {
        0
    }
}

/// `keep_len` is the unique boundary: everything before it is kept,
/// and either the sequence ends there or the next record falls below `cut`.
pub proof fn lemma_keep_len_is_boundary(s: Seq<TransformStorage>, cut: u64, i: int)
    requires
        0 <= i <= s.len(),
        forall|k: int| 0 <= k < i ==> s[k].stamp >= cut,
        i == s.len() || s[i].stamp < cut,
    ensures
        keep_len(s, cut) == i,
    decreases s.len(),
{
    if s.len() > 0 {
        if i == 0 {
        } else {
            assert(s[0].stamp >= cut);
            lemma_keep_len_is_boundary(s.drop_first(), cut, i - 1);
        }
    }
}

/// `insert_pos` is the unique boundary: every stamp before it is larger,
/// and either the sequence ends there or the next stamp is not larger.
pub proof fn lemma_insert_pos_is_boundary(s: Seq<TransformStorage>, stamp: u64, i: int)
    requires
        0 <= i <= s.len(),
        forall|k: int| 0 <= k < i ==> s[k].stamp > stamp,
        i == s.len() || s[i].stamp <= stamp,
    ensures
        insert_pos(s, stamp) == i,
    decreases s.len(),
{
    if s.len() > 0 {
        if i == 0 {
        } else {
            assert(s[0].stamp > stamp);
            lemma_insert_pos_is_boundary(s.drop_first(), stamp, i - 1);
        }
    }
}

/// The stored decision of a point-in-time read, exactly as the retention
/// and extrapolation rules state it. `s` is the (descending) history,
/// newest first.
pub open spec fn lookup_spec(s: Seq<TransformStorage>, time: u64) -> Result<
    CacheRead,
    TF2Error,
> {
    if s.len() == 0 {
        Err(TF2Error::Empty)
    } else if time == 0 {
        Ok(CacheRead::Exact(s[0]))
    } else if s.len() == 1 {
        if time == s[0].stamp {
            Ok(CacheRead::Exact(s[0]))
        } else {
            Err(TF2Error::SingleExtrapolationError(time, s[0].stamp))
        }
    } else if time == s[0].stamp {
        Ok(CacheRead::Exact(s[0]))
    } else if time == s.last().stamp {
        Ok(CacheRead::Exact(s.last()))
    } else if time < s.last().stamp {
        Err(TF2Error::PastExtrapolationError(time, s.last().stamp))
    } else if time > s[0].stamp {
        Err(TF2Error::FutureExtrapolationError(time, s[0].stamp))
    } else {
        let i = insert_pos(s, time);
        if s[i].stamp == time {
            Ok(CacheRead::Exact(s[i]))
        } else if s[i - 1].frame_id == s[i].frame_id {
            Ok(CacheRead::Interpolate { older: s[i], newer: s[i - 1], time })
        } else {
            // The frame was reparented across `time`; blending across a
            // reparenting would be geometrically meaningless, so the newer
            // side is returned unchanged.
            Ok(CacheRead::Exact(s[i - 1]))
        }
    }
}

/// The parent-frame id visible at a point in time: `None` on an empty
/// cache, otherwise the parent of whatever the read resolves to.
pub open spec fn parent_lookup_spec(s: Seq<TransformStorage>, time: u64) -> Result<
    Option<CompactFrameID>,
    TF2Error,
> {
    if s.len() == 0 {
        Ok(None)
    } else {
        match lookup_spec(s, time) {
            Ok(read) => Ok(Some(read.spec_frame_id())),
            Err(e) => Err(e),
        }
    }
}

/// Per-frame time-ordered history of transform records, newest first, with
/// a fixed retention window `max_storage_time_ns`.
#[derive(Debug, Clone)]
pub struct TimeCache {
    storage: Vec<TransformStorage>,
    max_storage_time_ns: u64,
}

impl View for TimeCache {
    type V = Seq<TransformStorage>;

    closed spec fn view(&self) -> Seq<TransformStorage> {
        self.storage@
    }
}

impl TimeCache {
    /// The invariant of the history: stamps never increase.
    pub open spec fn wf(&self) -> bool {
        stamps_descending(self@)
    }

    /// The retention window this cache was built with.
    pub closed spec fn spec_max_history(&self) -> u64 {
        self.max_storage_time_ns
    }

    /// Builds a cache over an already-descending history.
    pub fn new(storage: Vec<TransformStorage>, max_storage_time_ns: u64) -> (r: TimeCache)
        requires
            stamps_descending(storage@),
        ensures
            r@ == storage@,
            r.spec_max_history() == max_storage_time_ns,
            r.wf(),
    {
        TimeCache { storage, max_storage_time_ns }
    }

    /// The stored records, newest first.
    pub fn get_all_items(&self) -> (r: &Vec<TransformStorage>)
        ensures
            r@ == self@,
    {
        &self.storage
    }

    /// How many records are stored.
    pub fn get_list_length(&self) -> (r: usize)
        ensures
            r == self@.len(),
    {
        self.storage.len()
    }

    /// The newest stamp, `None` iff the cache is empty.
    pub fn get_latest_timestamp(&self) -> (r: Option<u64>)
        ensures
            self@.len() == 0 ==> r is None,
            self@.len() > 0 ==> r == Some(self@[0].stamp),
    {
        if self.storage.len() == 0 {
            None
        } else {
            Some(self.storage[0].stamp)
        }
    }

    /// The newest stamp and the parent id it asserts, `None` iff empty.
    pub fn get_latest_timestamp_and_parent(&self) -> (r: Option<(u64, CompactFrameID)>)
        ensures
            self@.len() == 0 ==> r is None,
            self@.len() > 0 ==> r == Some((self@[0].stamp, self@[0].frame_id)),
    {
        if self.storage.len() == 0 {
            None
        } else {
            Some((self.storage[0].stamp, self.storage[0].frame_id))
        }
    }

    /// The oldest stamp, `None` iff the cache is empty.
    pub fn get_oldest_timestamp(&self) -> (r: Option<u64>)
        ensures
            self@.len() == 0 ==> r is None,
            self@.len() > 0 ==> r == Some(self@.last().stamp),
    {
        if self.storage.len() == 0 {
            None
        } else {
            Some(self.storage[self.storage.len() - 1].stamp)
        }
    }

    /// Reads the history at `time` per the retention and extrapolation
    /// rules: time 0 means the newest record; an exact stamp match is
    /// returned as stored; a time strictly between two adjacent records on
    /// the same parent names the pair to interpolate; a time outside the
    /// held interval is an extrapolation error.
    pub fn get_data(&self, time: u64) -> (r: Result<CacheRead, TF2Error>)
        requires
            self.wf(),
        ensures
            r == lookup_spec(self@, time),
    {
        let n = self.storage.len();
        if n == 0 {
            return Err(TF2Error::Empty);
        }
        if time == 0 {
            return Ok(CacheRead::Exact(self.storage[0]));
        }
        if n == 1 {
            let held = self.storage[0];
            if time == held.stamp {
                return Ok(CacheRead::Exact(held));
            } else {
                return Err(TF2Error::SingleExtrapolationError(time, held.stamp));
            }
        }
        let newest = self.storage[0];
        let oldest = self.storage[n - 1];
        if time == newest.stamp {
            return Ok(CacheRead::Exact(newest));
        }
        if time == oldest.stamp {
            return Ok(CacheRead::Exact(oldest));
        }
        if time < oldest.stamp {
            return Err(TF2Error::PastExtrapolationError(time, oldest.stamp));
        }
        if time > newest.stamp {
            return Err(TF2Error::FutureExtrapolationError(time, newest.stamp));
        }
        let mut idx: usize = 0;
        while idx < n && self.storage[idx].stamp > time
            invariant
                0 <= idx <= n,
                n == self@.len(),
                forall|k: int| 0 <= k < idx ==> self@[k].stamp > time,
            decreases n - idx,
        {
            idx += 1;
        }
        proof {
            lemma_insert_pos_is_boundary(self@, time, idx as int);
            // The bounds checks above pin the position strictly inside.
            assert(self@[n - 1].stamp < time);
            assert(idx < n);
            assert(self@[0].stamp > time);
            assert(idx >= 1);
        }
        let at = self.storage[idx];
        if at.stamp == time {
            Ok(CacheRead::Exact(at))
        } else {
            let newer = self.storage[idx - 1];
            if newer.frame_id == at.frame_id {
                Ok(CacheRead::Interpolate { older: at, newer, time })
            } else {
                Ok(CacheRead::Exact(newer))
            }
        }
    }

    /// The parent-frame id visible at `time`, derived from the same read.
    pub fn get_parent(&self, time: u64) -> (r: Result<Option<CompactFrameID>, TF2Error>)
        requires
            self.wf(),
        ensures
            r == parent_lookup_spec(self@, time),
    {
        if self.storage.len() == 0 {
            return Ok(None);
        }
        match self.get_data(time) {
            Ok(read) => Ok(Some(read.frame_id())),
            Err(e) => Err(e),
        }
    }

    /// Drops every record older than `newest.stamp - max_storage_time_ns`
    /// (saturating at zero). A no-op on an empty cache.
    fn prune_list(&mut self)
        requires
            old(self).wf(),
        ensures
            final(self)@ == pruned(old(self)@, old(self).spec_max_history()),
            final(self).spec_max_history() == old(self).spec_max_history(),
            final(self).wf(),
    {
        let n = self.storage.len();
        if n == 0 {
            return;
        }
        let newest_stamp = self.storage[0].stamp;
        let cut: u64 = if newest_stamp >= self.max_storage_time_ns {
            newest_stamp - self.max_storage_time_ns
        } else {
            0
        };
        let mut idx: usize = 0;
        while idx < n && self.storage[idx].stamp >= cut
            invariant
                0 <= idx <= n,
                n == self@.len(),
                forall|k: int| 0 <= k < idx ==> self@[k].stamp >= cut,
            decreases n - idx,
        {
            idx += 1;
        }
        proof {
            lemma_keep_len_is_boundary(self@, cut, idx as int);
        }
        if idx < n {
            self.storage.truncate(idx);
        }
        proof {
            assert(final(self)@ =~= pruned(old(self)@, old(self).spec_max_history()));
        }
    }

    /// Inserts a record: first prunes stale history, then places the record
    /// by stamp (newest first; among equal stamps, before the ones already
    /// there), unless a bitwise-identical record already survives pruning.
    /// Returns true iff the record was materially added.
    ///
    /// Two retention facts come with it: a duplicate never grows the
    /// history, and when the inserted stamp lies inside the window
    /// `[newest - max_history, newest]` of the pre-insert history, the span
    /// of the stored history ends at most `max_history` wide.
    pub fn insert_data(&mut self, new_data: &TransformStorage) -> (added: bool)
        requires
            old(self).wf(),
        ensures
            final(self).wf(),
            final(self).spec_max_history() == old(self).spec_max_history(),
            added == !pruned(old(self)@, old(self).spec_max_history()).contains(*new_data),
            !added ==> final(self)@ == pruned(old(self)@, old(self).spec_max_history()),
            added ==> final(self)@ == pruned(old(self)@, old(self).spec_max_history()).insert(
                insert_pos(pruned(old(self)@, old(self).spec_max_history()), new_data.stamp),
                *new_data,
            ),
            (old(self)@.len() > 0 && sat_sub(old(self)@[0].stamp, old(self).spec_max_history())
                <= new_data.stamp <= old(self)@[0].stamp) ==> (final(self)@.len() > 0
                && final(self)@[0].stamp - final(self)@.last().stamp <= old(
                self,
            ).spec_max_history()),
    {
        let ghost pre = self@;
        let ghost max_ns = self.max_storage_time_ns;
        self.prune_list();
        let ghost p = self@;
        let n = self.storage.len();

        let mut idx: usize = 0;
        while idx < n && self.storage[idx].stamp > new_data.stamp
            invariant
                0 <= idx <= n,
                n == self@.len(),
                forall|k: int| 0 <= k < idx ==> self@[k].stamp > new_data.stamp,
            decreases n - idx,
        {
            idx += 1;
        }
        let ghost pos = idx as int;
        proof {
            lemma_insert_pos_is_boundary(self@, new_data.stamp, pos);
        }

        // Scan the run of equal-stamped records for a bitwise duplicate.
        let mut j: usize = idx;
        let mut got_match = false;
        while !got_match && j < n && self.storage[j].stamp == new_data.stamp
            invariant
                pos <= j <= n,
                n == self@.len(),
                self@ == p,
                self.wf(),
                forall|k: int| 0 <= k < pos ==> self@[k].stamp > new_data.stamp,
                pos == n || self@[pos].stamp <= new_data.stamp,
                forall|k: int| pos <= k < j ==> self@[k] != *new_data,
                got_match ==> j < n && self@[j as int] == *new_data,
            decreases n - j + (if got_match { 0int } else { 1int }),
        {
            if self.storage[j] == *new_data {
                got_match = true;
            } else {
                j += 1;
            }
        }

        if got_match {
            proof {
                assert(p.contains(*new_data));
                lemma_prune_span(pre, max_ns);
            }
            return false;
        }

        proof {
            // No duplicate anywhere: before `pos` the stamps are larger, the
            // scanned run was checked one by one, and past the scan the
            // stamps are smaller.
            assert forall|k: int| 0 <= k < p.len() implies p[k] != *new_data by {
                if k < pos {
                    assert(p[k].stamp > new_data.stamp);
                } else if k >= j {
                    if (j as int) < n {
                        assert(p[j as int].stamp <= new_data.stamp);
                        if p[j as int].stamp == new_data.stamp {
                            assert(false);
                        }
                        assert(p[k].stamp <= p[j as int].stamp);
                    }
                }
            }
            assert(!p.contains(*new_data));
        }

        self.storage.insert(idx, *new_data);
        proof {
            let q = p.insert(pos, *new_data);
            assert(final(self)@ =~= q);
            // Order is preserved around the insertion point.
            assert forall|i: int, j: int| 0 <= i <= j < q.len() implies q[i].stamp
                >= q[j].stamp by {
                if i < pos && j < pos {
                } else if i > pos && j > pos {
                    assert(q[i] == p[i - 1] && q[j] == p[j - 1]);
                } else if i == pos && j == pos {
                } else if i < pos && j == pos {
                    assert(q[i] == p[i]);
                    assert(p[i].stamp > new_data.stamp);
                } else if i < pos && j > pos {
                    assert(q[i] == p[i] && q[j] == p[j - 1]);
                } else {
                    assert(i == pos && j > pos);
                    assert(q[j] == p[j - 1]);
                    assert(j - 1 >= pos);
                    assert(p[j - 1].stamp <= new_data.stamp) by {
                        assert(p[pos].stamp <= new_data.stamp);
                        assert(stamps_descending(p));
                    }
                }
            }
            // The retention clause: after pruning every stamp lies within
            // the window, and the new stamp does too.
            if pre.len() > 0 && sat_sub(pre[0].stamp, max_ns) <= new_data.stamp <= pre[0].stamp {
                let cut = sat_sub(pre[0].stamp, max_ns);
                assert(p.len() > 0) by {
                    lemma_keep_len_in_bounds(pre, cut);
                    lemma_keep_len_pos(pre, cut);
                }
                assert forall|k: int| 0 <= k < p.len() implies cut <= #[trigger] p[k].stamp
                    <= pre[0].stamp by {
                    lemma_pruned_within(pre, max_ns, k);
                }
                assert(q[0].stamp <= pre[0].stamp);
                assert(q.last().stamp >= cut) by {
                    let l = q.len() - 1;
                    if l == pos {
                    } else if l > pos {
                        assert(q[l] == p[l - 1]);
                    } else {
                        assert(q[l] == p[l]);
                    }
                }
                assert(q[0].stamp - q.last().stamp <= max_ns);
            }
        }
        true
    }

    /// Empties the history; the retention window is kept.
    pub fn clear_list(&mut self)
        ensures
            final(self)@ == Seq::<TransformStorage>::empty(),
            final(self).spec_max_history() == old(self).spec_max_history(),
            final(self).wf(),
    {
        self.storage.clear();
    }
}

/// Every record that survives pruning has its stamp inside the retention
/// window of the pre-prune newest record.
pub proof fn lemma_pruned_within(s: Seq<TransformStorage>, max_ns: u64, k: int)
    requires
        stamps_descending(s),
        s.len() > 0,
        0 <= k < pruned(s, max_ns).len(),
    ensures
        sat_sub(s[0].stamp, max_ns) <= pruned(s, max_ns)[k].stamp <= s[0].stamp,
{
    let cut = sat_sub(s[0].stamp, max_ns);
    lemma_keep_len_in_bounds(s, cut);
    lemma_keep_len_keeps(s, cut, k);
}

/// The interpolation law: a time strictly between two adjacent records
/// that agree on the parent resolves to exactly that pair, older and newer
/// sides named, with the query time as the blend point.
pub proof fn lemma_interpolation_pair(s: Seq<TransformStorage>, time: u64, i: int)
    requires
        stamps_descending(s),
        1 <= i < s.len(),
        s[i].stamp < time < s[i - 1].stamp,
        s[i - 1].frame_id == s[i].frame_id,
    ensures
        lookup_spec(s, time) == Ok::<CacheRead, TF2Error>(
            CacheRead::Interpolate { older: s[i], newer: s[i - 1], time },
        ),
{
    lemma_bracketing_position(s, time, i);
}

/// The reparenting-protection law: a time strictly between two adjacent
/// records that disagree on the parent resolves to the newer record
/// unchanged; no blend across a reparenting is ever named.
pub proof fn lemma_reparenting_returns_newer(s: Seq<TransformStorage>, time: u64, i: int)
    requires
        stamps_descending(s),
        1 <= i < s.len(),
        s[i].stamp < time < s[i - 1].stamp,
        s[i - 1].frame_id != s[i].frame_id,
    ensures
        lookup_spec(s, time) == Ok::<CacheRead, TF2Error>(CacheRead::Exact(s[i - 1])),
{
    lemma_bracketing_position(s, time, i);
}

/// A strictly bracketing index is the insertion position, and none of the
/// early-return cases of a read applies there.
proof fn lemma_bracketing_position(s: Seq<TransformStorage>, time: u64, i: int)
    requires
        stamps_descending(s),
        1 <= i < s.len(),
        s[i].stamp < time < s[i - 1].stamp,
    ensures
        insert_pos(s, time) == i,
        s.len() >= 2,
        time != 0,
        time != s[0].stamp,
        time != s.last().stamp,
        s.last().stamp < time < s[0].stamp,
        s[insert_pos(s, time)].stamp != time,
{
    assert forall|k: int| 0 <= k < i implies s[k].stamp > time by {
        assert(s[k].stamp >= s[i - 1].stamp);
    }
    lemma_insert_pos_is_boundary(s, time, i);
    assert(s.last().stamp <= s[i].stamp);
    assert(s[0].stamp >= s[i - 1].stamp);
}

/// The extrapolation law: on a cache of at least two records, a non-zero
/// time above the newest stamp is the future-extrapolation error and one
/// below the oldest stamp the past-extrapolation error, each carrying the
/// requested time and the violated bound.
pub proof fn lemma_extrapolation_errors(s: Seq<TransformStorage>, time: u64)
    requires
        stamps_descending(s),
        s.len() >= 2,
        time != 0,
    ensures
        time > s[0].stamp ==> lookup_spec(s, time) == Err::<CacheRead, TF2Error>(
            TF2Error::FutureExtrapolationError(time, s[0].stamp),
        ),
        time < s.last().stamp ==> lookup_spec(s, time) == Err::<CacheRead, TF2Error>(
            TF2Error::PastExtrapolationError(time, s.last().stamp),
        ),
{
    assert(s.last().stamp <= s[0].stamp);
}

/// A successful read surfaces the parent id of some stored record.
pub proof fn lemma_lookup_frame_id_from(s: Seq<TransformStorage>, time: u64)
    requires
        lookup_spec(s, time) is Ok,
    ensures
        exists|k: int|
            0 <= k < s.len() && (#[trigger] s[k]).frame_id == lookup_spec(s, time).unwrap().spec_frame_id(),
{
    let read = lookup_spec(s, time).unwrap();
    if s.len() == 0 {
    } else if time == 0 {
        assert(s[0].frame_id == read.spec_frame_id());
    } else if s.len() == 1 {
        assert(s[0].frame_id == read.spec_frame_id());
    } else if time == s[0].stamp {
        assert(s[0].frame_id == read.spec_frame_id());
    } else if time == s.last().stamp {
        assert(s[s.len() - 1].frame_id == read.spec_frame_id());
    } else if time < s.last().stamp || time > s[0].stamp {
    } else {
        lemma_insert_pos_props(s, time);
        let i = insert_pos(s, time);
        assert(i >= 1) by {
            if i == 0 {
                assert(s[0].stamp <= time);
            }
        }
        assert(i < s.len()) by {
            if i == s.len() {
                assert(s[s.len() - 1].stamp > time);
            }
        }
        if s[i].stamp == time {
            assert(s[i].frame_id == read.spec_frame_id());
        } else if s[i - 1].frame_id == s[i].frame_id {
            assert(s[i].frame_id == read.spec_frame_id());
        } else {
            assert(s[i - 1].frame_id == read.spec_frame_id());
        }
    }
}

/// Pruning a non-empty descending history keeps the newest record and
/// leaves a span no wider than the retention window.
pub proof fn lemma_prune_span(s: Seq<TransformStorage>, max_ns: u64)
    requires
        stamps_descending(s),
        s.len() > 0,
    ensures
        pruned(s, max_ns).len() > 0,
        pruned(s, max_ns)[0] == s[0],
        pruned(s, max_ns)[0].stamp - pruned(s, max_ns).last().stamp <= max_ns,
{
    let cut = sat_sub(s[0].stamp, max_ns);
    lemma_keep_len_in_bounds(s, cut);
    lemma_keep_len_pos(s, cut);
    let p = pruned(s, max_ns);
    lemma_pruned_within(s, max_ns, 0);
    lemma_pruned_within(s, max_ns, p.len() - 1);
}

/// `insert_pos` lies within bounds, everything before it is strictly
/// newer, and the record at it (if any) is not.
pub proof fn lemma_insert_pos_props(s: Seq<TransformStorage>, stamp: u64)
    ensures
        0 <= insert_pos(s, stamp) <= s.len(),
        forall|k: int| 0 <= k < insert_pos(s, stamp) ==> s[k].stamp > stamp,
        insert_pos(s, stamp) < s.len() ==> s[insert_pos(s, stamp)].stamp <= stamp,
    decreases s.len(),
{
    if s.len() > 0 && s[0].stamp > stamp {
        lemma_insert_pos_props(s.drop_first(), stamp);
        let rest = s.drop_first();
        assert forall|k: int| 0 <= k < insert_pos(s, stamp) implies s[k].stamp > stamp by {
            if k > 0 {
                assert(rest[k - 1].stamp > stamp);
            }
        }
    }
}

/// A history whose newest record is at or above the cut keeps at least it.
proof fn lemma_keep_len_pos(s: Seq<TransformStorage>, cut: u64)
    requires
        s.len() > 0,
        s[0].stamp >= cut,
    ensures
        keep_len(s, cut) >= 1,
{
    lemma_keep_len_in_bounds(s.drop_first(), cut);
}

/// `keep_len` never exceeds the length.
pub proof fn lemma_keep_len_in_bounds(s: Seq<TransformStorage>, cut: u64)
    ensures
        0 <= keep_len(s, cut) <= s.len(),
    decreases s.len(),
{
    if s.len() > 0 && s[0].stamp >= cut {
        lemma_keep_len_in_bounds(s.drop_first(), cut);
    }
}

/// Everything before the `keep_len` boundary is at or above the cut.
proof fn lemma_keep_len_keeps(s: Seq<TransformStorage>, cut: u64, k: int)
    requires
        0 <= k < keep_len(s, cut),
        keep_len(s, cut) <= s.len(),
    ensures
        s[k].stamp >= cut,
    decreases s.len(),
{
    if k == 0 {
    } else {
        lemma_keep_len_in_bounds(s.drop_first(), cut);
        lemma_keep_len_keeps(s.drop_first(), cut, k - 1);
    }
}

} // verus!
