//! The transform buffer: a registry of named frames, one cache per frame,
//! and the graph walks that answer transform queries.
//!
//! Frames are referenced by compact integer id throughout; the cache vector
//! is indexed by id. Id 0 is the reserved root sentinel, owns no real
//! transform, and every parent pointer chain ends there. Back-edges
//! (child to parent) live inside each cached record, so "the parent of
//! frame f at time t" is always derived from the stored history, never
//! cached out-of-band.

use vstd::prelude::*;

use crate::cache::{lookup_spec, CacheRead, TimeCache};
use crate::error::TF2Error;
use crate::frame_names::{is_stripped, str_eq, strip_leading_slashes, stripped};
use crate::static_cache::StaticCache;
use crate::transform_plan::{FullLookupPlan, TransformPlan, WalkEnding};
use crate::transform_storage::{CompactFrameID, QuatBits, TransformStorage, Vec3Bits};

verus! {

/// Most hops a graph walk may take on one side before it gives up.
pub const MAX_GRAPH_DEPTH: usize = 1000;

/// Largest number of frames a buffer can hold: ids are 32-bit.
pub const MAX_FRAMES: usize = 0xFFFF_FFFF;

/// One incoming transform: the wire-level ingestion contract reduced to
/// plain values. The rotation is expected normalized; the buffer never
/// renormalizes.
#[derive(Debug, Clone, PartialEq, Eq)]
pub struct TransformInput {
    pub rotation: QuatBits,
    pub translation: Vec3Bits,
    pub stamp: u64,
    pub frame_id: String,
    pub child_frame_id: String,
}

/// The cache of one frame: either a bounded time-ordered history or the
/// single slot of a frame declared static.
#[derive(Debug, Clone)]
pub enum FrameCache {
    Temporal(TimeCache),
    Fixed(StaticCache),
}

impl FrameCache {
    /// The cache invariant: a temporal history is descending.
    pub open spec fn wf(self) -> bool {
        match self {
            FrameCache::Temporal(c) => c.wf(),
            FrameCache::Fixed(_) => true,
        }
    }

    /// Newest stamp, `None` when there is no bounded history.
    pub open spec fn spec_latest_timestamp(self) -> Option<u64> {
        match self {
            FrameCache::Temporal(c) => if c@.len() == 0 {
                None
            } else {
                Some(c@[0].stamp)
            },
            FrameCache::Fixed(_) => None,
        }
    }

    /// Newest stamp and the parent it asserts. A static frame reports time
    /// 0 with its held parent, which the walks read as "available from the
    /// beginning"; an empty history reports nothing and the walks treat the
    /// frame as a root.
    pub open spec fn spec_latest_timestamp_and_parent(self) -> Option<(u64, CompactFrameID)> {
        match self {
            FrameCache::Temporal(c) => if c@.len() == 0 {
                None
            } else {
                Some((c@[0].stamp, c@[0].frame_id))
            },
            FrameCache::Fixed(c) => Some((0u64, c.spec_storage().frame_id)),
        }
    }

    /// Oldest stamp, `None` when there is no bounded history.
    pub open spec fn spec_oldest_timestamp(self) -> Option<u64> {
        match self {
            FrameCache::Temporal(c) => if c@.len() == 0 {
                None
            } else {
                Some(c@.last().stamp)
            },
            FrameCache::Fixed(_) => None,
        }
    }

    /// What reading this cache at `time` yields.
    pub open spec fn spec_lookup(self, time: u64) -> Result<CacheRead, TF2Error> {
        match self {
            FrameCache::Temporal(c) => lookup_spec(c@, time),
            FrameCache::Fixed(c) => Ok(
                CacheRead::Exact(TransformStorage { stamp: time, ..c.spec_storage() }),
            ),
        }
    }

    /// Every parent id a read of this cache can surface lies below `bound`.
    pub open spec fn parent_ids_below(self, bound: int) -> bool {
        match self {
            FrameCache::Temporal(c) => forall|k: int|
                0 <= k < c@.len() ==> (#[trigger] c@[k]).frame_id < bound,
            FrameCache::Fixed(c) => c.spec_storage().frame_id < bound,
        }
    }

    /// Newest stamp, `None` when there is no bounded history.
    pub fn get_latest_timestamp(&self) -> (r: Option<u64>)
        ensures
            r == self.spec_latest_timestamp(),
    {
        match self {
            FrameCache::Temporal(c) => c.get_latest_timestamp(),
            FrameCache::Fixed(c) => c.get_latest_timestamp(),
        }
    }

    /// Newest stamp and the parent it asserts.
    pub fn get_latest_timestamp_and_parent(&self) -> (r: Option<(u64, CompactFrameID)>)
        ensures
            r == self.spec_latest_timestamp_and_parent(),
    {
        match self {
            FrameCache::Temporal(c) => c.get_latest_timestamp_and_parent(),
            FrameCache::Fixed(c) => c.get_latest_timestamp_and_parent(),
        }
    }

    /// Oldest stamp, `None` when there is no bounded history.
    pub fn get_oldest_timestamp(&self) -> (r: Option<u64>)
        ensures
            r == self.spec_oldest_timestamp(),
    {
        match self {
            FrameCache::Temporal(c) => c.get_oldest_timestamp(),
            FrameCache::Fixed(c) => c.get_oldest_timestamp(),
        }
    }

    /// Reads the cache at `time`.
    pub fn get_data(&self, time: u64) -> (r: Result<CacheRead, TF2Error>)
        requires
            self.wf(),
        ensures
            r == self.spec_lookup(time),
    {
        match self {
            FrameCache::Temporal(c) => c.get_data(time),
            FrameCache::Fixed(c) => c.get_data(time),
        }
    }
}

/// Relates a frame cache before and after a record is routed into it: a
/// temporal history goes through prune-and-place insertion, a static slot
/// is overwritten.
pub open spec fn frame_cache_inserted(
    pre: FrameCache,
    rec: TransformStorage,
    post: FrameCache,
) -> bool {
    match pre {
        FrameCache::Temporal(c) => match post {
            FrameCache::Temporal(d) => {
                let p = crate::cache::pruned(c@, c.spec_max_history());
                &&& d.spec_max_history() == c.spec_max_history()
                &&& if p.contains(rec) {
                    d@ == p
                } else {
                    d@ == p.insert(crate::cache::insert_pos(p, rec.stamp), rec)
                }
            },
            FrameCache::Fixed(_) => false,
        },
        FrameCache::Fixed(_) => match post {
            FrameCache::Fixed(d) => d.spec_storage() == rec,
            FrameCache::Temporal(_) => false,
        },
    }
}

/// The cache a freshly interned frame receives: an empty bounded history,
/// or, for a static frame, a slot holding an identity record that points at
/// the root.
pub open spec fn fresh_cache_spec(c: FrameCache, is_static: bool, id: CompactFrameID, cache_time_ns: u64) -> bool {
    if is_static {
        match c {
            FrameCache::Fixed(sc) => sc.spec_storage() == TransformStorage::spec_identity(
                u64::MAX,
                0,
                id,
            ),
            FrameCache::Temporal(_) => false,
        }
    } else {
        match c {
            FrameCache::Temporal(tc) => tc@ == Seq::<TransformStorage>::empty()
                && tc.spec_max_history() == cache_time_ns,
            FrameCache::Fixed(_) => false,
        }
    }
}

/// The transform buffer.
///
/// `frames[id]` is the cache of the frame with that id, `id_to_frame[id]`
/// its name, and `frame_authority[id]` the producer that most recently
/// asserted its incoming edge. The three vectors grow in lockstep. The
/// buffer presents plain `&self` readers and `&mut self` writers; a caller
/// that wants many concurrent readers and writers puts the whole buffer
/// behind a readers/writer lock, which is exactly the sharing discipline
/// the query walks need, since a lookup must see one consistent snapshot.
pub struct BufferCore {
    pub frames: Vec<FrameCache>,
    pub id_to_frame: Vec<String>,
    pub frame_authority: Vec<Option<String>>,
    pub cache_time_ns: u64,
}

impl BufferCore {
    /// The registry invariant: the three vectors share one length, id 0 is
    /// the root sentinel, stored names are slash-stripped and pairwise
    /// distinct, every cache is well formed, and every parent id stored
    /// anywhere points at an existing frame.
    pub open spec fn wf(&self) -> bool {
        &&& self.id_to_frame@.len() == self.frames@.len()
        &&& self.frame_authority@.len() == self.frames@.len()
        &&& 1 <= self.frames@.len() <= MAX_FRAMES
        &&& self.id_to_frame@[0]@ == "NO_PARENT"@
        &&& forall|i: int, j: int|
            0 <= i < j < self.id_to_frame@.len() ==> (#[trigger] self.id_to_frame@[i])@ != (
            #[trigger] self.id_to_frame@[j])@
        &&& forall|i: int|
            0 <= i < self.id_to_frame@.len() ==> is_stripped((#[trigger] self.id_to_frame@[i])@)
        &&& forall|i: int| 0 <= i < self.frames@.len() ==> (#[trigger] self.frames@[i]).wf()
        &&& forall|i: int|
            0 <= i < self.frames@.len() ==> (#[trigger] self.frames@[i]).parent_ids_below(
                self.frames@.len() as int,
            )
    }

    /// True when a frame with this (already stripped) name exists.
    pub open spec fn spec_has_frame(&self, name: Seq<char>) -> bool {
        exists|i: int|
            0 <= i < self.id_to_frame@.len() && (#[trigger] self.id_to_frame@[i])@ == name
    }

    /// The id of the frame with this name; meaningful only when it exists.
    pub open spec fn spec_frame_index(&self, name: Seq<char>) -> int {
        choose|i: int|
            0 <= i < self.id_to_frame@.len() && (#[trigger] self.id_to_frame@[i])@ == name
    }

    /// Name-to-id resolution, as `lookup_frame_number` performs it.
    pub open spec fn spec_lookup_frame_number(&self, name: Seq<char>) -> Option<CompactFrameID> {
        if self.spec_has_frame(name) {
            Some(self.spec_frame_index(name) as CompactFrameID)
        } else {
            None
        }
    }

    /// A fresh buffer: only the root sentinel frame, with an identity
    /// static cache, no authority, and the given retention window for every
    /// temporal cache created later.
    pub fn new(cache_time_ns: u64) -> (r: BufferCore)
        ensures
            r.wf(),
            r.frames@.len() == 1,
            r.id_to_frame@.len() == 1,
            r.id_to_frame@[0]@ == "NO_PARENT"@,
            r.frame_authority@[0] is None,
            r.cache_time_ns == cache_time_ns,
    {
        let root = FrameCache::Fixed(StaticCache::new(TransformStorage::identity(0, 0, 0)));
        let mut frames: Vec<FrameCache> = Vec::new();
        frames.push(root);
        let mut id_to_frame: Vec<String> = Vec::new();
        id_to_frame.push("NO_PARENT".to_owned());
        let mut frame_authority: Vec<Option<String>> = Vec::new();
        frame_authority.push(None);
        let r = BufferCore { frames, id_to_frame, frame_authority, cache_time_ns };
        proof {
            reveal_strlit("NO_PARENT");
            assert(is_stripped(r.id_to_frame@[0]@));
        }
        r
    }

    /// The id of the frame with exactly this name, which is looked up as
    /// given, without slash stripping.
    pub fn lookup_frame_number(&self, frame_id: &str) -> (r: Option<CompactFrameID>)
        requires
            self.wf(),
        ensures
            r == self.spec_lookup_frame_number(frame_id@),
    {
        let n = self.id_to_frame.len();
        let mut i: usize = 0;
        while i < n
            invariant
                0 <= i <= n,
                n == self.id_to_frame@.len(),
                self.wf(),
                forall|k: int| 0 <= k < i ==> (#[trigger] self.id_to_frame@[k])@ != frame_id@,
            decreases n - i,
        {
            if str_eq(self.id_to_frame[i].as_str(), frame_id) {
                proof {
                    assert(self.spec_has_frame(frame_id@));
                    let j = self.spec_frame_index(frame_id@);
                    if j != i {
                        assert(self.id_to_frame@[j]@ != self.id_to_frame@[i as int]@);
                    }
                }
                return Some(i as CompactFrameID);
            }
            i += 1;
        }
        proof {
            if self.spec_has_frame(frame_id@) {
                let j = self.spec_frame_index(frame_id@);
                assert(self.id_to_frame@[j]@ == frame_id@);
            }
        }
        None
    }

    /// Resolves a name to an id, interning it on first mention. The name is
    /// slash-stripped first; an existing name keeps its id and its cache,
    /// whatever `is_static` says now. A new name receives the next id and a
    /// fresh cache: a bounded history, or a static slot when `is_static`.
    pub fn get_or_insert_new_frame(&mut self, frame_id: &str, is_static: bool) -> (id:
        CompactFrameID)
        requires
            old(self).wf(),
            old(self).frames@.len() < MAX_FRAMES,
        ensures
            final(self).wf(),
            final(self).cache_time_ns == old(self).cache_time_ns,
            id < final(self).frames@.len(),
            final(self).id_to_frame@[id as int]@ == stripped(frame_id@),
            old(self).spec_has_frame(stripped(frame_id@)) ==> *final(self) == *old(self) && Some(
                id,
            ) == old(self).spec_lookup_frame_number(stripped(frame_id@)),
            !old(self).spec_has_frame(stripped(frame_id@)) ==> {
                &&& id == old(self).frames@.len()
                &&& final(self).frames@.len() == old(self).frames@.len() + 1
                &&& final(self).id_to_frame@.len() == old(self).id_to_frame@.len() + 1
                &&& final(self).frame_authority@.len() == old(self).frame_authority@.len() + 1
                &&& forall|k: int|
                    0 <= k < old(self).frames@.len() ==> (#[trigger] final(self).frames@[k])
                        == old(self).frames@[k]
                &&& forall|k: int|
                    0 <= k < old(self).id_to_frame@.len() ==> (#[trigger] final(self).id_to_frame@[k])
                        == old(self).id_to_frame@[k]
                &&& forall|k: int|
                    0 <= k < old(self).frame_authority@.len() ==> (#[trigger] final(self).frame_authority@[k])
                        == old(self).frame_authority@[k]
                &&& final(self).frame_authority@[id as int] is None
                &&& fresh_cache_spec(
                    final(self).frames@[id as int],
                    is_static,
                    id,
                    old(self).cache_time_ns,
                )
            },
    {
        let name = strip_leading_slashes(frame_id);
        proof {
            crate::frame_names::lemma_stripped_is_stripped(frame_id@);
        }
        let n = self.id_to_frame.len();
        let mut i: usize = 0;
        while i < n
            invariant
                0 <= i <= n,
                n == self.id_to_frame@.len(),
                self.wf(),
                name@ == stripped(frame_id@),
                forall|k: int| 0 <= k < i ==> (#[trigger] self.id_to_frame@[k])@ != name@,
            decreases n - i,
        {
            if str_eq(self.id_to_frame[i].as_str(), name.as_str()) {
                proof {
                    assert(self.spec_has_frame(name@));
                    let j = self.spec_frame_index(name@);
                    if j != i {
                        assert(self.id_to_frame@[j]@ != self.id_to_frame@[i as int]@);
                    }
                }
                return i as CompactFrameID;
            }
            i += 1;
        }

        let new_id = n as CompactFrameID;
        if is_static {
            self.frames.push(
                FrameCache::Fixed(StaticCache::new(TransformStorage::identity(u64::MAX, 0, new_id))),
            );
        } else {
            self.frames.push(FrameCache::Temporal(TimeCache::new(Vec::new(), self.cache_time_ns)));
        }
        self.id_to_frame.push(name);
        self.frame_authority.push(None);
        proof {
            assert(!old(self).spec_has_frame(stripped(frame_id@)));
            assert forall|a: int, b: int|
                0 <= a < b < self.id_to_frame@.len() implies (#[trigger] self.id_to_frame@[a])@ != (
            #[trigger] self.id_to_frame@[b])@ by {
                if b == n {
                    assert(self.id_to_frame@[a] == old(self).id_to_frame@[a]);
                }
            }
            assert forall|k: int| 0 <= k < self.frames@.len() implies (
            #[trigger] self.frames@[k]).parent_ids_below(self.frames@.len() as int) by {
                if k < n {
                    assert(old(self).frames@[k].parent_ids_below(old(self).frames@.len() as int));
                }
            }
        }
        new_id
    }

    /// Empties every frame's bounded history; ids, names, authorities and
    /// static slots are all retained, and so is the root.
    pub fn clear(&mut self)
        requires
            old(self).wf(),
        ensures
            final(self).wf(),
            final(self).cache_time_ns == old(self).cache_time_ns,
            final(self).id_to_frame@ == old(self).id_to_frame@,
            final(self).frame_authority@ == old(self).frame_authority@,
            final(self).frames@.len() == old(self).frames@.len(),
            final(self).frames@[0] == old(self).frames@[0],
            forall|i: int|
                1 <= i < old(self).frames@.len() ==> cleared_cache_spec(
                    old(self).frames@[i],
                    #[trigger] final(self).frames@[i],
                ),
    {
        let n = self.frames.len();
        let mut idx: usize = 1;
        while idx < n
            invariant
                1 <= idx <= n || n == 0,
                n == self.frames@.len(),
                self.id_to_frame@ == old(self).id_to_frame@,
                self.frame_authority@ == old(self).frame_authority@,
                self.cache_time_ns == old(self).cache_time_ns,
                n == old(self).frames@.len(),
                n >= 1 ==> self.frames@[0] == old(self).frames@[0],
                forall|k: int| idx <= k < n ==> (#[trigger] self.frames@[k]) == old(self).frames@[k],
                forall|k: int|
                    1 <= k < idx ==> cleared_cache_spec(
                        old(self).frames@[k],
                        #[trigger] self.frames@[k],
                    ),
                old(self).wf(),
            decreases n - idx,
        {
            let c = &mut self.frames[idx];
            match c {
                FrameCache::Temporal(tc) => tc.clear_list(),
                FrameCache::Fixed(_) => (),
            }
            idx += 1;
        }
        proof {
            assert forall|i: int| 0 <= i < self.frames@.len() implies (
            #[trigger] self.frames@[i]).wf() && self.frames@[i].parent_ids_below(
                self.frames@.len() as int,
            ) by {
                assert(old(self).frames@[i].wf());
                assert(old(self).frames@[i].parent_ids_below(self.frames@.len() as int));
                if i >= 1 {
                    assert(cleared_cache_spec(old(self).frames@[i], self.frames@[i]));
                }
            }
        }
    }

    /// Routes one transform into the buffer. The two names are stripped of
    /// leading slashes and validated: equal names, an empty child, or an
    /// empty parent are rejected in that order and leave the buffer
    /// untouched. Otherwise the parent is interned as non-static, the child
    /// per `is_static`, a record is inserted into the child frame's cache
    /// (the child owns its single incoming edge), and the authority is
    /// recorded for the child.
    pub fn set_transform(
        &mut self,
        transform: &TransformInput,
        authority: &str,
        is_static: bool,
    ) -> (r: Result<(), TF2Error>)
        requires
            old(self).wf(),
            old(self).frames@.len() + 2 <= MAX_FRAMES,
        ensures
            final(self).wf(),
            final(self).cache_time_ns == old(self).cache_time_ns,
            ({
                let parent = stripped(transform.frame_id@);
                let child = stripped(transform.child_frame_id@);
                if child == parent {
                    &&& *final(self) == *old(self)
                    &&& r matches Err(TF2Error::MatchingFrameIDs(a, n)) && a@ == authority@ && n@
                        == child
                } else if child.len() == 0 {
                    &&& *final(self) == *old(self)
                    &&& r matches Err(TF2Error::EmptyFrameID(a, w)) && a@ == authority@ && w@
                        == "child_frame_id"@
                } else if parent.len() == 0 {
                    &&& *final(self) == *old(self)
                    &&& r matches Err(TF2Error::EmptyFrameID(a, w)) && a@ == authority@ && w@
                        == "frame_id"@
                } else {
                    &&& r == Ok::<(), TF2Error>(())
                    &&& set_transform_updated(
                        *old(self),
                        *final(self),
                        parent,
                        child,
                        transform.rotation,
                        transform.translation,
                        transform.stamp,
                        authority@,
                        is_static,
                    )
                }
            }),
    {
        let child_name = strip_leading_slashes(transform.child_frame_id.as_str());
        let parent_name = strip_leading_slashes(transform.frame_id.as_str());

        if str_eq(child_name.as_str(), parent_name.as_str()) {
            return Err(TF2Error::MatchingFrameIDs(authority.to_owned(), child_name));
        }
        if child_name.as_str().unicode_len() == 0 {
            return Err(TF2Error::EmptyFrameID(authority.to_owned(), "child_frame_id".to_owned()));
        }
        if parent_name.as_str().unicode_len() == 0 {
            return Err(TF2Error::EmptyFrameID(authority.to_owned(), "frame_id".to_owned()));
        }

        proof {
            crate::frame_names::lemma_stripped_is_stripped(transform.frame_id@);
            crate::frame_names::lemma_stripped_is_stripped(transform.child_frame_id@);
            crate::frame_names::lemma_stripped_is_stripped(parent_name@);
            crate::frame_names::lemma_stripped_is_stripped(child_name@);
        }
        let ghost pre = *self;
        let ghost parent = stripped(transform.frame_id@);
        let ghost child = stripped(transform.child_frame_id@);
        let frame_num = self.get_or_insert_new_frame(parent_name.as_str(), false);
        let ghost s1 = *self;
        let child_frame_num = self.get_or_insert_new_frame(child_name.as_str(), is_static);
        let ghost s2 = *self;
        proof {
            assert(s1.id_to_frame@[frame_num as int]@ == parent);
            assert(s2.id_to_frame@[child_frame_num as int]@ == child);
            // The parent's entry survives the child intern.
            assert(s2.id_to_frame@[frame_num as int]@ == parent) by {
                if !s1.spec_has_frame(child) {
                    assert(s2.id_to_frame@[frame_num as int] == s1.id_to_frame@[frame_num as int]);
                }
            }
            assert(frame_num != child_frame_num);
            // A frame named `child` existed before iff it existed after the
            // parent intern: the parent's new entry is named `parent != child`.
            assert(s1.spec_has_frame(child) <==> pre.spec_has_frame(child)) by {
                if s1.spec_has_frame(child) {
                    let i = choose|i: int|
                        0 <= i < s1.id_to_frame@.len() && (#[trigger] s1.id_to_frame@[i])@
                            == child;
                    if !pre.spec_has_frame(parent) && i == pre.id_to_frame@.len() {
                        assert(s1.id_to_frame@[i]@ == parent);
                        assert(false);
                    } else {
                        assert(s1.id_to_frame@[i] == pre.id_to_frame@[i]);
                        assert(pre.spec_has_frame(child));
                    }
                }
                if pre.spec_has_frame(child) {
                    let i = choose|i: int|
                        0 <= i < pre.id_to_frame@.len() && (#[trigger] pre.id_to_frame@[i])@
                            == child;
                    assert(s1.id_to_frame@[i] == pre.id_to_frame@[i]);
                }
            }
        }

        let record = TransformStorage::new(
            transform.rotation,
            transform.translation,
            transform.stamp,
            frame_num,
            child_frame_num,
        );
        let ghost before_insert = *self;
        let c = &mut self.frames[child_frame_num as usize];
        match c {
            FrameCache::Temporal(tc) => {
                tc.insert_data(&record);
            },
            FrameCache::Fixed(sc) => {
                sc.insert_data(&record);
            },
        }
        self.frame_authority[child_frame_num as usize] = Some(authority.to_owned());
        proof {
            assert(frame_cache_inserted(
                before_insert.frames@[child_frame_num as int],
                record,
                self.frames@[child_frame_num as int],
            ));
            assert forall|i: int| 0 <= i < self.frames@.len() implies (
            #[trigger] self.frames@[i]).wf() && self.frames@[i].parent_ids_below(
                self.frames@.len() as int,
            ) by {
                assert(before_insert.frames@[i].wf());
                assert(before_insert.frames@[i].parent_ids_below(self.frames@.len() as int));
                if i == child_frame_num as int {
                    lemma_insert_preserves_bounds(
                        before_insert.frames@[i],
                        record,
                        self.frames@[i],
                        self.frames@.len() as int,
                    );
                }
            }
            // The resolved indices are the interned ids, by uniqueness.
            assert(self.id_to_frame@ == s2.id_to_frame@);
            assert(self.spec_has_frame(parent));
            assert(self.spec_has_frame(child));
            let pid = self.spec_frame_index(parent);
            let cid = self.spec_frame_index(child);
            assert(self.id_to_frame@[pid]@ == parent);
            assert(self.id_to_frame@[cid]@ == child);
            assert(pid == frame_num as int) by {
                if pid != frame_num as int {
                    assert(self.id_to_frame@[pid]@ != self.id_to_frame@[frame_num as int]@);
                }
            }
            assert(cid == child_frame_num as int) by {
                if cid != child_frame_num as int {
                    assert(self.id_to_frame@[cid]@ != self.id_to_frame@[child_frame_num as int]@);
                }
            }
            // The child's pre-intern cache, in each of the three shapes the
            // contract names.
            if pre.spec_has_frame(child) {
                assert(s2.frames@[cid] == pre.frames@[cid]) by {
                    if !pre.spec_has_frame(parent) {
                        assert(s1.frames@[cid] == pre.frames@[cid]);
                    }
                    if !s1.spec_has_frame(child) {
                        assert(false);
                    }
                }
            } else {
                assert(!s1.spec_has_frame(child));
                assert(cid == s1.frames@.len());
                assert(fresh_cache_spec(s2.frames@[cid], is_static, child_frame_num, pre.cache_time_ns));
                if !is_static {
                    match self.frames@[cid] {
                        FrameCache::Temporal(tc) => {
                            match s2.frames@[cid] {
                                FrameCache::Temporal(fresh) => {
                                    assert(fresh@ == Seq::<TransformStorage>::empty());
                                    assert(crate::cache::pruned(fresh@, fresh.spec_max_history())
                                        == fresh@);
                                    assert(!fresh@.contains(record));
                                    assert(tc@ =~= seq![record]);
                                },
                                FrameCache::Fixed(_) => {
                                    assert(false);
                                },
                            }
                        },
                        FrameCache::Fixed(_) => {
                            assert(false);
                        },
                    }
                }
            }
            // Names and caches of untouched frames carry over from the
            // pre-ingestion state.
            assert forall|k: int| 0 <= k < pre.id_to_frame@.len() implies (
            #[trigger] self.id_to_frame@[k]) == pre.id_to_frame@[k] by {
                assert(s1.id_to_frame@[k] == pre.id_to_frame@[k]);
                assert(s2.id_to_frame@[k] == s1.id_to_frame@[k]);
            }
            assert forall|k: int| 0 <= k < pre.frames@.len() && k != cid implies (
            #[trigger] self.frames@[k]) == pre.frames@[k] by {
                assert(s1.frames@[k] == pre.frames@[k]);
                assert(s2.frames@[k] == s1.frames@[k]);
            }
            assert forall|k: int| 0 <= k < pre.frame_authority@.len() && k != cid implies (
            #[trigger] self.frame_authority@[k]) == pre.frame_authority@[k] by {
                assert(s1.frame_authority@[k] == pre.frame_authority@[k]);
                assert(s2.frame_authority@[k] == s1.frame_authority@[k]);
            }
            if !pre.spec_has_frame(parent) {
                assert(fresh_cache_spec(s1.frames@[pid], false, frame_num, pre.cache_time_ns));
                assert(s2.frames@[pid] == s1.frames@[pid]);
                assert(self.frames@[pid] == s2.frames@[pid]);
            }
            assert(set_transform_updated(
                pre,
                *self,
                parent,
                child,
                transform.rotation,
                transform.translation,
                transform.stamp,
                authority@,
                is_static,
            ));
        }
        Ok(())
    }

    /// Snapshot of every stored frame name, id order, the root included.
    pub fn get_all_frame_names(&self) -> (r: Vec<String>)
        ensures
            r.deep_view() == self.id_to_frame.deep_view(),
    {
        let mut out: Vec<String> = Vec::new();
        let n = self.id_to_frame.len();
        let mut i: usize = 0;
        while i < n
            invariant
                0 <= i <= n,
                n == self.id_to_frame@.len(),
                out@.len() == i,
                forall|k: int| 0 <= k < i ==> (#[trigger] out@[k])@ == self.id_to_frame@[k]@,
            decreases n - i,
        {
            let name = self.id_to_frame[i].as_str().to_owned();
            out.push(name);
            i += 1;
        }
        proof {
            assert(out.deep_view() =~= self.id_to_frame.deep_view());
        }
        out
    }

    /// The retention window every temporal cache is built with.
    pub fn get_cache_length(&self) -> (r: u64)
        ensures
            r == self.cache_time_ns,
    {
        self.cache_time_ns
    }

    /// The producer that most recently asserted this frame's incoming edge,
    /// `None` for an unknown frame or one that never received a transform.
    /// The name is looked up as given, without slash stripping.
    pub fn get_latest_authority_for_frame(&self, frame: &str) -> (r: Option<&String>)
        requires
            self.wf(),
        ensures
            match self.spec_lookup_frame_number(frame@) {
                Some(id) => {
                    &&& r is Some <==> self.frame_authority@[id as int] is Some
                    &&& r is Some ==> *r->0 == self.frame_authority@[id as int]->0
                },
                None => r is None,
            },
    {
        match self.lookup_frame_number(frame) {
            Some(id) => self.frame_authority[id as usize].as_ref(),
            None => None,
        }
    }
}

/// Relates the caches of one frame before and after `clear`: a history is
/// emptied with its window kept, a static slot is untouched.
pub open spec fn cleared_cache_spec(pre: FrameCache, post: FrameCache) -> bool {
    match pre {
        FrameCache::Temporal(c) => match post {
            FrameCache::Temporal(d) => d@ == Seq::<TransformStorage>::empty()
                && d.spec_max_history() == c.spec_max_history(),
            FrameCache::Fixed(_) => false,
        },
        FrameCache::Fixed(_) => post == pre,
    }
}

/// What a successful `set_transform` does to the buffer, over the stripped
/// parent and child names: both frames exist afterwards, ids and prior
/// names are preserved, at most two frames were added (parent first,
/// non-static; then child, static as asked), the record carrying the two
/// resolved ids went into the child frame's cache, and the child's
/// authority was overwritten. Everything else is untouched.
pub open spec fn set_transform_updated(
    pre: BufferCore,
    post: BufferCore,
    parent: Seq<char>,
    child: Seq<char>,
    rotation: QuatBits,
    translation: Vec3Bits,
    stamp: u64,
    authority: Seq<char>,
    is_static: bool,
) -> bool {
    let pid = post.spec_frame_index(parent);
    let cid = post.spec_frame_index(child);
    let rec = TransformStorage {
        rotation,
        translation,
        stamp,
        frame_id: pid as CompactFrameID,
        child_frame_id: cid as CompactFrameID,
    };
    &&& post.spec_has_frame(parent)
    &&& post.spec_has_frame(child)
    &&& pid != cid
    &&& post.frames@.len() == pre.frames@.len() + (if pre.spec_has_frame(parent) {
        0int
    } else {
        1int
    }) + (if pre.spec_has_frame(child) {
        0int
    } else {
        1int
    })
    &&& post.id_to_frame@.len() == post.frames@.len()
    &&& forall|k: int|
        0 <= k < pre.id_to_frame@.len() ==> (#[trigger] post.id_to_frame@[k]) == pre.id_to_frame@[k]
    &&& (pre.spec_has_frame(parent) ==> Some(pid as CompactFrameID)
        == pre.spec_lookup_frame_number(parent))
    &&& (!pre.spec_has_frame(parent) ==> pid == pre.frames@.len() && fresh_cache_spec(
        post.frames@[pid],
        false,
        pid as CompactFrameID,
        pre.cache_time_ns,
    ))
    &&& (pre.spec_has_frame(child) ==> Some(cid as CompactFrameID) == pre.spec_lookup_frame_number(
        child,
    ))
    &&& (!pre.spec_has_frame(child) ==> cid + 1 == post.frames@.len())
    &&& (pre.spec_has_frame(child) ==> frame_cache_inserted(pre.frames@[cid], rec, post.frames@[cid]))
    &&& (!pre.spec_has_frame(child) && is_static ==> match post.frames@[cid] {
        FrameCache::Fixed(sc) => sc.spec_storage() == rec,
        FrameCache::Temporal(_) => false,
    })
    &&& (!pre.spec_has_frame(child) && !is_static ==> match post.frames@[cid] {
        FrameCache::Temporal(tc) => tc@ == seq![rec] && tc.spec_max_history()
            == pre.cache_time_ns,
        FrameCache::Fixed(_) => false,
    })
    &&& forall|k: int|
        0 <= k < pre.frames@.len() && k != cid ==> (#[trigger] post.frames@[k]) == pre.frames@[k]
    &&& post.frame_authority@[cid].is_some() && post.frame_authority@[cid].unwrap()@ == authority
    &&& forall|k: int|
        0 <= k < pre.frame_authority@.len() && k != cid ==> (#[trigger] post.frame_authority@[k])
            == pre.frame_authority@[k]
}

/// A record whose ids lie below `bound`, inserted into a cache whose stored
/// parent ids lie below `bound`, leaves every stored parent id below
/// `bound`.
proof fn lemma_insert_preserves_bounds(
    pre: FrameCache,
    rec: TransformStorage,
    post: FrameCache,
    bound: int,
)
    requires
        frame_cache_inserted(pre, rec, post),
        pre.parent_ids_below(bound),
        rec.frame_id < bound,
    ensures
        post.parent_ids_below(bound),
{
    match pre {
        FrameCache::Temporal(c) => {
            let p = crate::cache::pruned(c@, c.spec_max_history());
            if c@.len() > 0 {
                crate::cache::lemma_keep_len_in_bounds(
                    c@,
                    crate::cache::sat_sub(c@[0].stamp, c.spec_max_history()),
                );
            }
            assert forall|k: int| 0 <= k < p.len() implies (#[trigger] p[k]).frame_id < bound by {
                assert(p[k] == c@[k]);
            }
            match post {
                FrameCache::Temporal(d) => {
                    if p.contains(rec) {
                    } else {
                        let pos = crate::cache::insert_pos(p, rec.stamp);
                        crate::cache::lemma_insert_pos_props(p, rec.stamp);
                        let q = p.insert(pos, rec);
                        assert forall|k: int| 0 <= k < q.len() implies (#[trigger] q[k]).frame_id
                            < bound by {
                            if k < pos {
                                assert(q[k] == p[k]);
                            } else if k == pos {
                                assert(q[k] == rec);
                            } else {
                                assert(q[k] == p[k - 1]);
                            }
                        }
                    }
                },
                FrameCache::Fixed(_) => {},
            }
        },
        FrameCache::Fixed(_) => {},
    }
}


/// One step of a graph walk: the latest-known parent, with the root fixed
/// in place. A frame with no history counts as a root and points at 0.
pub open spec fn walk_step(frames: Seq<FrameCache>, id: CompactFrameID) -> CompactFrameID {
    if id == 0 {
        0
    } else {
        match frames[id as int].spec_latest_timestamp_and_parent() {
            Some(p) => p.1,
            None => 0,
        }
    }
}

/// The id reached after `k` walk steps from `start`.
pub open spec fn nth_parent(frames: Seq<FrameCache>, start: CompactFrameID, k: nat) -> CompactFrameID
    decreases k,
{
    if k == 0 {
        start
    } else {
        walk_step(frames, nth_parent(frames, start, (k - 1) as nat))
    }
}

/// True when `id` lies on the ancestor chain of `start`, within `cap`
/// steps.
pub open spec fn on_chain(frames: Seq<FrameCache>, start: CompactFrameID, cap: nat, id: CompactFrameID) -> bool {
    exists|k: nat| k <= cap && nth_parent(frames, start, k) == id
}

/// The first index at which `id` appears on the ancestor chain of `start`
/// (0 when it never does within `fuel` steps).
pub open spec fn chain_index(frames: Seq<FrameCache>, start: CompactFrameID, id: CompactFrameID, fuel: nat) -> nat
    decreases fuel,
{
    if start == id || fuel == 0 {
        0
    } else {
        1 + chain_index(frames, walk_step(frames, start), id, (fuel - 1) as nat)
    }
}

/// Walks from `id` toward the root looking for the first frame that lies on
/// the source's chain: the meet point of the two walks.
pub open spec fn meet_from(frames: Seq<FrameCache>, source: CompactFrameID, id: CompactFrameID, fuel: nat) -> Option<CompactFrameID>
    decreases fuel,
{
    if id == 0 {
        None
    } else if on_chain(frames, source, MAX_GRAPH_DEPTH as nat, id) {
        Some(id)
    } else if fuel == 0 {
        None
    } else {
        meet_from(frames, source, walk_step(frames, id), (fuel - 1) as nat)
    }
}

/// The closest shared ancestor of two frames, walking latest-known parent
/// pointers, with both walks capped: either id 0, an unknown source, a
/// source chain that does not reach the root within the cap, or two chains
/// that never meet give `None`.
pub open spec fn lca_spec(frames: Seq<FrameCache>, target: CompactFrameID, source: CompactFrameID) -> Option<CompactFrameID> {
    if target == 0 || source == 0 {
        None
    } else if target == source {
        Some(source)
    } else if frames.len() <= source as int {
        None
    } else if on_chain(frames, source, MAX_GRAPH_DEPTH as nat, target) {
        Some(target)
    } else if nth_parent(frames, source, MAX_GRAPH_DEPTH as nat) != 0 {
        None
    } else if frames.len() <= target as int {
        None
    } else {
        meet_from(frames, source, target, MAX_GRAPH_DEPTH as nat)
    }
}

/// The larger of two stamps.
pub open spec fn max_u64(a: u64, b: u64) -> u64 {
    if a >= b {
        a
    } else {
        b
    }
}

/// The smaller of two stamps.
pub open spec fn min_u64(a: u64, b: u64) -> u64 {
    if a <= b {
        a
    } else {
        b
    }
}

/// What a frame contributes to the oldest bound of a path through it:
/// its oldest stamp, or nothing (0) when it has no bounded history.
pub open spec fn frame_oldest_contrib(frames: Seq<FrameCache>, id: CompactFrameID) -> u64 {
    match frames[id as int].spec_oldest_timestamp() {
        Some(t) => t,
        None => 0,
    }
}

/// What a frame contributes to the newest bound of a path through it: its
/// newest stamp, nothing (`u64::MAX`) when it has no history at all, and 0
/// for a static frame, which the walks then read as "latest available".
pub open spec fn frame_latest_contrib(frames: Seq<FrameCache>, id: CompactFrameID) -> u64 {
    match frames[id as int].spec_latest_timestamp_and_parent() {
        Some(p) => p.0,
        None => u64::MAX,
    }
}

/// The oldest bound accumulated over the first `k` frames of the chain
/// from `start`: the largest oldest stamp seen.
pub open spec fn chain_oldest(frames: Seq<FrameCache>, start: CompactFrameID, k: nat) -> u64
    decreases k,
{
    if k == 0 {
        0
    } else {
        max_u64(
            chain_oldest(frames, start, (k - 1) as nat),
            frame_oldest_contrib(frames, nth_parent(frames, start, (k - 1) as nat)),
        )
    }
}

/// The newest bound accumulated over the first `k` frames of the chain
/// from `start`: the smallest newest stamp seen.
pub open spec fn chain_latest(frames: Seq<FrameCache>, start: CompactFrameID, k: nat) -> u64
    decreases k,
{
    if k == 0 {
        u64::MAX
    } else {
        min_u64(
            chain_latest(frames, start, (k - 1) as nat),
            frame_latest_contrib(frames, nth_parent(frames, start, (k - 1) as nat)),
        )
    }
}

/// The common validity interval of two frames: the intersection of the
/// running (oldest, newest) bounds along each walk, taken up to but not
/// including the frame where the walks meet. For one and the same frame it
/// is that frame's own held interval. `None` whenever the meet walk gives
/// up (see `lca_spec`) or the frame has no history.
pub open spec fn common_bounds_spec(frames: Seq<FrameCache>, target: CompactFrameID, source: CompactFrameID) -> Option<(u64, u64)> {
    if target == 0 || source == 0 {
        None
    } else if target == source {
        if frames.len() <= target as int {
            None
        } else {
            match (frames[target as int].spec_latest_timestamp(), frames[
                target as int
            ].spec_oldest_timestamp()) {
                (Some(l), Some(o)) => Some((o, l)),
                _ => None,
            }
        }
    } else if frames.len() <= source as int {
        None
    } else if on_chain(frames, source, MAX_GRAPH_DEPTH as nat, target) {
        let m = chain_index(frames, source, target, MAX_GRAPH_DEPTH as nat);
        Some((chain_oldest(frames, source, m), chain_latest(frames, source, m)))
    } else if nth_parent(frames, source, MAX_GRAPH_DEPTH as nat) != 0 {
        None
    } else if frames.len() <= target as int {
        None
    } else {
        match meet_from(frames, source, target, MAX_GRAPH_DEPTH as nat) {
            Some(w) => {
                let j = chain_index(frames, target, w, MAX_GRAPH_DEPTH as nat);
                let m = chain_index(frames, source, w, MAX_GRAPH_DEPTH as nat);
                Some(
                    (
                        max_u64(
                            chain_oldest(frames, target, j),
                            chain_oldest(frames, source, m),
                        ),
                        min_u64(
                            chain_latest(frames, target, j),
                            chain_latest(frames, source, m),
                        ),
                    ),
                )
            },
            None => None,
        }
    }
}

/// Once a walk reaches the root it stays there.
pub proof fn lemma_nth_parent_stable(frames: Seq<FrameCache>, start: CompactFrameID, k: nat, m: nat)
    requires
        k <= m,
        nth_parent(frames, start, k) == 0,
    ensures
        nth_parent(frames, start, m) == 0,
    decreases m,
{
    if m > k {
        lemma_nth_parent_stable(frames, start, k, (m - 1) as nat);
    }
}

/// Under the buffer invariant every id a walk visits names a frame.
pub proof fn lemma_nth_parent_in_bounds(frames: Seq<FrameCache>, start: CompactFrameID, k: nat)
    requires
        start < frames.len(),
        frames.len() >= 1,
        forall|i: int| 0 <= i < frames.len() ==> (#[trigger] frames[i]).parent_ids_below(frames.len() as int),
    ensures
        nth_parent(frames, start, k) < frames.len(),
    decreases k,
{
    if k > 0 {
        lemma_nth_parent_in_bounds(frames, start, (k - 1) as nat);
        let prev = nth_parent(frames, start, (k - 1) as nat);
        if prev != 0 {
            assert(frames[prev as int].parent_ids_below(frames.len() as int));
            match frames[prev as int] {
                FrameCache::Temporal(c) => {
                    if c@.len() > 0 {
                        assert(c@[0].frame_id < frames.len());
                    }
                },
                FrameCache::Fixed(_) => {},
            }
        }
    }
}

/// Stepping once and walking `k` steps is walking `k + 1` steps.
pub proof fn lemma_nth_parent_shift(frames: Seq<FrameCache>, start: CompactFrameID, k: nat)
    ensures
        nth_parent(frames, start, (k + 1) as nat) == nth_parent(frames, walk_step(frames, start), k),
    decreases k,
{
    if k == 0 {
        assert(nth_parent(frames, start, 1) == walk_step(frames, nth_parent(frames, start, 0)));
    } else {
        lemma_nth_parent_shift(frames, start, (k - 1) as nat);
        assert(nth_parent(frames, start, (k + 1) as nat) == walk_step(
            frames,
            nth_parent(frames, start, k),
        ));
        assert(nth_parent(frames, walk_step(frames, start), k) == walk_step(
            frames,
            nth_parent(frames, walk_step(frames, start), (k - 1) as nat),
        ));
    }
}

/// `chain_index` is the first index at which `id` appears.
pub proof fn lemma_chain_index_of(frames: Seq<FrameCache>, start: CompactFrameID, id: CompactFrameID, m: nat, fuel: nat)
    requires
        m <= fuel,
        nth_parent(frames, start, m) == id,
        forall|k: nat| k < m ==> nth_parent(frames, start, k) != id,
    ensures
        chain_index(frames, start, id, fuel) == m,
    decreases m,
{
    if m == 0 {
    } else {
        assert(nth_parent(frames, start, 0) != id);
        assert(start != id);
        let next = walk_step(frames, start);
        lemma_nth_parent_shift(frames, start, (m - 1) as nat);
        assert(nth_parent(frames, next, (m - 1) as nat) == id);
        assert forall|k: nat| k < (m - 1) as nat implies nth_parent(frames, next, k) != id by {
            lemma_nth_parent_shift(frames, start, k);
            assert(nth_parent(frames, start, (k + 1) as nat) != id);
        }
        lemma_chain_index_of(frames, next, id, (m - 1) as nat, (fuel - 1) as nat);
    }
}

/// Linear membership scan over the visited-frame records of a walk.
fn find_visited(visited: &Vec<(CompactFrameID, u64, u64)>, id: CompactFrameID) -> (r: Option<(
    usize,
    u64,
    u64,
)>)
    ensures
        match r {
            Some((k, o, l)) => {
                &&& k < visited@.len()
                &&& visited@[k as int] == (id, o, l)
                &&& forall|i: int| 0 <= i < k ==> (#[trigger] visited@[i]).0 != id
            },
            None => forall|i: int| 0 <= i < visited@.len() ==> (#[trigger] visited@[i]).0 != id,
        },
{
    let n = visited.len();
    let mut i: usize = 0;
    while i < n
        invariant
            0 <= i <= n,
            n == visited@.len(),
            forall|k: int| 0 <= k < i ==> (#[trigger] visited@[k]).0 != id,
        decreases n - i,
    {
        let entry = visited[i];
        if entry.0 == id {
            return Some((i, entry.1, entry.2));
        }
        i += 1;
    }
    None
}


/// Linear membership scan over visited frame ids.
fn vec_contains_id(v: &Vec<CompactFrameID>, id: CompactFrameID) -> (r: bool)
    ensures
        r == exists|k: int| 0 <= k < v@.len() && v@[k] == id,
{
    let n = v.len();
    let mut i: usize = 0;
    while i < n
        invariant
            0 <= i <= n,
            n == v@.len(),
            forall|k: int| 0 <= k < i ==> v@[k] != id,
        decreases n - i,
    {
        if v[i] == id {
            return true;
        }
        i += 1;
    }
    false
}

/// For a chain that reaches the root at step `len`, a nonzero id lies on
/// the capped chain exactly when it appears strictly before `len`.
proof fn lemma_member_iff_on_chain(
    frames: Seq<FrameCache>,
    source: CompactFrameID,
    len: nat,
    id: CompactFrameID,
)
    requires
        len <= MAX_GRAPH_DEPTH as nat,
        nth_parent(frames, source, len) == 0,
        id != 0,
    ensures
        on_chain(frames, source, MAX_GRAPH_DEPTH as nat, id) <==> exists|k: nat|
            k < len && nth_parent(frames, source, k) == id,
{
    if on_chain(frames, source, MAX_GRAPH_DEPTH as nat, id) {
        let k = choose|k: nat| k <= MAX_GRAPH_DEPTH as nat && nth_parent(frames, source, k) == id;
        if k >= len {
            lemma_nth_parent_stable(frames, source, len, k);
            assert(false);
        }
        assert(k < len && nth_parent(frames, source, k) == id);
    }
    if exists|k: nat| k < len && nth_parent(frames, source, k) == id {
        let k = choose|k: nat| k < len && nth_parent(frames, source, k) == id;
        assert(k <= MAX_GRAPH_DEPTH as nat && nth_parent(frames, source, k) == id);
    }
}

impl BufferCore {
    /// The closest shared ancestor of the two frames: the first frame of
    /// the target's ancestor chain that also lies on the source's, both
    /// walks following latest-known parents and capped.
    fn get_closest_shared_ancestor(
        &self,
        target_id: CompactFrameID,
        source_id: CompactFrameID,
    ) -> (r: Option<CompactFrameID>)
        requires
            self.wf(),
        ensures
            r == lca_spec(self.frames@, target_id, source_id),
    {
        let ghost frames = self.frames@;
        if target_id == 0 || source_id == 0 {
            return None;
        }
        if target_id == source_id {
            return Some(source_id);
        }
        if source_id as usize >= self.frames.len() {
            return None;
        }

        // Walk the source chain toward the root, remembering every frame.
        let mut visited: Vec<CompactFrameID> = Vec::new();
        let mut frame_id = source_id;
        let mut depth: usize = 0;
        while frame_id != 0
            invariant
                self.wf(),
                frames == self.frames@,
                target_id != 0,
                source_id != 0,
                target_id != source_id,
                source_id < frames.len(),
                depth <= MAX_GRAPH_DEPTH,
                frame_id == nth_parent(frames, source_id, depth as nat),
                frame_id < frames.len(),
                visited@.len() == depth,
                forall|k: int|
                    0 <= k < depth ==> visited@[k] == nth_parent(frames, source_id, k as nat),
                forall|k: nat| k < depth as nat ==> nth_parent(frames, source_id, k) != target_id,
            decreases MAX_GRAPH_DEPTH - depth,
        {
            if frame_id == target_id {
                proof {
                    assert(on_chain(frames, source_id, MAX_GRAPH_DEPTH as nat, target_id)) by {
                        assert(depth as nat <= MAX_GRAPH_DEPTH as nat && nth_parent(
                            frames,
                            source_id,
                            depth as nat,
                        ) == target_id);
                    }
                }
                return Some(frame_id);
            }
            let frame_cache = &self.frames[frame_id as usize];
            let frame_parent = match frame_cache.get_latest_timestamp_and_parent() {
                Some(x) => x.1,
                None => 0,
            };
            visited.push(frame_id);
            proof {
                assert(walk_step(frames, frame_id) == frame_parent);
                assert(nth_parent(frames, source_id, (depth + 1) as nat) == walk_step(
                    frames,
                    nth_parent(frames, source_id, depth as nat),
                ));
                lemma_nth_parent_in_bounds(frames, source_id, (depth + 1) as nat);
                if depth == MAX_GRAPH_DEPTH {
                    assert(nth_parent(frames, source_id, MAX_GRAPH_DEPTH as nat) != 0);
                }
            }
            frame_id = frame_parent;
            depth += 1;
            if depth > MAX_GRAPH_DEPTH {
                proof {
                    assert(!on_chain(frames, source_id, MAX_GRAPH_DEPTH as nat, target_id)) by {
                        if on_chain(frames, source_id, MAX_GRAPH_DEPTH as nat, target_id) {
                            let k = choose|k: nat|
                                k <= MAX_GRAPH_DEPTH as nat && nth_parent(frames, source_id, k)
                                    == target_id;
                            assert(k < depth as nat);
                            assert(false);
                        }
                    }
                }
                return None;
            }
        }
        let ghost src_len = depth as nat;
        proof {
            assert(nth_parent(frames, source_id, src_len) == 0);
            lemma_nth_parent_stable(frames, source_id, src_len, MAX_GRAPH_DEPTH as nat);
            assert(!on_chain(frames, source_id, MAX_GRAPH_DEPTH as nat, target_id)) by {
                lemma_member_iff_on_chain(frames, source_id, src_len, target_id);
                if exists|k: nat| k < src_len && nth_parent(frames, source_id, k) == target_id {
                    let k = choose|k: nat|
                        k < src_len && nth_parent(frames, source_id, k) == target_id;
                    assert(false);
                }
            }
        }
        if target_id as usize >= self.frames.len() {
            return None;
        }

        // Walk the target chain; the first frame seen on the source chain
        // is the answer.
        let mut frame_id = target_id;
        let mut depth: usize = 0;
        proof {
            assert(lca_spec(frames, target_id, source_id) == meet_from(
                frames,
                source_id,
                target_id,
                MAX_GRAPH_DEPTH as nat,
            ));
        }
        while frame_id != 0
            invariant
                self.wf(),
                frames == self.frames@,
                target_id != 0,
                source_id != 0,
                source_id < frames.len(),
                target_id < frames.len(),
                src_len <= MAX_GRAPH_DEPTH as nat,
                nth_parent(frames, source_id, src_len) == 0,
                visited@.len() == src_len,
                forall|k: int|
                    0 <= k < src_len ==> visited@[k] == nth_parent(frames, source_id, k as nat),
                depth <= MAX_GRAPH_DEPTH,
                frame_id == nth_parent(frames, target_id, depth as nat),
                frame_id < frames.len(),
                lca_spec(frames, target_id, source_id) == meet_from(
                    frames,
                    source_id,
                    frame_id,
                    (MAX_GRAPH_DEPTH - depth) as nat,
                ),
            decreases MAX_GRAPH_DEPTH - depth,
        {
            if vec_contains_id(&visited, frame_id) {
                proof {
                    let k = choose|k: int| 0 <= k < visited@.len() && visited@[k] == frame_id;
                    assert(nth_parent(frames, source_id, k as nat) == frame_id);
                    assert(on_chain(frames, source_id, MAX_GRAPH_DEPTH as nat, frame_id)) by {
                        assert(k as nat <= MAX_GRAPH_DEPTH as nat && nth_parent(
                            frames,
                            source_id,
                            k as nat,
                        ) == frame_id);
                    }
                }
                return Some(frame_id);
            }
            proof {
                lemma_member_iff_on_chain(frames, source_id, src_len, frame_id);
                assert(!on_chain(frames, source_id, MAX_GRAPH_DEPTH as nat, frame_id)) by {
                    if exists|k: nat| k < src_len && nth_parent(frames, source_id, k) == frame_id {
                        let k = choose|k: nat|
                            k < src_len && nth_parent(frames, source_id, k) == frame_id;
                        assert(visited@[k as int] == frame_id);
                        assert(false);
                    }
                }
            }
            let frame_cache = &self.frames[frame_id as usize];
            let frame_parent = match frame_cache.get_latest_timestamp_and_parent() {
                Some(x) => x.1,
                None => 0,
            };
            proof {
                assert(walk_step(frames, frame_id) == frame_parent);
                assert(nth_parent(frames, target_id, (depth + 1) as nat) == walk_step(
                    frames,
                    nth_parent(frames, target_id, depth as nat),
                ));
                lemma_nth_parent_in_bounds(frames, target_id, (depth + 1) as nat);
            }
            frame_id = frame_parent;
            depth += 1;
            if depth > MAX_GRAPH_DEPTH {
                return None;
            }
        }
        None
    }
}


impl BufferCore {
    /// The common validity interval of two frames: the intersection of the
    /// running stamp bounds along the two walks to their meet point (see
    /// `common_bounds_spec`). `None` for the root, an unknown frame, a
    /// walk that exceeds the depth cap, or chains that never meet.
    pub fn get_common_time_bounds(
        &self,
        target_id: CompactFrameID,
        source_id: CompactFrameID,
    ) -> (r: Option<(u64, u64)>)
        requires
            self.wf(),
        ensures
            r == common_bounds_spec(self.frames@, target_id, source_id),
    {
        let ghost frames = self.frames@;
        if target_id == 0 || source_id == 0 {
            return None;
        }
        if target_id == source_id {
            if target_id as usize >= self.frames.len() {
                return None;
            }
            let cache = &self.frames[target_id as usize];
            return match cache.get_latest_timestamp() {
                Some(l) => match cache.get_oldest_timestamp() {
                    Some(o) => Some((o, l)),
                    None => None,
                },
                None => None,
            };
        }
        if source_id as usize >= self.frames.len() {
            return None;
        }

        // Walk the source chain toward the root, remembering each frame
        // with the bounds of the path leading up to it.
        let mut visited: Vec<(CompactFrameID, u64, u64)> = Vec::new();
        let mut frame_id = source_id;
        let mut depth: usize = 0;
        let mut path_oldest: u64 = 0;
        let mut path_latest: u64 = u64::MAX;
        while frame_id != 0
            invariant
                self.wf(),
                frames == self.frames@,
                target_id != 0,
                source_id != 0,
                target_id != source_id,
                source_id < frames.len(),
                depth <= MAX_GRAPH_DEPTH,
                frame_id == nth_parent(frames, source_id, depth as nat),
                frame_id < frames.len(),
                path_oldest == chain_oldest(frames, source_id, depth as nat),
                path_latest == chain_latest(frames, source_id, depth as nat),
                visited@.len() == depth,
                forall|k: int|
                    0 <= k < depth ==> visited@[k] == (
                        nth_parent(frames, source_id, k as nat),
                        chain_oldest(frames, source_id, k as nat),
                        chain_latest(frames, source_id, k as nat),
                    ),
                forall|k: nat| k < depth as nat ==> nth_parent(frames, source_id, k) != target_id,
            decreases MAX_GRAPH_DEPTH - depth,
        {
            let frame_cache = &self.frames[frame_id as usize];
            let (frame_latest, frame_parent) = match frame_cache.get_latest_timestamp_and_parent() {
                Some(x) => x,
                None => (path_latest, 0),
            };
            let frame_oldest = match frame_cache.get_oldest_timestamp() {
                Some(t) => t,
                None => 0,
            };
            if frame_id == target_id {
                proof {
                    assert(on_chain(frames, source_id, MAX_GRAPH_DEPTH as nat, target_id)) by {
                        assert(depth as nat <= MAX_GRAPH_DEPTH as nat && nth_parent(
                            frames,
                            source_id,
                            depth as nat,
                        ) == target_id);
                    }
                    lemma_chain_index_of(
                        frames,
                        source_id,
                        target_id,
                        depth as nat,
                        MAX_GRAPH_DEPTH as nat,
                    );
                }
                return Some((path_oldest, path_latest));
            }
            visited.push((frame_id, path_oldest, path_latest));
            proof {
                assert(walk_step(frames, frame_id) == frame_parent);
                assert(nth_parent(frames, source_id, (depth + 1) as nat) == walk_step(
                    frames,
                    nth_parent(frames, source_id, depth as nat),
                ));
                lemma_nth_parent_in_bounds(frames, source_id, (depth + 1) as nat);
                assert(frame_oldest_contrib(frames, frame_id) == frame_oldest);
                assert(chain_oldest(frames, source_id, (depth + 1) as nat) == max_u64(
                    path_oldest,
                    frame_oldest,
                ));
                assert(chain_latest(frames, source_id, (depth + 1) as nat) == min_u64(
                    path_latest,
                    frame_latest_contrib(frames, frame_id),
                ));
                if depth == MAX_GRAPH_DEPTH {
                    assert(nth_parent(frames, source_id, MAX_GRAPH_DEPTH as nat) != 0);
                }
            }
            path_latest = if frame_latest < path_latest {
                frame_latest
            } else {
                path_latest
            };
            path_oldest = if frame_oldest > path_oldest {
                frame_oldest
            } else {
                path_oldest
            };
            frame_id = frame_parent;
            depth += 1;
            if depth > MAX_GRAPH_DEPTH {
                proof {
                    assert(!on_chain(frames, source_id, MAX_GRAPH_DEPTH as nat, target_id)) by {
                        if on_chain(frames, source_id, MAX_GRAPH_DEPTH as nat, target_id) {
                            let k = choose|k: nat|
                                k <= MAX_GRAPH_DEPTH as nat && nth_parent(frames, source_id, k)
                                    == target_id;
                            assert(k < depth as nat);
                            assert(false);
                        }
                    }
                }
                return None;
            }
        }
        let ghost src_len = depth as nat;
        proof {
            assert(nth_parent(frames, source_id, src_len) == 0);
            lemma_nth_parent_stable(frames, source_id, src_len, MAX_GRAPH_DEPTH as nat);
            assert(!on_chain(frames, source_id, MAX_GRAPH_DEPTH as nat, target_id)) by {
                lemma_member_iff_on_chain(frames, source_id, src_len, target_id);
                if exists|k: nat| k < src_len && nth_parent(frames, source_id, k) == target_id {
                    let k = choose|k: nat|
                        k < src_len && nth_parent(frames, source_id, k) == target_id;
                    assert(false);
                }
            }
        }
        if target_id as usize >= self.frames.len() {
            return None;
        }

        // Walk the target chain; the first frame already seen on the source
        // walk closes the interval.
        let mut frame_id = target_id;
        let mut depth: usize = 0;
        let mut path_oldest: u64 = 0;
        let mut path_latest: u64 = u64::MAX;
        while frame_id != 0
            invariant
                self.wf(),
                frames == self.frames@,
                target_id != 0,
                source_id != 0,
                target_id != source_id,
                source_id < frames.len(),
                target_id < frames.len(),
                src_len <= MAX_GRAPH_DEPTH as nat,
                nth_parent(frames, source_id, src_len) == 0,
                !on_chain(frames, source_id, MAX_GRAPH_DEPTH as nat, target_id),
                visited@.len() == src_len,
                forall|k: int|
                    0 <= k < src_len ==> visited@[k] == (
                        nth_parent(frames, source_id, k as nat),
                        chain_oldest(frames, source_id, k as nat),
                        chain_latest(frames, source_id, k as nat),
                    ),
                depth <= MAX_GRAPH_DEPTH,
                frame_id == nth_parent(frames, target_id, depth as nat),
                frame_id < frames.len(),
                path_oldest == chain_oldest(frames, target_id, depth as nat),
                path_latest == chain_latest(frames, target_id, depth as nat),
                forall|j: nat|
                    j < depth as nat ==> nth_parent(frames, target_id, j) != 0 && !on_chain(
                        frames,
                        source_id,
                        MAX_GRAPH_DEPTH as nat,
                        nth_parent(frames, target_id, j),
                    ),
                meet_from(frames, source_id, target_id, MAX_GRAPH_DEPTH as nat) == meet_from(
                    frames,
                    source_id,
                    frame_id,
                    (MAX_GRAPH_DEPTH - depth) as nat,
                ),
            decreases MAX_GRAPH_DEPTH - depth,
        {
            match find_visited(&visited, frame_id) {
                Some((m, src_oldest, src_latest)) => {
                    proof {
                        lemma_nth_parent_stable(frames, source_id, src_len, MAX_GRAPH_DEPTH as nat);
                        assert(visited@[m as int] == (
                            nth_parent(frames, source_id, m as nat),
                            chain_oldest(frames, source_id, m as nat),
                            chain_latest(frames, source_id, m as nat),
                        ));
                        assert(nth_parent(frames, source_id, m as nat) == frame_id);
                        assert(on_chain(frames, source_id, MAX_GRAPH_DEPTH as nat, frame_id)) by {
                            assert(m as nat <= MAX_GRAPH_DEPTH as nat && nth_parent(
                                frames,
                                source_id,
                                m as nat,
                            ) == frame_id);
                        }
                        assert(meet_from(
                            frames,
                            source_id,
                            frame_id,
                            (MAX_GRAPH_DEPTH - depth) as nat,
                        ) == Some(frame_id));
                        assert forall|k: nat| k < m as nat implies nth_parent(
                            frames,
                            source_id,
                            k,
                        ) != frame_id by {
                            assert(visited@[k as int].0 != frame_id);
                        }
                        lemma_chain_index_of(
                            frames,
                            source_id,
                            frame_id,
                            m as nat,
                            MAX_GRAPH_DEPTH as nat,
                        );
                        assert forall|k: nat| k < depth as nat implies nth_parent(
                            frames,
                            target_id,
                            k,
                        ) != frame_id by {
                            if nth_parent(frames, target_id, k) == frame_id {
                                assert(!on_chain(
                                    frames,
                                    source_id,
                                    MAX_GRAPH_DEPTH as nat,
                                    nth_parent(frames, target_id, k),
                                ));
                            }
                        }
                        lemma_chain_index_of(
                            frames,
                            target_id,
                            frame_id,
                            depth as nat,
                            MAX_GRAPH_DEPTH as nat,
                        );
                    }
                    let lower = if path_oldest > src_oldest {
                        path_oldest
                    } else {
                        src_oldest
                    };
                    let upper = if path_latest < src_latest {
                        path_latest
                    } else {
                        src_latest
                    };
                    return Some((lower, upper));
                },
                None => {},
            }
            proof {
                lemma_member_iff_on_chain(frames, source_id, src_len, frame_id);
                assert(!on_chain(frames, source_id, MAX_GRAPH_DEPTH as nat, frame_id)) by {
                    if exists|k: nat| k < src_len && nth_parent(frames, source_id, k) == frame_id {
                        let k = choose|k: nat|
                            k < src_len && nth_parent(frames, source_id, k) == frame_id;
                        assert(visited@[k as int].0 == frame_id);
                        assert(false);
                    }
                }
            }
            let frame_cache = &self.frames[frame_id as usize];
            let (frame_latest, frame_parent) = match frame_cache.get_latest_timestamp_and_parent() {
                Some(x) => x,
                None => (path_latest, 0),
            };
            let frame_oldest = match frame_cache.get_oldest_timestamp() {
                Some(t) => t,
                None => 0,
            };
            proof {
                assert(walk_step(frames, frame_id) == frame_parent);
                assert(nth_parent(frames, target_id, (depth + 1) as nat) == walk_step(
                    frames,
                    nth_parent(frames, target_id, depth as nat),
                ));
                lemma_nth_parent_in_bounds(frames, target_id, (depth + 1) as nat);
                assert(frame_oldest_contrib(frames, frame_id) == frame_oldest);
                assert(chain_oldest(frames, target_id, (depth + 1) as nat) == max_u64(
                    path_oldest,
                    frame_oldest,
                ));
                assert(chain_latest(frames, target_id, (depth + 1) as nat) == min_u64(
                    path_latest,
                    frame_latest_contrib(frames, frame_id),
                ));
            }
            path_latest = if frame_latest < path_latest {
                frame_latest
            } else {
                path_latest
            };
            path_oldest = if frame_oldest > path_oldest {
                frame_oldest
            } else {
                path_oldest
            };
            frame_id = frame_parent;
            depth += 1;
            if depth > MAX_GRAPH_DEPTH {
                return None;
            }
        }
        None
    }

    /// True when both the target and the source can be related to the
    /// fixed frame with a common validity interval that contains `time`.
    /// Any unknown frame gives false. The names are looked up as given,
    /// without slash stripping.
    pub fn can_transform(
        &self,
        target_frame: &str,
        source_frame: &str,
        fixed_frame: &str,
        time: u64,
    ) -> (r: bool)
        requires
            self.wf(),
        ensures
            r == self.spec_can_transform(target_frame@, source_frame@, fixed_frame@, time),
    {
        let target_id = match self.lookup_frame_number(target_frame) {
            Some(id) => id,
            None => {
                return false;
            },
        };
        let source_id = match self.lookup_frame_number(source_frame) {
            Some(id) => id,
            None => {
                return false;
            },
        };
        let fixed_id = match self.lookup_frame_number(fixed_frame) {
            Some(id) => id,
            None => {
                return false;
            },
        };
        match self.get_common_time_bounds(target_id, fixed_id) {
            Some(bounds) => {
                if bounds.0 > time || time > bounds.1 {
                    return false;
                }
            },
            None => {
                return false;
            },
        }
        match self.get_common_time_bounds(fixed_id, source_id) {
            Some(bounds) => {
                if bounds.0 > time || time > bounds.1 {
                    return false;
                }
            },
            None => {
                return false;
            },
        }
        true
    }

    /// Whether `can_transform` holds, stated over the registry and the
    /// common validity intervals.
    pub open spec fn spec_can_transform(
        &self,
        target: Seq<char>,
        source: Seq<char>,
        fixed: Seq<char>,
        time: u64,
    ) -> bool {
        match (
            self.spec_lookup_frame_number(target),
            self.spec_lookup_frame_number(source),
            self.spec_lookup_frame_number(fixed),
        ) {
            (Some(t), Some(s), Some(f)) => match common_bounds_spec(self.frames@, t, f) {
                Some(b) => b.0 <= time <= b.1 && match common_bounds_spec(self.frames@, f, s) {
                    Some(b2) => b2.0 <= time <= b2.1,
                    None => false,
                },
                None => false,
            },
            _ => false,
        }
    }
}


/// The chain of cache reads from `id` up to `stop`, each read at `time`,
/// the walk advancing to the parent the read surfaces. A read error is
/// propagated; running out of `fuel` before reaching `stop` is the
/// unknown-relation error for the `(target, source)` pair.
pub open spec fn walk_chain(
    frames: Seq<FrameCache>,
    id: CompactFrameID,
    stop: CompactFrameID,
    time: u64,
    fuel: nat,
    target: CompactFrameID,
    source: CompactFrameID,
) -> Result<Seq<CacheRead>, TF2Error>
    decreases fuel,
{
    if id == stop {
        Ok(Seq::empty())
    } else if fuel == 0 {
        Err(TF2Error::UnknownRelationBetweenFrames(target, source))
    } else {
        match frames[id as int].spec_lookup(time) {
            Ok(step) => match walk_chain(
                frames,
                step.spec_frame_id(),
                stop,
                time,
                (fuel - 1) as nat,
                target,
                source,
            ) {
                Ok(rest) => Ok(seq![step] + rest),
                Err(e) => Err(e),
            },
            Err(e) => Err(e),
        }
    }
}

/// The outcome of the tree walk between two resolved frames: the two step
/// chains, the ending rule and the resolved stamp, or the error that
/// aborts it. Time 0 is first replaced by the upper end of the common
/// validity interval.
pub open spec fn walk_spec(
    frames: Seq<FrameCache>,
    time: u64,
    target: CompactFrameID,
    source: CompactFrameID,
) -> Result<(Seq<CacheRead>, Seq<CacheRead>, WalkEnding, u64), TF2Error> {
    if source == target {
        Ok((Seq::empty(), Seq::empty(), WalkEnding::Identity, time))
    } else if time == 0 && common_bounds_spec(frames, target, source) is None {
        Err(TF2Error::UnknownRelationBetweenFrames(target, source))
    } else {
        let t = if time == 0 {
            common_bounds_spec(frames, target, source).unwrap().1
        } else {
            time
        };
        match lca_spec(frames, target, source) {
            None => Err(TF2Error::UnknownRelationBetweenFrames(target, source)),
            Some(parent) => match walk_chain(
                frames,
                source,
                parent,
                t,
                MAX_GRAPH_DEPTH as nat,
                target,
                source,
            ) {
                Err(e) => Err(e),
                Ok(source_steps) => match walk_chain(
                    frames,
                    target,
                    parent,
                    t,
                    MAX_GRAPH_DEPTH as nat,
                    target,
                    source,
                ) {
                    Err(e) => Err(e),
                    Ok(target_steps) => Ok(
                        (
                            source_steps,
                            target_steps,
                            if parent == target {
                                WalkEnding::TargetParentOfSource
                            } else if parent == source {
                                WalkEnding::SourceParentOfTarget
                            } else {
                                WalkEnding::FullPath
                            },
                            t,
                        ),
                    ),
                },
            },
        }
    }
}

/// Under the buffer invariant, a successful cache read surfaces a parent
/// id that names a frame.
proof fn lemma_step_parent_in_bounds(c: FrameCache, time: u64, bound: int)
    requires
        c.wf(),
        c.parent_ids_below(bound),
        c.spec_lookup(time) is Ok,
    ensures
        c.spec_lookup(time).unwrap().spec_frame_id() < bound,
{
    match c {
        FrameCache::Temporal(tc) => {
            crate::cache::lemma_lookup_frame_id_from(tc@, time);
            let k = choose|k: int|
                0 <= k < tc@.len() && (#[trigger] tc@[k]).frame_id == crate::cache::lookup_spec(
                    tc@,
                    time,
                ).unwrap().spec_frame_id();
            assert(tc@[k].frame_id < bound);
        },
        FrameCache::Fixed(_) => {},
    }
}

impl BufferCore {
    /// Walks one side of a lookup: the chain of cache reads from `start`
    /// up to `stop`, at `time`, appended to `steps`.
    fn walk_side(
        &self,
        start: CompactFrameID,
        stop: CompactFrameID,
        time: u64,
        target_id: CompactFrameID,
        source_id: CompactFrameID,
    ) -> (r: Result<Vec<CacheRead>, TF2Error>)
        requires
            self.wf(),
            start < self.frames@.len(),
        ensures
            match walk_chain(
                self.frames@,
                start,
                stop,
                time,
                MAX_GRAPH_DEPTH as nat,
                target_id,
                source_id,
            ) {
                Ok(steps) => r matches Ok(v) && v@ == steps,
                Err(e) => r == Err::<Vec<CacheRead>, TF2Error>(e),
            },
    {
        let ghost frames = self.frames@;
        let ghost full = walk_chain(
            frames,
            start,
            stop,
            time,
            MAX_GRAPH_DEPTH as nat,
            target_id,
            source_id,
        );
        let mut steps: Vec<CacheRead> = Vec::new();
        let mut frame_id = start;
        let mut depth: usize = 0;
        proof {
            if walk_chain(frames, start, stop, time, MAX_GRAPH_DEPTH as nat, target_id, source_id)
                is Ok {
                let rest = walk_chain(
                    frames,
                    start,
                    stop,
                    time,
                    MAX_GRAPH_DEPTH as nat,
                    target_id,
                    source_id,
                ).unwrap();
                assert(Seq::<CacheRead>::empty() + rest =~= rest);
            }
        }
        while frame_id != stop
            invariant
                self.wf(),
                frames == self.frames@,
                depth <= MAX_GRAPH_DEPTH,
                frame_id < frames.len(),
                steps@.len() == depth,
                full == walk_chain(
                    frames,
                    start,
                    stop,
                    time,
                    MAX_GRAPH_DEPTH as nat,
                    target_id,
                    source_id,
                ),
                ({
                    match walk_chain(
                        frames,
                        frame_id,
                        stop,
                        time,
                        (MAX_GRAPH_DEPTH - depth) as nat,
                        target_id,
                        source_id,
                    ) {
                        Ok(rest) => full == Ok::<Seq<CacheRead>, TF2Error>(steps@ + rest),
                        Err(e) => full == Err::<Seq<CacheRead>, TF2Error>(e),
                    }
                }),
            decreases MAX_GRAPH_DEPTH - depth,
        {
            if depth == MAX_GRAPH_DEPTH {
                return Err(TF2Error::UnknownRelationBetweenFrames(target_id, source_id));
            }
            let step = match self.frames[frame_id as usize].get_data(time) {
                Ok(s) => s,
                Err(e) => {
                    return Err(e);
                },
            };
            proof {
                lemma_step_parent_in_bounds(
                    frames[frame_id as int],
                    time,
                    frames.len() as int,
                );
                let fuel = (MAX_GRAPH_DEPTH - depth) as nat;
                let next = step.spec_frame_id();
                assert(frames[frame_id as int].spec_lookup(time) == Ok::<CacheRead, TF2Error>(
                    step,
                ));
                assert(walk_chain(frames, frame_id, stop, time, fuel, target_id, source_id)
                    == match walk_chain(
                    frames,
                    next,
                    stop,
                    time,
                    (fuel - 1) as nat,
                    target_id,
                    source_id,
                ) {
                    Ok(rest) => Ok::<Seq<CacheRead>, TF2Error>(seq![step] + rest),
                    Err(e) => Err::<Seq<CacheRead>, TF2Error>(e),
                });
                if walk_chain(frames, next, stop, time, (fuel - 1) as nat, target_id, source_id)
                    is Ok {
                    let rest = walk_chain(
                        frames,
                        next,
                        stop,
                        time,
                        (fuel - 1) as nat,
                        target_id,
                        source_id,
                    ).unwrap();
                    assert(steps@.push(step) + rest =~= steps@ + (seq![step] + rest));
                }
            }
            steps.push(step);
            frame_id = step.frame_id();
            depth += 1;
        }
        proof {
            assert(steps@ + Seq::<CacheRead>::empty() =~= steps@);
        }
        Ok(steps)
    }

    /// The tree walk between two resolved frames: finds the shared
    /// ancestor, reads each hop's cache at `time` (with time 0 first
    /// replaced by the newest commonly valid stamp), and returns the
    /// composition plan, stamped with the resolved time and the two ids.
    fn walk_to_top_parent(
        &self,
        time: u64,
        target_id: CompactFrameID,
        source_id: CompactFrameID,
    ) -> (r: Result<TransformPlan, TF2Error>)
        requires
            self.wf(),
            target_id < self.frames@.len(),
            source_id < self.frames@.len(),
        ensures
            match walk_spec(self.frames@, time, target_id, source_id) {
                Ok(parts) => {
                    &&& r matches Ok(plan)
                    &&& plan.source_steps@ == parts.0
                    &&& plan.target_steps@ == parts.1
                    &&& plan.ending == parts.2
                    &&& plan.stamp == parts.3
                    &&& plan.target_id == target_id
                    &&& plan.source_id == source_id
                },
                Err(e) => r == Err::<TransformPlan, TF2Error>(e),
            },
    {
        if source_id == target_id {
            return Ok(TransformPlan {
                source_steps: Vec::new(),
                target_steps: Vec::new(),
                ending: WalkEnding::Identity,
                stamp: time,
                target_id,
                source_id,
            });
        }

        let time = if time == 0 {
            match self.get_common_time_bounds(target_id, source_id) {
                Some(bounds) => bounds.1,
                None => {
                    return Err(TF2Error::UnknownRelationBetweenFrames(target_id, source_id));
                },
            }
        } else {
            time
        };

        let parent_frame = match self.get_closest_shared_ancestor(target_id, source_id) {
            Some(p) => p,
            None => {
                return Err(TF2Error::UnknownRelationBetweenFrames(target_id, source_id));
            },
        };

        let source_steps = match self.walk_side(source_id, parent_frame, time, target_id, source_id)
            {
            Ok(v) => v,
            Err(e) => {
                return Err(e);
            },
        };
        let target_steps = match self.walk_side(target_id, parent_frame, time, target_id, source_id)
            {
            Ok(v) => v,
            Err(e) => {
                return Err(e);
            },
        };

        let ending = if parent_frame == target_id {
            WalkEnding::TargetParentOfSource
        } else if parent_frame == source_id {
            WalkEnding::SourceParentOfTarget
        } else {
            WalkEnding::FullPath
        };

        Ok(TransformPlan { source_steps, target_steps, ending, stamp: time, target_id, source_id })
    }

    /// True when a lookup between these names at this time yields a plan
    /// rather than an error.
    pub open spec fn spec_lookup_succeeds(
        &self,
        target: Seq<char>,
        source: Seq<char>,
        time: u64,
    ) -> bool {
        match self.spec_lookup_frame_number(target) {
            None => false,
            Some(tid) => if target == source {
                true
            } else {
                match self.spec_lookup_frame_number(source) {
                    None => false,
                    Some(sid) => walk_spec(self.frames@, time, tid, sid) is Ok,
                }
            },
        }
    }

    /// What a lookup between these names at this time must return: the
    /// unknown-name errors, the identity plan for one and the same name
    /// (stamped with the time, or the frame's newest stamp — or 0 — for a
    /// latest-time query), or the outcome of the tree walk.
    pub open spec fn lookup_outcome_matches(
        &self,
        target: Seq<char>,
        source: Seq<char>,
        time: u64,
        r: Result<TransformPlan, TF2Error>,
    ) -> bool {
        match self.spec_lookup_frame_number(target) {
            None => r matches Err(TF2Error::UnknownFrameID(n)) && n@ == target,
            Some(tid) => if target == source {
                &&& r matches Ok(plan)
                &&& plan.spec_is_identity()
                &&& plan.target_id == tid
                &&& plan.source_id == tid
                &&& plan.stamp == (if time != 0 {
                    time
                } else {
                    match self.frames@[tid as int].spec_latest_timestamp() {
                        Some(l) => l,
                        None => 0u64,
                    }
                })
            } else {
                match self.spec_lookup_frame_number(source) {
                    None => r matches Err(TF2Error::UnknownFrameID(n)) && n@ == source,
                    Some(sid) => match walk_spec(self.frames@, time, tid, sid) {
                        Ok(parts) => {
                            &&& r matches Ok(plan)
                            &&& plan.source_steps@ == parts.0
                            &&& plan.target_steps@ == parts.1
                            &&& plan.ending == parts.2
                            &&& plan.stamp == parts.3
                            &&& plan.target_id == tid
                            &&& plan.source_id == sid
                        },
                        Err(e) => r == Err::<TransformPlan, TF2Error>(e),
                    },
                }
            },
        }
    }

    /// Looks up the transform from `source_frame` to `target_frame` at
    /// `time` (0 meaning: the newest commonly valid stamp) and returns the
    /// composition plan for it, or the error that makes it impossible.
    /// Names are looked up as given, without slash stripping.
    pub fn lookup_transform(&self, target_frame: &str, source_frame: &str, time: u64) -> (r: Result<
        TransformPlan,
        TF2Error,
    >)
        requires
            self.wf(),
        ensures
            self.lookup_outcome_matches(target_frame@, source_frame@, time, r),
    {
        let target_id = match self.lookup_frame_number(target_frame) {
            Some(id) => id,
            None => {
                return Err(TF2Error::UnknownFrameID(target_frame.to_owned()));
            },
        };
        if str_eq(target_frame, source_frame) {
            let stamp = if time == 0 {
                match self.frames[target_id as usize].get_latest_timestamp() {
                    Some(l) => l,
                    None => 0,
                }
            } else {
                time
            };
            return Ok(TransformPlan {
                source_steps: Vec::new(),
                target_steps: Vec::new(),
                ending: WalkEnding::Identity,
                stamp,
                target_id,
                source_id: target_id,
            });
        }
        let source_id = match self.lookup_frame_number(source_frame) {
            Some(id) => id,
            None => {
                return Err(TF2Error::UnknownFrameID(source_frame.to_owned()));
            },
        };
        self.walk_to_top_parent(time, target_id, source_id)
    }

    /// A two-time lookup through a fixed reference frame: the plan of
    /// `target <- fixed` at `target_time` and the plan of `fixed <- source`
    /// at `source_time`, composed by the consumer and restamped with the
    /// target time. The first failing lookup aborts with its error.
    pub fn lookup_transform_full(
        &self,
        target_frame: &str,
        target_time: u64,
        source_frame: &str,
        source_time: u64,
        fixed_frame: &str,
    ) -> (r: Result<FullLookupPlan, TF2Error>)
        requires
            self.wf(),
        ensures
            r matches Ok(full) ==> {
                &&& self.lookup_outcome_matches(
                    target_frame@,
                    fixed_frame@,
                    target_time,
                    Ok(full.fixed_to_target),
                )
                &&& self.lookup_outcome_matches(
                    fixed_frame@,
                    source_frame@,
                    source_time,
                    Ok(full.source_to_fixed),
                )
                &&& full.stamp == target_time
            },
            r matches Err(e) ==> {
                ||| self.lookup_outcome_matches(
                    target_frame@,
                    fixed_frame@,
                    target_time,
                    Err(e),
                )
                ||| {
                    &&& self.spec_lookup_succeeds(target_frame@, fixed_frame@, target_time)
                    &&& self.lookup_outcome_matches(
                        fixed_frame@,
                        source_frame@,
                        source_time,
                        Err(e),
                    )
                }
            },
    {
        let fixed_to_target = match self.lookup_transform(target_frame, fixed_frame, target_time) {
            Ok(plan) => plan,
            Err(e) => {
                return Err(e);
            },
        };
        let source_to_fixed = match self.lookup_transform(fixed_frame, source_frame, source_time) {
            Ok(plan) => plan,
            Err(e) => {
                return Err(e);
            },
        };
        Ok(FullLookupPlan { source_to_fixed, fixed_to_target, stamp: target_time })
    }
}


/// The registry-integrity law: under the invariant, resolving the stored
/// name of any id yields exactly that id, so name-to-id and id-to-name are
/// mutually inverse bijections on the live ids.
pub proof fn lemma_registry_bijective(bc: BufferCore, i: int)
    requires
        bc.wf(),
        0 <= i < bc.id_to_frame@.len(),
    ensures
        bc.spec_lookup_frame_number(bc.id_to_frame@[i]@) == Some(i as CompactFrameID),
{
    let name = bc.id_to_frame@[i]@;
    assert(bc.spec_has_frame(name));
    let j = bc.spec_frame_index(name);
    if j != i {
        assert(bc.id_to_frame@[j]@ != bc.id_to_frame@[i]@);
    }
}

} // verus!
