//! The outcome of a transform query: a fully determined composition plan.
//!
//! The buffer's walks decide everything discrete about a lookup — which
//! cache is read at which time, which records take part, whether a pair
//! must be interpolated, how the two chains are folded together — and put
//! those decisions into a [`TransformPlan`]. What remains is pure
//! quaternion and vector arithmetic on the opaque payloads, which the
//! consumer of the plan performs:
//!
//! * resolve each step: an `Exact` step is its record, an `Interpolate`
//!   step is the pair blended at its time (translation linearly, rotation
//!   by shortest-arc slerp, with `alpha = (time - older.stamp) /
//!   (newer.stamp - older.stamp)`), the ids taken from `older` and the
//!   stamp from `time`;
//! * fold each side in order, starting from the identity, by
//!   `translation = rotate(step, acc.translation) + step.translation` and
//!   `rotation = step.rotation * acc.rotation`;
//! * finish by the ending: the source side as is, the inverse of the
//!   target side, or the inverse of the target side composed with the
//!   source side;
//! * stamp the result with `stamp` and the pair `(target_id, source_id)`.

use vstd::prelude::*;

use crate::cache::CacheRead;
use crate::transform_storage::CompactFrameID;

verus! {

/// How the two accumulated chains combine into the final transform.
#[derive(Debug, Clone, Copy, PartialEq, Eq, Structural)]
pub enum WalkEnding {
    /// Target and source are one frame: the result is the identity.
    Identity,
    /// The target is the shared ancestor: the source chain as is.
    TargetParentOfSource,
    /// The source is the shared ancestor: the inverse of the target chain.
    SourceParentOfTarget,
    /// Both chains are non-trivial: the inverse of the target chain
    /// composed with the source chain.
    FullPath,
}

/// A resolved lookup: the cache reads of the source-to-ancestor and
/// target-to-ancestor chains, in walk order, with the ending rule, the
/// stamp of the result and the ids it relates.
#[derive(Debug, Clone)]
pub struct TransformPlan {
    pub source_steps: Vec<CacheRead>,
    pub target_steps: Vec<CacheRead>,
    pub ending: WalkEnding,
    pub stamp: u64,
    pub target_id: CompactFrameID,
    pub source_id: CompactFrameID,
}

impl TransformPlan {
    /// True when the plan composes no real transform at all: both chains
    /// are empty and the ending is the identity rule.
    pub open spec fn spec_is_identity(&self) -> bool {
        self.source_steps@.len() == 0 && self.target_steps@.len() == 0 && self.ending
            == WalkEnding::Identity
    }

    /// True when the plan composes no real transform at all.
    pub fn is_identity(&self) -> (r: bool)
        ensures
            r == self.spec_is_identity(),
    {
        self.source_steps.len() == 0 && self.target_steps.len() == 0 && matches!(
            self.ending,
            WalkEnding::Identity,
        )
    }
}

/// A two-time lookup through a fixed frame: resolve both plans, compose
/// the resolved source-to-fixed transform with the resolved
/// fixed-to-target transform, and restamp the result with `stamp`.
#[derive(Debug, Clone)]
pub struct FullLookupPlan {
    pub source_to_fixed: TransformPlan,
    pub fixed_to_target: TransformPlan,
    pub stamp: u64,
}

} // verus!
