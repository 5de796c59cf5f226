use nalgebra::{Quaternion, UnitQuaternion, Vector3};

use tf_buffer::buffer_core::{BufferCore, TransformInput, MAX_GRAPH_DEPTH};
use tf_buffer::cache::CacheRead;
use tf_buffer::error::TF2Error;
use tf_buffer::transform_plan::{TransformPlan, WalkEnding};
use tf_buffer::transform_storage::{QuatBits, Vec3Bits};

fn identity_input(stamp: u64, frame_id: &str, child_frame_id: &str) -> TransformInput {
    TransformInput {
        rotation: QuatBits {
            x: 0f64.to_bits(),
            y: 0f64.to_bits(),
            z: 0f64.to_bits(),
            w: 1f64.to_bits(),
        },
        translation: Vec3Bits { x: 0f64.to_bits(), y: 0f64.to_bits(), z: 0f64.to_bits() },
        stamp,
        frame_id: frame_id.to_string(),
        child_frame_id: child_frame_id.to_string(),
    }
}

fn quat_of(b: &QuatBits) -> UnitQuaternion<f64> {
    UnitQuaternion::from_quaternion(Quaternion::new(
        f64::from_bits(b.w),
        f64::from_bits(b.x),
        f64::from_bits(b.y),
        f64::from_bits(b.z),
    ))
}

fn vec_of(t: &Vec3Bits) -> Vector3<f64> {
    Vector3::new(f64::from_bits(t.x), f64::from_bits(t.y), f64::from_bits(t.z))
}

fn resolve_step(step: &CacheRead) -> (Vector3<f64>, UnitQuaternion<f64>) {
    match step {
        CacheRead::Exact(r) => (vec_of(&r.translation), quat_of(&r.rotation)),
        CacheRead::Interpolate { older, newer, time } => {
            let alpha =
                (*time as f64 - older.stamp as f64) / (newer.stamp as f64 - older.stamp as f64);
            let translation =
                (1.0 - alpha) * vec_of(&older.translation) + alpha * vec_of(&newer.translation);
            let rotation = quat_of(&older.rotation).slerp(&quat_of(&newer.rotation), alpha);
            (translation, rotation)
        }
    }
}

/// Folds a plan into the final translation and rotation, as the plan's
/// consumer is meant to.
fn resolve_plan(plan: &TransformPlan) -> (Vector3<f64>, UnitQuaternion<f64>) {
    let mut source_vec = Vector3::zeros();
    let mut source_quat = UnitQuaternion::identity();
    for step in &plan.source_steps {
        let (v, q) = resolve_step(step);
        source_vec = q * source_vec + v;
        source_quat = q * source_quat;
    }
    let mut target_vec = Vector3::zeros();
    let mut target_quat = UnitQuaternion::identity();
    for step in &plan.target_steps {
        let (v, q) = resolve_step(step);
        target_vec = q * target_vec + v;
        target_quat = q * target_quat;
    }
    match plan.ending {
        WalkEnding::Identity => (Vector3::zeros(), UnitQuaternion::identity()),
        WalkEnding::TargetParentOfSource => (source_vec, source_quat),
        WalkEnding::SourceParentOfTarget => {
            let inv_quat = target_quat.inverse();
            (inv_quat * (-target_vec), inv_quat)
        }
        WalkEnding::FullPath => {
            let inv_quat = target_quat.inverse();
            let inv_vec = inv_quat * (-target_vec);
            (inv_quat * source_vec + inv_vec, inv_quat * source_quat)
        }
    }
}

fn assert_identity_plan(plan: &TransformPlan, stamp: u64, target_id: u32, source_id: u32) {
    assert_eq!(plan.stamp, stamp);
    assert_eq!(plan.target_id, target_id);
    assert_eq!(plan.source_id, source_id);
    let (translation, rotation) = resolve_plan(plan);
    assert!(translation.norm() <= 1e-9);
    assert!(rotation.angle() <= 1e-9);
}

fn fake_buffer_core() -> BufferCore {
    BufferCore::new(10)
}

#[test]
fn test_new() {
    for i in [1, 50, u64::MAX] {
        let buffer_core = BufferCore::new(i);

        // Assert assignment of var is correct.
        assert_eq!(buffer_core.get_cache_length(), i);

        // Verify integrity.
        assert_eq!(buffer_core.frames.len(), 1);
        assert_eq!(buffer_core.id_to_frame.len(), buffer_core.frames.len());
        assert_eq!(buffer_core.frame_authority.len(), buffer_core.frames.len());
        assert_eq!(buffer_core.id_to_frame[0], "NO_PARENT");
    }
}

#[test]
fn test_get_or_insert_new_frame() {
    let mut bc = fake_buffer_core();
    let mut frame_count = 1; // Init root frame w/ no parents.

    // First insertion.
    bc.get_or_insert_new_frame("frame1", false);
    assert_eq!(bc.id_to_frame.len(), frame_count + 1);
    assert!(bc.lookup_frame_number("frame1").is_some());
    frame_count += 1;

    // Re-insert.
    bc.get_or_insert_new_frame("frame1", false);
    assert_eq!(bc.id_to_frame.len(), frame_count);

    // Re-insert w/ starting "/".
    bc.get_or_insert_new_frame("/frame1", false);
    assert_eq!(bc.id_to_frame.len(), frame_count);

    // New insertion.
    bc.get_or_insert_new_frame("frame2", true);
    assert_eq!(bc.id_to_frame.len(), frame_count + 1);
    assert!(bc.lookup_frame_number("frame2").is_some());
    frame_count += 1;

    // Re-insert first frame.
    bc.get_or_insert_new_frame("frame1", false);
    assert_eq!(bc.id_to_frame.len(), frame_count);

    // Insert a bunch of new frames.
    for i in 10..15 {
        let key = format!("frame{}", i);
        bc.get_or_insert_new_frame(key.as_str(), false);
        assert_eq!(bc.id_to_frame.len(), frame_count + 1);
        assert!(bc.lookup_frame_number(key.as_str()).is_some());
        frame_count += 1;
    }
    // Insert a bunch of static frames.
    for i in 10..15 {
        let key = format!("frame-static-{}", i);
        bc.get_or_insert_new_frame(key.as_str(), true);
        assert_eq!(bc.id_to_frame.len(), frame_count + 1);
        assert!(bc.lookup_frame_number(key.as_str()).is_some());
        frame_count += 1;
    }

    // Colliding static. Since frame already exists, is_static is ignored.
    bc.get_or_insert_new_frame("frame1", true);
    assert_eq!(bc.id_to_frame.len(), frame_count);

    // Empty string.
    bc.get_or_insert_new_frame("", true);
    assert!(bc.lookup_frame_number("").is_some());
    frame_count += 1;

    // Just a slash strips down to the empty name seen above.
    bc.get_or_insert_new_frame("/", true);
    assert_eq!(bc.id_to_frame.len(), frame_count);
}

#[test]
fn test_set_transform() {
    let mut bc = fake_buffer_core();
    let mut num_frames = 1;

    // Simple insertion.
    let transform = identity_input(0, "parent", "child");
    let result = bc.set_transform(&transform, "", false);
    assert!(!result.is_err(), "Set transform failed with {result:?}");
    // Verify that child frame is present in the map.
    assert!(bc.lookup_frame_number("child").is_some());
    assert_eq!(bc.id_to_frame.len(), num_frames + 2);
    num_frames += 2;

    // Repeat insertion.
    let result = bc.set_transform(&transform, "", false);
    assert!(!result.is_err(), "Set transform failed with {result:?}");
    // No new frame added.
    assert_eq!(bc.id_to_frame.len(), num_frames);

    // Insert a new child frame.
    let transform = identity_input(0, "parent", "child2");
    let result = bc.set_transform(&transform, "", false);
    assert!(!result.is_err(), "Set transform failed with {result:?}");
    assert!(bc.lookup_frame_number("child2").is_some());
    assert_eq!(bc.id_to_frame.len(), num_frames + 1);
    num_frames += 1;

    // Reinsert first frame.
    let transform = identity_input(0, "parent", "child");
    let result = bc.set_transform(&transform, "", false);
    assert!(!result.is_err(), "Set transform failed with {result:?}");
    assert_eq!(bc.id_to_frame.len(), num_frames);

    // Verify that static doesn't matter on re-insert.
    let transform = identity_input(0, "parent", "child");
    let result = bc.set_transform(&transform, "", true);
    assert!(!result.is_err(), "Set transform failed with {result:?}");
    assert_eq!(bc.id_to_frame.len(), num_frames);

    // Add a completely separate parent.
    let transform = identity_input(0, "parent-2", "child-2");
    let result = bc.set_transform(&transform, "", true);
    assert!(!result.is_err(), "Set transform failed with {result:?}");
    // Verify that child frame is present in the map.
    assert!(bc.lookup_frame_number("child-2").is_some());
    assert_eq!(bc.id_to_frame.len(), num_frames + 2);
    num_frames += 2;

    // Insert a top level frame as parent.
    let transform = identity_input(0, "NO_PARENT", "parent");
    let result = bc.set_transform(&transform, "", true);
    assert!(!result.is_err(), "Set transform failed with {result:?}");
    assert_eq!(bc.id_to_frame.len(), num_frames);

    // Empty frames.
    let transform = identity_input(0, "", "parent");
    let result = bc.set_transform(&transform, "a", true);
    assert_eq!(result, Err(TF2Error::EmptyFrameID("a".to_string(), "frame_id".to_string())));

    let transform = identity_input(0, "parent", "");
    let result = bc.set_transform(&transform, "a", true);
    assert_eq!(result, Err(TF2Error::EmptyFrameID("a".to_string(), "child_frame_id".to_string())));

    // Matching frame name.
    let transform = identity_input(0, "parent", "/parent");
    let result = bc.set_transform(&transform, "a", true);
    assert_eq!(result, Err(TF2Error::MatchingFrameIDs("a".to_string(), "parent".to_string())));

    // The failed ingestions left the registry untouched.
    assert_eq!(bc.id_to_frame.len(), num_frames);
}

#[test]
fn test_get_common_time_bounds() {
    let mut bc = BufferCore::new(10);
    let transform1 = identity_input(1, "a", "b1");
    bc.set_transform(&transform1, "a", false).unwrap();

    let transform2 = identity_input(1, "a", "c1");
    bc.set_transform(&transform2, "a", false).unwrap();

    let id_of = |bc: &BufferCore, name: &str| bc.lookup_frame_number(name).unwrap();

    // Common parent.
    let result = bc.get_common_time_bounds(id_of(&bc, "c1"), id_of(&bc, "b1"));
    assert_eq!(result, Some((1, 1)));

    // Slightly longer chain.
    for i in 2..5 {
        let frame_id = format!("c{}", i - 1);
        let child_frame_id = format!("c{}", i);
        let transform2 = identity_input(i, &frame_id, &child_frame_id);
        bc.set_transform(&transform2, "a", false).unwrap();
    }

    let result = bc.get_common_time_bounds(id_of(&bc, "c4"), id_of(&bc, "b1"));
    assert_eq!(result, Some((4, 1)));

    // Same frame.
    let result = bc.get_common_time_bounds(id_of(&bc, "c4"), id_of(&bc, "c4"));
    assert_eq!(result, Some((4, 4)));

    // Target is direct parent of source.
    let result = bc.get_common_time_bounds(id_of(&bc, "c3"), id_of(&bc, "c4"));
    assert_eq!(result, Some((4, 4)));

    // Target is direct child of source.
    let result = bc.get_common_time_bounds(id_of(&bc, "c4"), id_of(&bc, "c3"));
    assert_eq!(result, Some((4, 4)));

    // Target is a parent of source. Non-direct.
    let result = bc.get_common_time_bounds(id_of(&bc, "c1"), id_of(&bc, "c4"));
    assert_eq!(result, Some((4, 2)));

    // Target is a child of source. Non-direct.
    let result = bc.get_common_time_bounds(id_of(&bc, "c4"), id_of(&bc, "c1"));
    assert_eq!(result, Some((4, 2)));

    // Make a really large tree.
    for i in 5..MAX_GRAPH_DEPTH + 2 {
        let frame_id = format!("c{}", i - 1);
        let child_frame_id = format!("c{}", i);
        let transform2 = identity_input(i as u64, &frame_id, &child_frame_id);
        bc.set_transform(&transform2, "a", false).unwrap();
        let transform2 = identity_input(0, &frame_id, &child_frame_id);
        bc.set_transform(&transform2, "a", false).unwrap();
    }

    // Check with more realistic time bounds.
    let result = bc.get_common_time_bounds(id_of(&bc, "c10"), id_of(&bc, "c25"));
    assert_eq!(result, Some((0, 11)));

    // Hit the limit of the tree.
    let deep = format!("c{}", MAX_GRAPH_DEPTH + 1);
    let result = bc.get_common_time_bounds(id_of(&bc, "a"), id_of(&bc, deep.as_str()));
    assert_eq!(result, None);

    // And hit it the other way.
    let result = bc.get_common_time_bounds(id_of(&bc, deep.as_str()), id_of(&bc, "a"));
    assert_eq!(result, None);

    // Disjointed trees.
    let transform2 = identity_input(1, "a2", "d1");
    bc.set_transform(&transform2, "a", false).unwrap();
    let result = bc.get_common_time_bounds(id_of(&bc, "d1"), id_of(&bc, "b1"));
    assert_eq!(result, None);

    // Walk to the root.
    let result = bc.get_common_time_bounds(0, id_of(&bc, "b1"));
    assert_eq!(result, None);
    let result = bc.get_common_time_bounds(id_of(&bc, "b1"), 0);
    assert_eq!(result, None);
}

#[test]
fn test_lookup_transform() {
    let mut bc = BufferCore::new(10);

    let transform1 = identity_input(1, "a", "b1");
    bc.set_transform(&transform1, "a", false).unwrap();

    let transform2 = identity_input(1, "a", "c1");
    bc.set_transform(&transform2, "a", false).unwrap();

    let id_of = |bc: &BufferCore, name: &str| bc.lookup_frame_number(name).unwrap();

    // Common parent.
    let result = bc.lookup_transform("c1", "b1", 0).unwrap();
    assert_identity_plan(&result, 1, id_of(&bc, "c1"), id_of(&bc, "b1"));

    // Slightly longer chain.
    for i in 2..5 {
        let frame_id = format!("c{}", i - 1);
        let child_frame_id = format!("c{}", i);
        let transform2 = identity_input(1, &frame_id, &child_frame_id);
        bc.set_transform(&transform2, "a", false).unwrap();
    }

    let result = bc.lookup_transform("c4", "b1", 1).unwrap();
    assert_identity_plan(&result, 1, id_of(&bc, "c4"), id_of(&bc, "b1"));

    // Same frame.
    let result = bc.lookup_transform("c4", "c4", 1).unwrap();
    assert!(result.is_identity());
    assert_identity_plan(&result, 1, id_of(&bc, "c4"), id_of(&bc, "c4"));

    // Target is direct child of source.
    let result = bc.lookup_transform("c4", "c3", 1).unwrap();
    assert_identity_plan(&result, 1, id_of(&bc, "c4"), id_of(&bc, "c3"));

    // Target is direct parent of source.
    let result = bc.lookup_transform("c3", "c4", 1).unwrap();
    assert_identity_plan(&result, 1, id_of(&bc, "c3"), id_of(&bc, "c4"));

    // Target is a parent of source. Non-direct.
    let result = bc.lookup_transform("c1", "c4", 1).unwrap();
    assert_identity_plan(&result, 1, id_of(&bc, "c1"), id_of(&bc, "c4"));

    // Target is a child of source. Non-direct.
    let result = bc.lookup_transform("c4", "c1", 1).unwrap();
    assert_identity_plan(&result, 1, id_of(&bc, "c4"), id_of(&bc, "c1"));
}

#[test]
fn test_identity_lookup_latest_time() {
    let mut bc = BufferCore::new(10);
    bc.set_transform(&identity_input(7, "a", "b1"), "auth", false).unwrap();

    // A latest-time identity lookup is stamped with the frame's newest
    // sample.
    let plan = bc.lookup_transform("b1", "b1", 0).unwrap();
    assert!(plan.is_identity());
    assert_eq!(plan.stamp, 7);

    // A frame with no history of its own is stamped 0.
    let plan = bc.lookup_transform("a", "a", 0).unwrap();
    assert!(plan.is_identity());
    assert_eq!(plan.stamp, 0);

    // A non-zero time is kept as given.
    let plan = bc.lookup_transform("b1", "b1", 123).unwrap();
    assert!(plan.is_identity());
    assert_eq!(plan.stamp, 123);
}

#[test]
fn test_lookup_transform_unknown_frames() {
    let mut bc = BufferCore::new(10);
    bc.set_transform(&identity_input(1, "a", "b1"), "auth", false).unwrap();

    let result = bc.lookup_transform("nope", "b1", 1);
    assert_eq!(result.unwrap_err(), TF2Error::UnknownFrameID("nope".to_string()));

    let result = bc.lookup_transform("b1", "nope", 1);
    assert_eq!(result.unwrap_err(), TF2Error::UnknownFrameID("nope".to_string()));
}

#[test]
fn test_latest_authority_and_frame_names() {
    let mut bc = BufferCore::new(10);
    bc.set_transform(&identity_input(1, "a", "b1"), "first", false).unwrap();
    bc.set_transform(&identity_input(2, "a", "b1"), "second", false).unwrap();

    // The most recent publisher wins; parents have no authority of their
    // own.
    assert_eq!(bc.get_latest_authority_for_frame("b1"), Some(&"second".to_string()));
    assert_eq!(bc.get_latest_authority_for_frame("a"), None);
    assert_eq!(bc.get_latest_authority_for_frame("nope"), None);

    let names = bc.get_all_frame_names();
    assert_eq!(names, vec!["NO_PARENT".to_string(), "a".to_string(), "b1".to_string()]);
}

#[test]
fn test_clear_retains_frames() {
    let mut bc = BufferCore::new(10);
    bc.set_transform(&identity_input(1, "a", "b1"), "auth", false).unwrap();
    let id_b1 = bc.lookup_frame_number("b1").unwrap();

    bc.clear();

    // Ids and names survive, the history does not.
    assert_eq!(bc.lookup_frame_number("b1"), Some(id_b1));
    assert_eq!(
        bc.lookup_transform("b1", "a", 1).unwrap_err(),
        TF2Error::UnknownRelationBetweenFrames(id_b1, bc.lookup_frame_number("a").unwrap())
    );
}

#[test]
fn test_can_transform() {
    let mut bc = BufferCore::new(10);
    bc.set_transform(&identity_input(5, "a", "b1"), "auth", false).unwrap();
    bc.set_transform(&identity_input(5, "a", "c1"), "auth", false).unwrap();

    assert!(bc.can_transform("c1", "b1", "a", 5));
    assert!(!bc.can_transform("c1", "b1", "a", 4));
    assert!(!bc.can_transform("c1", "b1", "a", 6));
    assert!(!bc.can_transform("c1", "b1", "nope", 5));
    assert!(!bc.can_transform("nope", "b1", "a", 5));
    assert!(!bc.can_transform("c1", "nope", "a", 5));
}
