use nalgebra::{Quaternion, UnitQuaternion, Vector3};
use rand::Rng;
use rand::SeedableRng;

use tf_buffer::cache::{CacheRead, TimeCache, DEFAULT_CACHE_TIME_NS};
use tf_buffer::error::TF2Error;
use tf_buffer::transform_storage::{QuatBits, TransformStorage, Vec3Bits};

fn identity_rotation() -> QuatBits {
    QuatBits { x: 0f64.to_bits(), y: 0f64.to_bits(), z: 0f64.to_bits(), w: 1f64.to_bits() }
}

fn zero_translation() -> Vec3Bits {
    Vec3Bits { x: 0f64.to_bits(), y: 0f64.to_bits(), z: 0f64.to_bits() }
}

fn make_item(nanosec: u64, frame_id: u32) -> TransformStorage {
    TransformStorage::new(identity_rotation(), zero_translation(), nanosec, frame_id, 0)
}

fn translation_bits(x: f64, y: f64, z: f64) -> Vec3Bits {
    Vec3Bits { x: x.to_bits(), y: y.to_bits(), z: z.to_bits() }
}

fn rotation_bits(q: &UnitQuaternion<f64>) -> QuatBits {
    QuatBits {
        x: q.coords.x.to_bits(),
        y: q.coords.y.to_bits(),
        z: q.coords.z.to_bits(),
        w: q.coords.w.to_bits(),
    }
}

fn quat_of(b: &QuatBits) -> UnitQuaternion<f64> {
    UnitQuaternion::from_quaternion(Quaternion::new(
        f64::from_bits(b.w),
        f64::from_bits(b.x),
        f64::from_bits(b.y),
        f64::from_bits(b.z),
    ))
}

fn vec_of(t: &Vec3Bits) -> Vector3<f64> {
    Vector3::new(f64::from_bits(t.x), f64::from_bits(t.y), f64::from_bits(t.z))
}

/// Numeric resolution of a cache read: an exact record as stored, an
/// interpolated pair blended linearly (translation) and by slerp
/// (rotation).
fn resolve_read(read: &CacheRead) -> (Vector3<f64>, UnitQuaternion<f64>, u64, u32) {
    match read {
        CacheRead::Exact(r) => (vec_of(&r.translation), quat_of(&r.rotation), r.stamp, r.frame_id),
        CacheRead::Interpolate { older, newer, time } => {
            let alpha = (*time as f64 - older.stamp as f64)
                / (newer.stamp as f64 - older.stamp as f64);
            let translation = (1.0 - alpha) * vec_of(&older.translation)
                + alpha * vec_of(&newer.translation);
            let rotation = quat_of(&older.rotation).slerp(&quat_of(&newer.rotation), alpha);
            (translation, rotation, *time, older.frame_id)
        }
    }
}

fn exact_of(read: CacheRead) -> TransformStorage {
    match read {
        CacheRead::Exact(r) => r,
        CacheRead::Interpolate { .. } => panic!("expected an exact read"),
    }
}

#[test]
fn test_time_cache_get_all_items() {
    let max_storage_time_ns = 10;
    let mut cache = TimeCache::new(Vec::new(), max_storage_time_ns);

    let item_a = make_item(0, 0);
    let item_b = make_item(10, 1);
    let item_c = make_item(5, 2);
    let item_d = make_item(3, 3);
    // Same timestamp, different id.
    let item_e = make_item(8, 4);
    let item_f = make_item(8, 5);
    let item_g = make_item(8, 6);

    // Insert in order.
    cache.insert_data(&item_a);
    cache.insert_data(&item_b);
    cache.insert_data(&item_c);
    cache.insert_data(&item_d);
    cache.insert_data(&item_e);
    cache.insert_data(&item_f);
    cache.insert_data(&item_g);

    // Note that the difference between the oldest and newest timestamp is
    // exactly equal to the max storage duration.
    assert_eq!(
        cache.get_latest_timestamp().unwrap() - cache.get_oldest_timestamp().unwrap(),
        max_storage_time_ns
    );

    // Expect that storage is descending; same timestamps have effectively
    // reversed insertion order.
    let storage_expected = vec![
        item_b,
        item_g,
        item_f,
        item_e,
        item_c,
        item_d,
        item_a,
    ];
    assert_eq!(cache.get_all_items().clone(), storage_expected);

    // Insert repeated, in reverse. Nothing should change.
    cache.insert_data(&item_g);
    cache.insert_data(&item_f);
    cache.insert_data(&item_e);
    cache.insert_data(&item_d);
    cache.insert_data(&item_c);
    cache.insert_data(&item_b);
    cache.insert_data(&item_a);
    assert_eq!(cache.get_all_items().clone(), storage_expected);

    // Insert newer data, and expect stale data to be pruned, even if newly
    // inserted.
    let item_h = make_item(15, 7);
    let item_i = make_item(0, 8); // This will be dropped.
    let item_j = make_item(5, 9);

    cache.insert_data(&item_h);
    cache.insert_data(&item_i);
    cache.insert_data(&item_j);

    // item_a, item_d, and item_i are pruned.
    let storage_expected_new = vec![item_h, item_b, item_g, item_f, item_e, item_j, item_c];
    assert_eq!(cache.get_all_items().clone(), storage_expected_new);
}

#[test]
fn test_time_cache_repeatability() {
    let runs = 100u64;
    let mut cache = TimeCache::new(vec![], DEFAULT_CACHE_TIME_NS);
    for i in 1..runs {
        let store = make_item(i, i as u32);
        cache.insert_data(&store);
    }
    assert_eq!(cache.get_list_length(), (runs - 1) as usize);
    for i in 1..runs {
        let stor = exact_of(cache.get_data(i).unwrap());
        assert_eq!(stor.frame_id, i as u32);
        assert_eq!(stor.stamp, i);
    }
}

#[test]
fn test_time_cache_repeatability_reverse_insert_order() {
    let runs = 100u64;
    let mut cache = TimeCache::new(vec![], DEFAULT_CACHE_TIME_NS);
    for i in (0..runs).rev() {
        let store = make_item(i, i as u32);
        cache.insert_data(&store);
    }
    assert_eq!(cache.get_list_length(), runs as usize);
    for i in 1..runs {
        let stor = exact_of(cache.get_data(i).unwrap());
        assert_eq!(stor.frame_id, i as u32);
        assert_eq!(stor.stamp, i);
    }
}

#[test]
fn test_time_cache_repeated_elements() {
    let runs = 100;
    let mut cache = TimeCache::new(vec![], DEFAULT_CACHE_TIME_NS);

    let store = make_item(0, 0);
    for _ in (0..runs).rev() {
        cache.insert_data(&store);
    }
    assert_eq!(cache.get_list_length(), 1);
}

#[test]
fn test_time_cache_zero_at_front() {
    let runs = 100u64;
    let mut cache = TimeCache::new(vec![], DEFAULT_CACHE_TIME_NS);

    for i in 1..100 {
        cache.insert_data(&make_item(i, i as u32));
    }
    cache.insert_data(&make_item(runs, runs as u32));

    for i in 1..runs {
        let stor = exact_of(cache.get_data(i).unwrap());
        assert_eq!(stor.frame_id, i as u32);
        assert_eq!(stor.stamp, i);
    }

    let mut stor = exact_of(cache.get_data(0).unwrap());
    assert_eq!(stor.frame_id, runs as u32);
    assert_eq!(stor.stamp, runs);

    stor.frame_id = runs as u32;
    stor.stamp += 1;
    cache.insert_data(&stor);

    // Make sure we get a different value now that a new value is added at
    // the front.
    let stor = exact_of(cache.get_data(0).unwrap());
    assert_eq!(stor.frame_id, runs as u32);
    assert_eq!(stor.stamp, runs + 1);
}

#[test]
fn test_time_cache_cartesian_interpolation() {
    let mut rng = rand::rngs::StdRng::seed_from_u64(32);

    let runs = 100;
    let epsilon = 2e-6;

    let mut cache = TimeCache::new(vec![], DEFAULT_CACHE_TIME_NS);
    let mut x_values = [0.0f64; 2];
    let mut y_values = [0.0f64; 2];
    let mut z_values = [0.0f64; 2];

    let offset = 200u64;

    for _i in 1..runs {
        for step in 0..2usize {
            x_values[step] = 10.0 * rng.gen::<f64>();
            y_values[step] = 10.0 * rng.gen::<f64>();
            z_values[step] = 10.0 * rng.gen::<f64>();

            let mut stor = make_item(step as u64 * 100 + offset, 2);
            stor.translation = translation_bits(x_values[step], y_values[step], z_values[step]);
            cache.insert_data(&stor);
        }

        for pos in 0..100u64 {
            let (translation, _, _, _) = resolve_read(&cache.get_data(offset + pos).unwrap());
            let expected_x = x_values[0] + (x_values[1] - x_values[0]) * (pos as f64) / 100.0;
            let expected_y = y_values[0] + (y_values[1] - y_values[0]) * (pos as f64) / 100.0;
            let expected_z = z_values[0] + (z_values[1] - z_values[0]) * (pos as f64) / 100.0;
            assert!((translation.x - expected_x).abs() <= epsilon);
            assert!((translation.y - expected_y).abs() <= epsilon);
            assert!((translation.z - expected_z).abs() <= epsilon);
        }
        cache.clear_list();
    }
}

#[test]
fn test_time_cache_reparenting_interpolation_protection() {
    let mut rng = rand::rngs::StdRng::seed_from_u64(32);

    let runs = 100;

    let mut cache = TimeCache::new(vec![], DEFAULT_CACHE_TIME_NS);
    let mut x_values = [0.0f64; 2];
    let mut y_values = [0.0f64; 2];
    let mut z_values = [0.0f64; 2];

    let offset = 555u64;

    for _i in 1..runs {
        for step in 0..2usize {
            x_values[step] = 10.0 * rng.gen::<f64>();
            y_values[step] = 10.0 * rng.gen::<f64>();
            z_values[step] = 10.0 * rng.gen::<f64>();

            let mut stor = make_item(step as u64 * 100 + offset, step as u32 + 4);
            stor.translation = translation_bits(x_values[step], y_values[step], z_values[step]);
            cache.insert_data(&stor);
        }

        // The two records disagree on the parent, so a time strictly
        // between them returns the newer record unchanged: interpolation
        // across a reparenting is never performed.
        for pos in 1..100u64 {
            let read = cache.get_data(offset + pos).unwrap();
            let stor = exact_of(read);
            assert_eq!(stor.stamp, offset + 100);
            assert_eq!(stor.frame_id, 5);
            assert_eq!(vec_of(&stor.translation).x, x_values[1]);
            assert_eq!(vec_of(&stor.translation).y, y_values[1]);
            assert_eq!(vec_of(&stor.translation).z, z_values[1]);
        }
        cache.clear_list();
        assert!(cache.get_all_items().is_empty());
    }
}

#[test]
fn test_time_cache_angular_interpolation() {
    let mut rng = rand::rngs::StdRng::seed_from_u64(32);

    let runs = 100;
    let epsilon = 1e-6;

    let mut cache = TimeCache::new(vec![], DEFAULT_CACHE_TIME_NS);
    let mut yaw_values = [0.0f64; 2];
    let mut pitch_values = [0.0f64; 2];
    let mut roll_values = [0.0f64; 2];

    let offset = 200u64;

    for _i in 1..runs {
        let mut quats = vec![];
        for step in 0..2usize {
            yaw_values[step] = 0.1 * rng.gen::<f64>();
            pitch_values[step] = 0.1 * rng.gen::<f64>();
            roll_values[step] = 0.1 * rng.gen::<f64>();

            let mut stor = make_item(step as u64 * 100 + offset, 2);
            quats.push(UnitQuaternion::from_euler_angles(
                yaw_values[step],
                pitch_values[step],
                roll_values[step],
            ));
            stor.rotation = rotation_bits(quats.last().unwrap());
            cache.insert_data(&stor);
        }

        for pos in 0..100u64 {
            let (_, rotation, _, _) = resolve_read(&cache.get_data(offset + pos).unwrap());
            let ground_truth = quats[0].slerp(&quats[1], pos as f64 / 100.0);
            assert!(ground_truth.angle_to(&rotation).abs() <= epsilon);
        }
        cache.clear_list();
    }
}

#[test]
fn test_duplicate_entries() {
    let mut cache = TimeCache::new(vec![], DEFAULT_CACHE_TIME_NS);

    let stor = make_item(1, 3);

    cache.insert_data(&stor);
    assert_eq!(cache.get_list_length(), 1);

    cache.insert_data(&stor);
    // Exact repeated element, should not grow in length.
    assert_eq!(cache.get_list_length(), 1);

    let stor_out = cache.get_data(1);
    assert!(stor_out.is_ok());
}

#[test]
fn test_empty_cache_read_is_empty_error() {
    let cache = TimeCache::new(vec![], DEFAULT_CACHE_TIME_NS);
    assert_eq!(cache.get_data(0), Err(TF2Error::Empty));
    assert_eq!(cache.get_data(5), Err(TF2Error::Empty));
}

#[test]
fn test_single_entry_extrapolation_error() {
    let mut cache = TimeCache::new(vec![], DEFAULT_CACHE_TIME_NS);
    cache.insert_data(&make_item(7, 1));
    assert_eq!(exact_of(cache.get_data(7).unwrap()).stamp, 7);
    assert_eq!(cache.get_data(8), Err(TF2Error::SingleExtrapolationError(8, 7)));
    assert_eq!(cache.get_data(6), Err(TF2Error::SingleExtrapolationError(6, 7)));
}

#[test]
fn test_extrapolation_boundaries() {
    let mut cache = TimeCache::new(vec![], DEFAULT_CACHE_TIME_NS);
    cache.insert_data(&make_item(10, 1));
    cache.insert_data(&make_item(20, 1));

    // Exact boundaries are served.
    assert_eq!(exact_of(cache.get_data(10).unwrap()).stamp, 10);
    assert_eq!(exact_of(cache.get_data(20).unwrap()).stamp, 20);

    // Outside the held interval the designated errors come back.
    assert_eq!(cache.get_data(9), Err(TF2Error::PastExtrapolationError(9, 10)));
    assert_eq!(cache.get_data(21), Err(TF2Error::FutureExtrapolationError(21, 20)));
}

#[test]
fn test_interpolation_pair_selection() {
    let mut cache = TimeCache::new(vec![], DEFAULT_CACHE_TIME_NS);
    let mut older = make_item(100, 1);
    older.translation = translation_bits(1.0, 2.0, 3.0);
    let mut newer = make_item(200, 1);
    newer.translation = translation_bits(3.0, 6.0, 9.0);
    cache.insert_data(&older);
    cache.insert_data(&newer);

    match cache.get_data(150).unwrap() {
        CacheRead::Interpolate { older: lo, newer: hi, time } => {
            assert_eq!(lo, older);
            assert_eq!(hi, newer);
            assert_eq!(time, 150);
        }
        CacheRead::Exact(_) => panic!("expected an interpolation read"),
    }

    let (translation, _, stamp, parent) = resolve_read(&cache.get_data(150).unwrap());
    assert!((translation.x - 2.0).abs() <= 1e-9);
    assert!((translation.y - 4.0).abs() <= 1e-9);
    assert!((translation.z - 6.0).abs() <= 1e-9);
    assert_eq!(stamp, 150);
    assert_eq!(parent, 1);
}

#[test]
fn test_cache_read_accessors() {
    let mut cache = TimeCache::new(vec![], DEFAULT_CACHE_TIME_NS);
    let mut older = make_item(100, 1);
    older.child_frame_id = 9;
    let mut newer = make_item(200, 1);
    newer.child_frame_id = 9;
    cache.insert_data(&older);
    cache.insert_data(&newer);

    let exact = cache.get_data(100).unwrap();
    assert_eq!(exact.stamp(), 100);
    assert_eq!(exact.frame_id(), 1);
    assert_eq!(exact.child_frame_id(), 9);

    let blend = cache.get_data(150).unwrap();
    assert_eq!(blend.stamp(), 150);
    assert_eq!(blend.frame_id(), 1);
    assert_eq!(blend.child_frame_id(), 9);
}

#[test]
fn test_get_parent() {
    let mut cache = TimeCache::new(vec![], DEFAULT_CACHE_TIME_NS);
    // An empty cache has no parent to report, and no error either.
    assert_eq!(cache.get_parent(5), Ok(None));

    cache.insert_data(&make_item(100, 1));
    cache.insert_data(&make_item(200, 1));
    assert_eq!(cache.get_parent(100), Ok(Some(1)));
    assert_eq!(cache.get_parent(150), Ok(Some(1)));
    assert_eq!(cache.get_parent(0), Ok(Some(1)));
    assert_eq!(cache.get_parent(201), Err(TF2Error::FutureExtrapolationError(201, 200)));

    // Across a reparenting the read resolves to the newer record, so the
    // parent reported between the two samples is the newer one.
    let mut cache = TimeCache::new(vec![], DEFAULT_CACHE_TIME_NS);
    cache.insert_data(&make_item(100, 1));
    cache.insert_data(&make_item(200, 2));
    assert_eq!(cache.get_parent(150), Ok(Some(2)));
}
