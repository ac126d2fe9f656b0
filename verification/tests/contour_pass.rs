use electric_eye_map::instances::{complete_instance_build, instances_per_buffer, LayerInstances};
use std::sync::Arc;

#[test]
fn a_layer_past_the_default_limit_splits_into_bounded_buffers() {
    const DEFAULT_LIMIT: u64 = 256 << 20;
    const STRIDE: usize = 28;
    let per_buffer = instances_per_buffer(DEFAULT_LIMIT, STRIDE);
    assert!((per_buffer * STRIDE) as u64 <= DEFAULT_LIMIT);

    // A layer of 287_775_376 bytes of 28-byte instances.
    let crashing_instances = 287_775_376 / STRIDE;
    let buffers = crashing_instances.div_ceil(per_buffer);
    assert!(buffers >= 2, "expected the crashing layer to split");
    for index in 0..buffers {
        let in_this_buffer = per_buffer.min(crashing_instances - index * per_buffer);
        assert!((in_this_buffer * STRIDE) as u64 <= DEFAULT_LIMIT);
    }
}

#[test]
fn an_oversized_stride_still_yields_one_instance_per_buffer() {
    assert_eq!(instances_per_buffer(1024, 1 << 30), 1);
    assert_eq!(instances_per_buffer(0, 32), 1);
}

#[test]
fn failed_instance_build_releases_the_single_flight_gate() {
    let mut entry: LayerInstances<u32> = LayerInstances {
        current: Some((3, Arc::new(Vec::new()))),
        building: Some(7),
    };

    assert!(complete_instance_build(&mut entry, 7, None));
    assert_eq!(entry.building, None);
    assert_eq!(entry.current.as_ref().map(|(version, _)| *version), Some(3));
    assert!(!complete_instance_build(&mut entry, 7, Some(Vec::new())));
}
