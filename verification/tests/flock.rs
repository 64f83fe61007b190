use boids::boids::{AttractorMode, BoidSettings, BoidTags, CountAdjustment};

#[test]
fn attractor_mode_labels() {
    assert_eq!(AttractorMode::Constant.label(), "Constant");
    assert_eq!(AttractorMode::Linear.label(), "Linear");
    assert_eq!(AttractorMode::Quadratic.label(), "Quadratic");
    assert_eq!(AttractorMode::InverseLinear.label(), "Inverse Linear");
    assert_eq!(AttractorMode::InverseQuadratic.label(), "Inverse Quadratic");
}

#[test]
fn attractor_mode_labels_are_distinct() {
    let modes = [
        AttractorMode::Constant,
        AttractorMode::Linear,
        AttractorMode::Quadratic,
        AttractorMode::InverseLinear,
        AttractorMode::InverseQuadratic,
    ];
    for (i, a) in modes.iter().enumerate() {
        for (j, b) in modes.iter().enumerate() {
            assert_eq!(i == j, a.label() == b.label());
        }
    }
}

#[test]
fn attractor_mode_default_is_constant() {
    assert_eq!(AttractorMode::default(), AttractorMode::Constant);
}

#[test]
fn boid_settings_default() {
    let s = BoidSettings::default();
    assert!(!s.paused);
    assert_eq!(s.count, 32768);
    assert_eq!(s.neighbour_limit, 8);
    assert_eq!(s.world_halfsize, 512);
}

#[test]
fn initial_boids_get_their_index_as_tag() {
    let (tags, spawned) = BoidTags::for_initial_boids(4);
    assert_eq!(tags.last_tag, 4);
    assert_eq!(spawned, vec![0, 1, 2, 3]);
}

#[test]
fn no_initial_boids() {
    let (tags, spawned) = BoidTags::for_initial_boids(0);
    assert_eq!(tags.last_tag, 0);
    assert!(spawned.is_empty());
}

#[test]
fn missing_boids_are_spawned_with_fresh_tags() {
    let mut tags = BoidTags { last_tag: 10 };
    match tags.adjust_count(5, 8) {
        CountAdjustment::Spawn(new_tags) => assert_eq!(new_tags, vec![10, 11, 12]),
        _ => panic!("expected a spawn"),
    }
    assert_eq!(tags.last_tag, 13);
}

#[test]
fn excess_boids_are_despawned() {
    let mut tags = BoidTags { last_tag: 10 };
    match tags.adjust_count(8, 5) {
        CountAdjustment::Despawn(n) => assert_eq!(n, 3),
        _ => panic!("expected a despawn"),
    }
    assert_eq!(tags.last_tag, 10);
}

#[test]
fn population_of_the_right_size_is_kept() {
    let mut tags = BoidTags { last_tag: 7 };
    assert!(matches!(tags.adjust_count(5, 5), CountAdjustment::Keep));
    assert_eq!(tags.last_tag, 7);
}

#[test]
fn population_is_counted_in_u32() {
    // 2^32 + 2 boids are counted as 2, as a `u32` cast counts them.
    if usize::BITS == 64 {
        let mut tags = BoidTags { last_tag: 0 };
        let current = (u32::MAX as usize) + 3;
        match tags.adjust_count(current, 4) {
            CountAdjustment::Spawn(new_tags) => assert_eq!(new_tags, vec![0, 1]),
            _ => panic!("expected a spawn"),
        }
    }
}

#[test]
fn tags_never_repeat_over_frames() {
    let (mut tags, initial) = BoidTags::for_initial_boids(3);
    let mut seen: Vec<u32> = initial.clone();
    // boids found / boids wanted, frame by frame
    let frames = [(3usize, 5u32), (5, 2), (2, 6), (6, 6), (1, 3)];
    for (current, target) in frames {
        match tags.adjust_count(current, target) {
            CountAdjustment::Spawn(new_tags) => {
                assert_eq!(new_tags.len() as u32, target - current as u32);
                for t in new_tags {
                    assert!(!seen.contains(&t));
                    seen.push(t);
                }
            }
            CountAdjustment::Despawn(n) => assert_eq!(current as u32 - n, target),
            CountAdjustment::Keep => assert_eq!(current as u32, target),
        }
    }
    assert_eq!(tags.last_tag, 3 + 2 + 4 + 2);
}
