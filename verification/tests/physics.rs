use kagame::KaAABB;
use kagame::KaMoveable;
use kagame::KaSensor;
use kagame::Sweep;
use kagame::Vec2i;
use kagame::World;
use kagame::get_overlapping;
use kagame::get_overlapping_with;
use kagame::ka_aabb_move;
use kagame::ka_aabb_sense;
use kagame::ka_aabb_update;
use kagame::overlap_min_max;
use kagame::overlaps;
use kagame::swept_aabb;
use kagame::POS_BOUND;

fn v(x: i64, y: i64) -> Vec2i {
    Vec2i { x, y }
}

fn mover(vx: i64, vy: i64, slide: bool) -> KaMoveable {
    let mut m = KaMoveable::new(vx, vy, true);
    m.slide = slide;
    m
}

#[test]
fn overlaps_is_symmetric_and_touching_counts() {
    // Touching exactly: |delta| == sum of half extents.
    let p1 = v(0, 0);
    let e1 = v(100, 100);
    let p2 = v(200, 0);
    let e2 = v(100, 100);
    assert!(overlaps(&p1, &e1, &p2, &e2));
    assert!(overlaps(&p2, &e2, &p1, &e1));
    let p3 = v(201, 0);
    assert!(!overlaps(&p1, &e1, &p3, &e2));
    assert!(!overlaps(&p3, &e2, &p1, &e1));
}

#[test]
fn overlap_min_max_matches_center_form() {
    assert!(overlap_min_max(&v(-100, -100), &v(100, 100), &v(100, -50), &v(300, 50)));
    assert!(!overlap_min_max(&v(-100, -100), &v(100, 100), &v(101, -50), &v(300, 50)));
}

#[test]
fn swept_head_on_reports_face_and_fraction() {
    // Entry gap of 300 hundredths against a step of 1000.
    let r: Sweep = swept_aabb(&v(0, 0), &v(100, 100), &v(500, 0), &v(100, 100), &v(1000, 0));
    assert_eq!(r.nx, -1);
    assert_eq!(r.ny, 0);
    assert_eq!(r.num, 300);
    assert_eq!(r.den, 1000);
}

#[test]
fn swept_zero_velocity_separated_is_free() {
    let r = swept_aabb(&v(0, 0), &v(100, 100), &v(500, 0), &v(100, 100), &v(0, 0));
    assert_eq!(r, Sweep { nx: 0, ny: 0, num: 1, den: 1 });
}

#[test]
fn swept_zero_velocity_overlapping_is_free() {
    // Already interpenetrating: the zero-velocity overlap branch also
    // reports an unobstructed step.
    let r = swept_aabb(&v(0, 0), &v(100, 100), &v(50, 0), &v(100, 100), &v(0, 0));
    assert_eq!(r, Sweep { nx: 0, ny: 0, num: 1, den: 1 });
}

#[test]
fn swept_shorter_step_never_collides_earlier() {
    let r1 = swept_aabb(&v(0, 0), &v(100, 100), &v(500, 0), &v(100, 100), &v(1000, 0));
    let r2 = swept_aabb(&v(0, 0), &v(100, 100), &v(500, 0), &v(100, 100), &v(500, 0));
    // t2 = 300/500 >= t1 = 300/1000, compared as exact rationals.
    assert!(r2.num as i128 * r1.den as i128 >= r1.num as i128 * r2.den as i128);
    // And an even shorter step misses entirely.
    let r3 = swept_aabb(&v(0, 0), &v(100, 100), &v(500, 0), &v(100, 100), &v(200, 0));
    assert_eq!(r3, Sweep { nx: 0, ny: 0, num: 1, den: 1 });
}

#[test]
fn head_on_stop_scenario() {
    // Body at the origin, half extents one unit; solid obstacle at
    // five units; velocity ten units per second over a one-second
    // frame. The resolved position is the contact point backed off by
    // the skin width: 3 units - 0.01 = 299 hundredths.
    let mut world = World::new();
    let a = world.spawn(
        Some(KaAABB::new(0, 0, 200, 200, 1, 1, true, false)),
        Some(mover(1000, 0, false)),
        None,
        vec![],
    );
    let b = world.spawn(Some(KaAABB::new(500, 0, 200, 200, 1, 0, true, false)), None, None, vec![]);
    ka_aabb_move(&mut world, 1000);
    assert_eq!(world.body_position(a), Some(v(299, 0)));
    let m = world.get_mover(a).unwrap();
    assert_eq!(m.on_wall, Some(b));
    assert_eq!(m.on_floor, None);
    assert_eq!(m.on_ceilling, None);
}

#[test]
fn margin_prevents_repenetration_on_the_next_frame() {
    let mut world = World::new();
    let a = world.spawn(
        Some(KaAABB::new(0, 0, 200, 200, 1, 1, true, false)),
        Some(mover(1000, 0, false)),
        None,
        vec![],
    );
    world.spawn(Some(KaAABB::new(500, 0, 200, 200, 1, 0, true, false)), None, None, vec![]);
    ka_aabb_move(&mut world, 1000);
    assert_eq!(world.body_position(a), Some(v(299, 0)));
    // Re-running the frame with the same velocity closes the skin gap
    // and backs off again: the body rests at the same place and never
    // penetrates the obstacle.
    ka_aabb_move(&mut world, 1000);
    assert_eq!(world.body_position(a), Some(v(299, 0)));
}

#[test]
fn slide_continues_tangential_motion() {
    // Moving diagonally into a tall vertical wall with slide enabled:
    // the horizontal motion stops at the wall face and the remaining
    // vertical motion runs in the second pass. The retained normal
    // applies the skin width once more in that pass.
    let mut world = World::new();
    let a = world.spawn(
        Some(KaAABB::new(0, 0, 200, 200, 1, 1, true, false)),
        Some(mover(1000, 500, true)),
        None,
        vec![],
    );
    let wall = world.spawn(
        Some(KaAABB::new(300, 0, 200, 20000, 1, 0, true, false)),
        None,
        None,
        vec![],
    );
    ka_aabb_move(&mut world, 1000);
    assert_eq!(world.body_position(a), Some(v(98, 500)));
    let m = world.get_mover(a).unwrap();
    assert_eq!(m.on_wall, Some(wall));
}

#[test]
fn mask_zero_pairs_never_collide_or_sense() {
    // Geometric collision course, but no mask reacts to the other's
    // layer in either direction.
    let mut world = World::new();
    let a = world.spawn(
        Some(KaAABB::new(0, 0, 200, 200, 1, 4, true, false)),
        Some(mover(1000, 0, false)),
        Some(KaSensor::new()),
        vec![],
    );
    world.spawn(Some(KaAABB::new(500, 0, 200, 200, 2, 8, true, false)), None, None, vec![]);
    ka_aabb_update(&mut world, 1000);
    assert_eq!(world.body_position(a), Some(v(1000, 0)));
    assert_eq!(world.get_mover(a).unwrap().on_wall, None);

    // Sensing is masked off the same way even with full overlap.
    let mut world2 = World::new();
    world2.spawn(
        Some(KaAABB::new(0, 0, 200, 200, 1, 4, false, false)),
        None,
        Some(KaSensor::new()),
        vec![],
    );
    world2.spawn(Some(KaAABB::new(50, 0, 200, 200, 2, 8, true, false)), None, None, vec![]);
    ka_aabb_sense(&mut world2);
    assert!(world2.get_sensor(0).unwrap().overlapping.is_empty());
}

#[test]
fn exception_on_either_side_suppresses_both_systems() {
    let mut world = World::new();
    let mut body_a = KaAABB::new(0, 0, 200, 200, 1, 1, true, false);
    // The exception is registered on A's side only; B's id will be 1.
    body_a.add_exception(1);
    let a = world.spawn(Some(body_a), Some(mover(1000, 0, false)), Some(KaSensor::new()), vec![]);
    world.spawn(Some(KaAABB::new(500, 0, 200, 200, 1, 1, true, false)), None, None, vec![]);
    ka_aabb_update(&mut world, 1000);
    // Passes straight through the excepted obstacle.
    assert_eq!(world.body_position(a), Some(v(1000, 0)));
    assert_eq!(world.get_mover(a).unwrap().on_wall, None);

    // A fully overlapping excepted pair senses nothing either.
    let mut world3 = World::new();
    let mut body_s = KaAABB::new(0, 0, 200, 200, 1, 1, false, false);
    body_s.add_exception(1);
    world3.spawn(Some(body_s), None, Some(KaSensor::new()), vec![]);
    world3.spawn(Some(KaAABB::new(50, 0, 200, 200, 1, 1, true, false)), None, None, vec![]);
    ka_aabb_sense(&mut world3);
    assert!(world3.get_sensor(0).unwrap().overlapping.is_empty());

    // Symmetric: the exception held by the obstacle suppresses too.
    let mut world2 = World::new();
    let a2 = world2.spawn(
        Some(KaAABB::new(0, 0, 200, 200, 1, 1, true, false)),
        Some(mover(1000, 0, false)),
        None,
        vec![],
    );
    let mut body_b2 = KaAABB::new(500, 0, 200, 200, 1, 1, true, false);
    body_b2.add_exception(a2);
    world2.spawn(Some(body_b2), None, None, vec![]);
    ka_aabb_move(&mut world2, 1000);
    assert_eq!(world2.body_position(a2), Some(v(1000, 0)));
}

#[test]
fn one_way_platform_ignored_from_below() {
    // The mover's bottom edge (100) already lies below the platform's
    // top edge (-100): the platform never blocks, on any axis.
    let mut world = World::new();
    let a = world.spawn(
        Some(KaAABB::new(0, 0, 200, 200, 1, 1, true, false)),
        Some(mover(1000, 0, false)),
        None,
        vec![],
    );
    world.spawn(Some(KaAABB::new(500, 0, 200, 200, 1, 0, true, true)), None, None, vec![]);
    ka_aabb_move(&mut world, 1000);
    assert_eq!(world.body_position(a), Some(v(1000, 0)));
}

#[test]
fn one_way_platform_blocks_from_above() {
    // Falling onto the platform from above lands on it: floor contact.
    let mut world = World::new();
    let a = world.spawn(
        Some(KaAABB::new(0, -500, 200, 200, 1, 1, true, false)),
        Some(mover(0, 1000, false)),
        None,
        vec![],
    );
    let p = world.spawn(Some(KaAABB::new(0, 0, 200, 200, 1, 0, true, true)), None, None, vec![]);
    ka_aabb_move(&mut world, 1000);
    assert_eq!(world.body_position(a), Some(v(0, -201)));
    let m = world.get_mover(a).unwrap();
    assert_eq!(m.on_floor, Some(p));
    assert_eq!(m.on_wall, None);
}

#[test]
fn sensor_with_inherited_mask_matches_explicit_mask() {
    let build = |sensor: KaSensor| -> World {
        let mut world = World::new();
        let mut body = KaAABB::new(0, 0, 200, 200, 1, 0b0010, false, false);
        body.collision_mask = 0b0010;
        world.spawn(Some(body), None, Some(sensor), vec![]);
        world.spawn(Some(KaAABB::new(50, 0, 200, 200, 0b0010, 0, true, false)), None, None, vec![]);
        world.spawn(Some(KaAABB::new(-50, 0, 200, 200, 0b0100, 0, true, false)), None, None, vec![]);
        ka_aabb_sense(&mut world);
        world
    };
    // Mask zero inherits the owning body's collision mask.
    let w1 = build(KaSensor::new());
    let w2 = build(KaSensor::new_with_mask(0b0010));
    let o1 = w1.get_sensor(0).unwrap().overlapping.clone();
    let o2 = w2.get_sensor(0).unwrap().overlapping.clone();
    assert_eq!(o1, vec![1u32]);
    assert_eq!(o1, o2);
}

#[test]
fn inactive_sensor_clears_and_skips() {
    let mut world = World::new();
    let mut sensor = KaSensor::new_with_mask(1);
    sensor.active = false;
    sensor.overlapping.push(77);
    world.spawn(Some(KaAABB::new(0, 0, 200, 200, 1, 1, false, false)), None, Some(sensor), vec![]);
    world.spawn(Some(KaAABB::new(50, 0, 200, 200, 1, 0, true, false)), None, None, vec![]);
    ka_aabb_sense(&mut world);
    assert!(world.get_sensor(0).unwrap().overlapping.is_empty());
}

#[test]
fn external_forces_decay_and_snap_to_zero() {
    let mut world = World::new();
    let mut m = KaMoveable::new(0, 0, true);
    m.slide = false;
    m.external_forces = Vec2i { x: 2000, y: 0 };
    let a = world.spawn(Some(KaAABB::new(0, 0, 200, 200, 1, 1, true, false)), Some(m), None, vec![]);
    // Friction 10 per second over 50 ms decays by a factor of 1/2.
    ka_aabb_move(&mut world, 50);
    let m1 = world.get_mover(a).unwrap();
    assert_eq!(m1.external_forces, Vec2i { x: 1000, y: 0 });
    // The step displacement used the un-decayed force: 2000 * 50 / 1000.
    assert_eq!(world.body_position(a), Some(v(100, 0)));
    // A nearly spent force snaps to exactly zero.
    let mut m2 = world.get_mover(a).unwrap();
    m2.external_forces = Vec2i { x: 90, y: 0 };
    world.set_mover(a, Some(m2));
    ka_aabb_move(&mut world, 50);
    let m3 = world.get_mover(a).unwrap();
    assert_eq!(m3.external_forces, Vec2i { x: 0, y: 0 });
    // The raw velocity of 90 per second is below the snap threshold,
    // so the body does not creep.
    assert_eq!(world.body_position(a), Some(v(100, 0)));
}

#[test]
fn probe_queries_filter_by_mask_and_tag() {
    let mut world = World::new();
    let a = world.spawn(
        Some(KaAABB::new(0, 0, 200, 200, 0b01, 0, true, false)),
        None,
        None,
        vec![7],
    );
    let b = world.spawn(Some(KaAABB::new(50, 0, 200, 200, 0b10, 0, true, false)), None, None, vec![]);
    world.spawn(Some(KaAABB::new(5000, 0, 200, 200, 0b01, 0, true, false)), None, None, vec![7]);
    let probe_pos = v(0, 0);
    let probe_ext = v(100, 100);
    let hits = get_overlapping(&world, &probe_pos, &probe_ext, 0b11);
    assert_eq!(hits, vec![a, b]);
    let tagged = get_overlapping_with(&world, &probe_pos, &probe_ext, 0b11, 7);
    assert_eq!(tagged, vec![a]);
    let masked = get_overlapping(&world, &probe_pos, &probe_ext, 0b10);
    assert_eq!(masked, vec![b]);
}

#[test]
fn movers_see_earlier_resolutions_in_slot_order() {
    // Two movers resolve in slot order; the second one's path is clear
    // of both the wall's span and the first mover's resolved position.
    let mut world = World::new();
    let a = world.spawn(
        Some(KaAABB::new(0, 0, 200, 200, 1, 1, true, false)),
        Some(mover(1000, 0, false)),
        None,
        vec![],
    );
    let b = world.spawn(
        Some(KaAABB::new(0, 1000, 200, 200, 1, 1, true, false)),
        Some(mover(1000, 0, false)),
        None,
        vec![],
    );
    world.spawn(Some(KaAABB::new(500, 0, 200, 200, 1, 0, true, false)), None, None, vec![]);
    ka_aabb_move(&mut world, 1000);
    assert_eq!(world.body_position(a), Some(v(299, 0)));
    // The second mover is vertically clear of the wall's span.
    assert_eq!(world.body_position(b), Some(v(1000, 1000)));
}

#[test]
fn get_collisions_lists_floor_wall_ceiling() {
    let mut m = KaMoveable::new(0, 0, true);
    m.on_floor = Some(3);
    m.on_wall = Some(5);
    assert_eq!(m.get_collisions(), vec![3u32, 5u32]);
    m.on_ceilling = Some(9);
    assert_eq!(m.get_collisions(), vec![3u32, 5u32, 9u32]);
}

#[test]
fn despawned_entities_are_ignored() {
    let mut world = World::new();
    let a = world.spawn(
        Some(KaAABB::new(0, 0, 200, 200, 1, 1, true, false)),
        Some(mover(1000, 0, false)),
        None,
        vec![],
    );
    let b = world.spawn(Some(KaAABB::new(500, 0, 200, 200, 1, 0, true, false)), None, None, vec![]);
    assert!(world.despawn(b));
    assert!(!world.despawn(b));
    ka_aabb_move(&mut world, 1000);
    assert_eq!(world.body_position(a), Some(v(1000, 0)));
    assert!(world.get_body(b).is_none());
}

#[test]
fn update_runs_movement_then_sensing() {
    // The sensor reads positions the movement pass has already
    // resolved: the mover lands beside the obstacle and the sensor
    // on the obstacle reports it from its resolved position.
    let mut world = World::new();
    let a = world.spawn(
        Some(KaAABB::new(0, 0, 200, 200, 1, 1, true, false)),
        Some(mover(1000, 0, false)),
        None,
        vec![],
    );
    let b = world.spawn(
        Some(KaAABB::new(500, 0, 200, 200, 1, 1, true, false)),
        None,
        Some(KaSensor::new()),
        vec![],
    );
    ka_aabb_update(&mut world, 1000);
    // Resolved to 299; gap of 1 hundredth, so the boxes do not touch.
    assert_eq!(world.body_position(a), Some(v(299, 0)));
    assert!(!world.get_sensor(b).unwrap().overlapping.contains(&a));
    // Another frame reaches the face and backs off by the skin width
    // again, recording the wall contact anew.
    ka_aabb_update(&mut world, 1000);
    assert_eq!(world.body_position(a), Some(v(299, 0)));
    let m = world.get_mover(a).unwrap();
    assert_eq!(m.on_wall, Some(b));
}

#[test]
fn positions_clamp_at_the_world_bound() {
    let mut world = World::new();
    let a = world.spawn(
        Some(KaAABB::new(POS_BOUND - 100, 0, 200, 200, 1, 1, true, false)),
        Some(mover(1000, 0, false)),
        None,
        vec![],
    );
    ka_aabb_move(&mut world, 1000);
    assert_eq!(world.body_position(a), Some(v(POS_BOUND, 0)));
}

#[test]
fn empty_world_update_is_a_no_op() {
    let mut world = World::new();
    ka_aabb_update(&mut world, 16);
    assert_eq!(world.len(), 0);
}
