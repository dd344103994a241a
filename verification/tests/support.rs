use kagame::ActionState;
use kagame::Actions;
use kagame::KaAABB;
use kagame::KaMoveable;
use kagame::NoSoundError;
use kagame::Vec2i;
use kagame::World;
use kagame::frame_step;
use kagame::ka_sprite_z_order;
use kagame::key_transition;
use kagame::load_csv_from_bytes;
use kagame::noise_image_bytes;
use kagame::noise_image_bytes_shaded;
use kagame::pad_axis_transition;
use kagame::pad_button_transition;
use kagame::Despawner;
use kagame::Spawner;
use kagame::EntityRec;

#[test]
fn collision_bits_set_get_and_combine() {
    let mut layer: i32 = 0;
    KaAABB::set_collision_bit(&mut layer, 3, true);
    assert!(KaAABB::get_collision_bit(layer, 3));
    assert!(!KaAABB::get_collision_bit(layer, 2));
    KaAABB::set_collision_bit(&mut layer, 3, false);
    assert_eq!(layer, 0);
    assert_eq!(KaAABB::create_collision_layer(&[0, 1, 3]), 0b1011);
    assert_eq!(KaAABB::create_collision_layer(&[31]), i32::MIN);
    let mut body = KaAABB::new(0, 0, 2, 2, 0, 0, true, false);
    body.set_collision_layer(&[1, 2]);
    assert_eq!(body.collision_layer, 0b110);
    body.set_collision_layer_bit(0, true);
    assert_eq!(body.collision_layer, 0b111);
    assert!(body.get_collision_layer_bit(2));
    body.set_collision_mask_bit(4, true);
    assert!(body.get_collision_mask_bit(4));
    assert_eq!(body.collision_mask, 0b10000);
}

#[test]
fn exceptions_are_deduplicated() {
    let mut body = KaAABB::new(0, 0, 2, 2, 0, 0, true, false);
    assert!(!body.have_exception(9));
    body.add_exception(9);
    body.add_exception(9);
    assert!(body.have_exception(9));
    assert_eq!(body.collision_exceptions.len(), 1);
}

#[test]
fn can_collide_uses_other_layer_against_own_mask() {
    let a = KaAABB::new(0, 0, 2, 2, 0b01, 0b10, true, false);
    let b = KaAABB::new(0, 0, 2, 2, 0b10, 0b00, true, false);
    assert!(a.can_collide(&b));
    assert!(!b.can_collide(&a));
}

#[test]
fn body_constructor_halves_sizes() {
    let body = KaAABB::new(10, -20, 300, 501, 1, 2, false, true);
    assert_eq!(body.pos, Vec2i { x: 10, y: -20 });
    assert_eq!(body.half_e, Vec2i { x: 150, y: 250 });
    assert!(!body.solid);
    assert!(body.one_way);
}

#[test]
fn mover_defaults() {
    let m = KaMoveable::default();
    assert_eq!(m.velocity, Vec2i { x: 0, y: 0 });
    assert_eq!(m.external_forces, Vec2i { x: 0, y: 0 });
    assert_eq!(m.external_friction, 10);
    assert!(m.pushable);
    assert!(m.slide);
    assert!(m.on_floor.is_none() && m.on_wall.is_none() && m.on_ceilling.is_none());
    let mut m2 = KaMoveable::new(5000, -5000, false);
    assert_eq!(m2.velocity, Vec2i { x: 5000, y: -5000 });
    assert!(!m2.pushable);
    m2.set_velocity(1, 2);
    assert_eq!(m2.velocity, Vec2i { x: 1, y: 2 });
}

#[test]
fn key_transitions_follow_the_state_machine() {
    assert_eq!(key_transition(ActionState::Up, true, true), ActionState::Pressed);
    assert_eq!(key_transition(ActionState::Pressed, false, true), ActionState::Down);
    assert_eq!(key_transition(ActionState::Down, false, false), ActionState::Released);
    assert_eq!(key_transition(ActionState::Pressed, false, false), ActionState::Released);
    assert_eq!(key_transition(ActionState::Released, false, false), ActionState::Up);
    assert_eq!(key_transition(ActionState::Up, false, false), ActionState::Up);
}

#[test]
fn pad_button_transitions_settle_then_apply_events() {
    assert_eq!(pad_button_transition(ActionState::Pressed, None), ActionState::Down);
    assert_eq!(pad_button_transition(ActionState::Released, None), ActionState::Up);
    assert_eq!(pad_button_transition(ActionState::Down, None), ActionState::Down);
    assert_eq!(pad_button_transition(ActionState::Up, Some(true)), ActionState::Pressed);
    assert_eq!(pad_button_transition(ActionState::Down, Some(false)), ActionState::Released);
}

#[test]
fn pad_axis_transitions_hold_and_release() {
    // An edge state settles before the event applies, so a held axis
    // reports a fresh press each frame of the original state machine.
    assert_eq!(pad_axis_transition(ActionState::Pressed, Some(true)), ActionState::Pressed);
    assert_eq!(pad_axis_transition(ActionState::Up, Some(true)), ActionState::Pressed);
    assert_eq!(pad_axis_transition(ActionState::Released, Some(false)), ActionState::Released);
    assert_eq!(pad_axis_transition(ActionState::Down, Some(false)), ActionState::Released);
    assert_eq!(pad_axis_transition(ActionState::Pressed, None), ActionState::Down);
    assert_eq!(pad_axis_transition(ActionState::Released, None), ActionState::Up);
}

#[test]
fn actions_registry_queries_any_binding() {
    let mut actions = Actions::new();
    let (i1, j1) = actions.add_action("jump");
    let (i2, j2) = actions.add_action("jump");
    assert_eq!((i1, j1), (0, 0));
    assert_eq!((i2, j2), (0, 1));
    let (i3, j3) = actions.add_action("fire");
    assert_eq!((i3, j3), (1, 0));
    assert!(!actions.is_action_down("jump"));
    assert!(actions.is_action_released("jump"));
    actions.set_state(i1, j1, ActionState::Pressed);
    assert!(actions.is_action_down("jump"));
    assert!(actions.is_action_just_pressed("jump"));
    assert!(!actions.is_action_down("fire"));
    actions.set_state(i1, j1, ActionState::Released);
    assert!(actions.is_action_just_released("jump"));
    assert!(!actions.is_action_down("missing"));
    actions.clear();
    assert_eq!(actions.num_actions(), 0);
}

#[test]
fn frame_step_advances_wraps_and_rests() {
    assert_eq!(frame_step(2, 0, 5, true), (3, false));
    assert_eq!(frame_step(5, 0, 5, true), (0, true));
    assert_eq!(frame_step(5, 0, 5, false), (5, true));
    assert_eq!(frame_step(0, 0, 0, false), (0, true));
}

#[test]
fn sprite_z_order_sorts_by_depth() {
    let items: Vec<(u32, u32)> = vec![(10, 5), (11, 1), (12, 3), (13, 1)];
    let sorted = ka_sprite_z_order(items);
    let depths: Vec<u32> = sorted.iter().map(|p| p.1).collect();
    assert_eq!(depths, vec![1, 1, 3, 5]);
    let mut ids: Vec<u32> = sorted.iter().map(|p| p.0).collect();
    ids.sort();
    assert_eq!(ids, vec![10, 11, 12, 13]);
}

#[test]
fn csv_records_are_trimmed_and_headers_skipped() {
    let input = b"name,hp\n hero , 10\nslime,3\n";
    let rows = load_csv_from_bytes(input).unwrap();
    assert_eq!(rows, vec![vec!["hero".to_string(), "10".to_string()], vec![
        "slime".to_string(),
        "3".to_string(),
    ]]);
}

#[test]
fn csv_rejects_bad_input() {
    // Not UTF-8.
    assert!(load_csv_from_bytes(&[0xff, 0xfe, b'a']).is_none());
    // Ragged rows violate the format.
    assert!(load_csv_from_bytes(b"a,b\nonly_one\n").is_none());
    // Empty input holds no records.
    assert_eq!(load_csv_from_bytes(b""), Some(vec![]));
}

#[test]
fn spawner_attaches_queued_entities_last_first() {
    let mut world = World::new();
    let mut spawner = Spawner::new();
    spawner.add(EntityRec {
        body: Some(KaAABB::new(100, 0, 2, 2, 1, 0, true, false)),
        mover: None,
        sensor: None,
        tags: vec![],
    });
    spawner.add(EntityRec {
        body: Some(KaAABB::new(200, 0, 2, 2, 1, 0, true, false)),
        mover: None,
        sensor: None,
        tags: vec![],
    });
    spawner.spawn(&mut world);
    assert_eq!(world.len(), 2);
    // Most recently queued spawns first.
    assert_eq!(world.body_position(0), Some(Vec2i { x: 200, y: 0 }));
    assert_eq!(world.body_position(1), Some(Vec2i { x: 100, y: 0 }));
}

#[test]
fn despawner_vacates_queued_entities() {
    let mut world = World::new();
    world.spawn(Some(KaAABB::new(0, 0, 2, 2, 1, 0, true, false)), None, None, vec![]);
    world.spawn(Some(KaAABB::new(9, 0, 2, 2, 1, 0, true, false)), None, None, vec![]);
    let mut despawner = Despawner::new();
    despawner.add(0);
    despawner.add(42);
    despawner.despawn(&mut world);
    assert!(world.get_body(0).is_none());
    assert!(world.get_body(1).is_some());
    assert_eq!(world.len(), 2);
}

#[test]
fn missing_sound_error_is_plain_data() {
    let e = NoSoundError;
    let e2 = e;
    assert_eq!(e, e2);
    assert_eq!(format!("{:?}", e2), "NoSoundError");
}

#[test]
fn noise_bytes_repeat_red_as_alpha() {
    let samples: Vec<u8> = vec![200, 100, 50, 7, 1, 2, 3, 4];
    assert_eq!(noise_image_bytes(&samples), vec![200, 100, 50, 200, 1, 2, 3, 1]);
}

#[test]
fn noise_bytes_quantize_to_shades() {
    // Four shades give a step of 63: values floor to 0, 63, 126, 189.
    let samples: Vec<u8> = vec![200, 100, 50, 7];
    assert_eq!(noise_image_bytes_shaded(&samples, 4), vec![189, 63, 0, 189]);
}
