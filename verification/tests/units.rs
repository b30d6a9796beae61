use dungeon_core::action::{actions, Action, Actions};
use dungeon_core::ai::goblin_turn;
use dungeon_core::bob::{Position, SpatialMap};
use dungeon_core::damage::{AttackState, Damage, Damageable};
use dungeon_core::grid::{Grid, IVec2};
use dungeon_core::physics::{move_event, update, MoveEvent, PhysicsState};
use dungeon_core::player::{get_direction, get_input_direction};
use dungeon_core::rng::{gen_step, rng_from_seed};
use dungeon_core::room::Room;
use dungeon_core::store::{Ent, Store};
use dungeon_core::timer::Timer;
use dungeon_core::tween::{Tween, TweenMode, Vec3i};

fn plain_ent(id: u64, x: i32, y: i32) -> Ent {
    Ent {
        id,
        coords: IVec2::new(x, y),
        facing: IVec2::new(0, -1),
        layer: 0,
        health: None,
        power: None,
        solid: false,
        kinematic: false,
        velocity: IVec2::new(0, 0),
        controllable: false,
        goblin: false,
        tween: Tween::default(),
    }
}

#[test]
fn health_clamps_and_round_trips() {
    let mut h = Damageable::new(100);
    assert_eq!(h.current(), 100);
    assert_eq!(h.max(), 100);
    assert!(h.is_full());
    h.damage(30);
    assert_eq!(h.current(), 70);
    h.recover(30);
    assert_eq!(h.current(), 100);
    h.damage(250);
    assert_eq!(h.current(), 0);
    assert!(h.is_empty());
    h.recover(500);
    assert_eq!(h.current(), 100);
}

#[test]
fn health_max_adjustments() {
    let mut h = Damageable::new(10);
    h.extend(5);
    assert_eq!(h.max(), 15);
    assert_eq!(h.current(), 10);
    h.restore();
    assert_eq!(h.current(), 15);
    h.reduce(12);
    assert_eq!(h.max(), 3);
    assert_eq!(h.current(), 3);
    h.reduce(100);
    assert_eq!(h.max(), 1);
    h.raze();
    assert_eq!(h.current(), 0);
    let _ = Damage::new(7);
}

#[test]
fn timer_saturates_and_resets() {
    let mut t = Timer::from_millis(200);
    assert!(!t.finished());
    t.tick(150);
    assert_eq!(t.elapsed_millis(), 150);
    t.tick(5000);
    assert_eq!(t.elapsed_millis(), 200);
    assert!(t.finished());
    t.reset();
    assert_eq!(t.elapsed_millis(), 0);
    assert!(!t.finished());
}

#[test]
fn slide_tween_interpolates_linearly() {
    let mut tw = Tween::new(Vec3i::new(0, 0, 0));
    tw.to = Vec3i::new(10, -10, 0);
    tw.start(200, TweenMode::Move);
    assert_eq!(tw.value(), Vec3i::new(0, 0, 0));
    tw.tick(100);
    assert_eq!(tw.value(), Vec3i::new(5, -5, 0));
    tw.tick(100);
    assert_eq!(tw.value(), Vec3i::new(10, -10, 0));
    // Frozen at the terminal value once complete.
    tw.tick(1000);
    assert_eq!(tw.value(), Vec3i::new(10, -10, 0));
    assert!(tw.finished());
}

#[test]
fn lunge_tween_returns_to_start() {
    let mut tw = Tween::new(Vec3i::new(0, 0, 5));
    tw.to = Vec3i::new(64, 0, 5);
    tw.start(200, TweenMode::Attack);
    assert_eq!(tw.value(), Vec3i::new(0, 0, 5));
    tw.tick(100);
    assert_eq!(tw.value(), Vec3i::new(64, 0, 5));
    tw.tick(100);
    assert_eq!(tw.value(), Vec3i::new(0, 0, 5));
}

#[test]
fn tween_system_advances_only_running_tweens() {
    let mut store = Store::new();
    let mut a = plain_ent(1, 0, 0);
    a.tween = Tween::new(Vec3i::new(0, 0, 0));
    a.tween.to = Vec3i::new(100, 0, 0);
    a.tween.start(200, TweenMode::Move);
    store.spawn(a);
    let mut b = plain_ent(2, 0, 0);
    b.tween.tick(500);
    assert!(b.tween.finished());
    store.spawn(b);
    let done_before = store.get(2).unwrap().tween;

    dungeon_core::tween::tween(&mut store, 50);
    let ta = store.get(1).unwrap().tween;
    assert_eq!(ta.value(), Vec3i::new(25, 0, 0));
    assert_eq!(store.get(2).unwrap().tween, done_before);
}

#[test]
fn grid_maps_cells_to_world() {
    let g = Grid::new(64, 64);
    let w = g.map_to_world(IVec2::new(2, -3));
    assert_eq!(w, IVec2::new(128, -192));
}

#[test]
fn room_classification() {
    let room = Room { position: IVec2::new(0, 0), size: IVec2::new(5, 5) };
    assert_eq!(room.end(), IVec2::new(5, 5));
    assert_eq!(room.last(), IVec2::new(4, 4));
    assert_eq!(room.center(), IVec2::new(2, 2));
    assert!(room.contains(IVec2::new(0, 0)));
    assert!(room.contains(IVec2::new(4, 4)));
    assert!(!room.contains(IVec2::new(5, 0)));
    assert!(room.is_border(IVec2::new(0, 3)));
    assert!(!room.is_border(IVec2::new(2, 2)));
    assert!(room.is_door(IVec2::new(2, 0)));
    assert!(room.is_door(IVec2::new(4, 2)));
    assert!(!room.is_door(IVec2::new(1, 0)));
    assert!(room.is_exit(IVec2::new(2, -1)));
    assert!(room.is_exit(IVec2::new(5, 2)));
    assert!(room.is_entrance(IVec2::new(2, 1)));
    assert!(room.is_entrance(IVec2::new(2, 3)));
    assert!(room.is_center(IVec2::new(2, 2)));
    let cells = room.coords();
    assert_eq!(cells.len(), 25);
    assert_eq!(cells[0], IVec2::new(0, 0));
    assert_eq!(cells[6], IVec2::new(1, 1));
    assert_eq!(cells[24], IVec2::new(4, 4));
}

#[test]
fn wall_ring_of_plain_room() {
    let room = dungeon_core::utils::Room::new(IVec2::new(0, 0), IVec2::new(13, 13));
    assert!(room.is_wall(IVec2::new(0, 5)));
    assert!(room.is_wall(IVec2::new(12, 5)));
    assert!(!room.is_wall(IVec2::new(5, 5)));
}

#[test]
fn input_direction_priority() {
    assert_eq!(get_input_direction(true, true, true, true), IVec2::new(0, 1));
    assert_eq!(get_input_direction(false, true, true, false), IVec2::new(0, -1));
    assert_eq!(get_input_direction(false, false, true, true), IVec2::new(1, 0));
    assert_eq!(get_input_direction(false, false, false, true), IVec2::new(-1, 0));
    assert_eq!(get_input_direction(false, false, false, false), IVec2::new(0, 0));
}

#[test]
fn summed_direction_cancels_diagonals() {
    assert_eq!(get_direction(true, false, false, false), IVec2::new(0, 1));
    assert_eq!(get_direction(false, true, false, false), IVec2::new(0, -1));
    assert_eq!(get_direction(false, false, true, false), IVec2::new(-1, 0));
    assert_eq!(get_direction(true, false, true, false), IVec2::new(0, 0));
    assert_eq!(get_direction(true, true, false, false), IVec2::new(0, 0));
}

#[test]
fn neighbors_scan_in_fixed_order() {
    let p = Position(IVec2::new(3, 4));
    let n = p.get_neighbors();
    assert_eq!(n[0].0, IVec2::new(0, 1));
    assert_eq!(n[0].1 .0, IVec2::new(3, 5));
    assert_eq!(n[1].0, IVec2::new(0, -1));
    assert_eq!(n[1].1 .0, IVec2::new(3, 3));
    assert_eq!(n[2].0, IVec2::new(1, 0));
    assert_eq!(n[2].1 .0, IVec2::new(4, 4));
    assert_eq!(n[3].0, IVec2::new(-1, 0));
    assert_eq!(n[3].1 .0, IVec2::new(2, 4));
}

#[test]
fn blocked_move_is_dropped_silently() {
    let mut store = Store::new();
    let mut a = plain_ent(1, 0, 0);
    a.solid = true;
    a.kinematic = true;
    store.spawn(a);
    let mut wall = plain_ent(2, 0, 1);
    wall.solid = true;
    store.spawn(wall);

    move_event(&vec![MoveEvent { entity: 1, direction: IVec2::new(0, 1) }], &mut store).unwrap();
    let mut ps = PhysicsState::new();
    let committed = update(&mut ps, &mut store);
    assert!(committed.is_empty());
    assert_eq!(store.get(1).unwrap().coords, IVec2::new(0, 0));
    assert_eq!(store.get(1).unwrap().velocity, IVec2::new(0, 0));
}

#[test]
fn solid_entities_cannot_swap_cells() {
    let mut store = Store::new();
    let mut a = plain_ent(1, 0, 0);
    a.solid = true;
    a.kinematic = true;
    store.spawn(a);
    let mut b = plain_ent(2, 0, 1);
    b.solid = true;
    b.kinematic = true;
    store.spawn(b);

    move_event(
        &vec![
            MoveEvent { entity: 1, direction: IVec2::new(0, 1) },
            MoveEvent { entity: 2, direction: IVec2::new(0, -1) },
        ],
        &mut store,
    )
    .unwrap();
    let mut ps = PhysicsState::new();
    let committed = update(&mut ps, &mut store);
    assert!(committed.is_empty());
    assert_eq!(store.get(1).unwrap().coords, IVec2::new(0, 0));
    assert_eq!(store.get(2).unwrap().coords, IVec2::new(0, 1));
}

#[test]
fn contested_cell_goes_to_creation_order() {
    let mut store = Store::new();
    let mut a = plain_ent(1, 0, 0);
    a.solid = true;
    a.kinematic = true;
    store.spawn(a);
    let mut b = plain_ent(2, 2, 0);
    b.solid = true;
    b.kinematic = true;
    store.spawn(b);

    move_event(
        &vec![
            MoveEvent { entity: 1, direction: IVec2::new(1, 0) },
            MoveEvent { entity: 2, direction: IVec2::new(-1, 0) },
        ],
        &mut store,
    )
    .unwrap();
    let mut ps = PhysicsState::new();
    let committed = update(&mut ps, &mut store);
    assert_eq!(committed.len(), 1);
    assert_eq!(committed[0].entity, 1);
    assert_eq!(store.get(1).unwrap().coords, IVec2::new(1, 0));
    assert_eq!(store.get(2).unwrap().coords, IVec2::new(2, 0));
}

#[test]
fn no_signal_leaves_queue_untouched() {
    let mut store = Store::new();
    let mut g = plain_ent(1, 0, 0);
    g.goblin = true;
    store.spawn(g);
    let mut acts = Actions::default();
    acts.queue(Action::Wait);
    let before = acts.queued_actions();
    let mut rng = rng_from_seed(9);
    dungeon_core::ai::goblin_ai_movement(&mut acts, 0, &store, &mut rng);
    assert_eq!(acts.queued_actions(), before);
}

#[test]
fn tween_restart_for_missing_entity_is_a_desync() {
    let g = Grid::new(64, 64);
    let mut store = Store::new();
    store.spawn(plain_ent(1, 0, 0));
    let changed = vec![dungeon_core::physics::MoveCommitted {
        entity: 7,
        coords: IVec2::new(0, 1),
    }];
    let r = dungeon_core::bob::update_position(&g, &mut store, &changed);
    assert_eq!(r.unwrap_err().entity, 7);
}

#[test]
fn move_event_for_missing_entity_is_a_desync() {
    let mut store = Store::new();
    let r = move_event(&vec![MoveEvent { entity: 9, direction: IVec2::new(0, 1) }], &mut store);
    assert_eq!(r.unwrap_err().entity, 9);
}

#[test]
fn attack_naming_missing_entity_aborts_drain() {
    let mut store = Store::new();
    let mut acts = Actions::default();
    acts.queue(Action::Attack(42));
    let att = AttackState::new();
    let r = actions(200, &mut acts, &att, &mut store);
    assert_eq!(r.unwrap_err().entity, 42);
}

#[test]
fn occupancy_map_indices_agree() {
    let mut map = SpatialMap::new();
    map.set_position(1, IVec2::new(0, 0));
    map.set_position(2, IVec2::new(0, 0));
    map.set_position(3, IVec2::new(1, 0));
    assert_eq!(map.get(&IVec2::new(0, 0)).unwrap(), &vec![1u64, 2u64]);
    assert_eq!(map.get(&IVec2::new(1, 0)).unwrap(), &vec![3u64]);

    // Moving an entity atomically clears it from its old cell's list.
    map.set_position(1, IVec2::new(1, 0));
    assert_eq!(map.get(&IVec2::new(0, 0)).unwrap(), &vec![2u64]);
    assert_eq!(map.get(&IVec2::new(1, 0)).unwrap(), &vec![3u64, 1u64]);

    // Purging clears both sides.
    map.purge(3);
    assert_eq!(map.get(&IVec2::new(1, 0)).unwrap(), &vec![1u64]);
}

#[test]
fn attack_state_overwrites_and_removes() {
    let mut att = AttackState::new();
    let mut store = Store::new();
    let mut a = plain_ent(1, 0, 0);
    a.health = Some(Damageable::new(10));
    store.spawn(a);
    let mut b = plain_ent(2, 0, 0);
    b.health = Some(Damageable::new(10));
    store.spawn(b);
    dungeon_core::damage::update_state(&mut att, &store);
    // Rebuilt in creation order: on a shared cell the newest entry wins.
    assert_eq!(att.get(IVec2::new(0, 0)), Some(&2));
    assert!(att.has(IVec2::new(0, 0)));
    assert!(!att.has(IVec2::new(5, 5)));
}

#[test]
fn adjacent_player_draws_exactly_one_attack() {
    // A goblin surrounded by players on all four sides issues exactly one
    // attack per turn signal, never more.
    let mut store = Store::new();
    let mut g = plain_ent(1, 0, 0);
    g.goblin = true;
    store.spawn(g);
    for (id, (x, y)) in [(2, (0, 1)), (3, (0, -1)), (4, (1, 0)), (5, (-1, 0))] {
        let mut p = plain_ent(id, x, y);
        p.controllable = true;
        store.spawn(p);
    }
    let mut acts = Actions::default();
    let mut rng = rng_from_seed(7);
    goblin_turn(&mut acts, &store, &mut rng);
    let q = acts.queued_actions();
    assert_eq!(q, vec![Action::Attack(1), Action::Delay]);
}

#[test]
fn lone_goblin_takes_a_non_diagonal_step() {
    let mut store = Store::new();
    let mut g = plain_ent(1, 0, 0);
    g.goblin = true;
    store.spawn(g);
    let mut acts = Actions::default();
    let mut rng = rng_from_seed(3);
    for _ in 0..50 {
        goblin_turn(&mut acts, &store, &mut rng);
    }
    let q = acts.queued_actions();
    let mut moves = 0;
    for a in &q {
        match a {
            Action::Move(e, d) => {
                assert_eq!(*e, 1);
                assert!(d.x == 0 || d.y == 0, "diagonal step {:?}", d);
                assert!(-1 <= d.x && d.x <= 1 && -1 <= d.y && d.y <= 1);
                moves += 1;
            }
            Action::Delay => {}
            other => panic!("unexpected action {:?}", other),
        }
    }
    assert_eq!(moves, 50);
}

#[test]
fn drawn_steps_stay_in_range() {
    let mut rng = rng_from_seed(123);
    let mut seen_nonzero = false;
    for _ in 0..200 {
        let v = gen_step(&mut rng);
        assert!((-1..=1).contains(&v));
        if v != 0 {
            seen_nonzero = true;
        }
    }
    assert!(seen_nonzero);
}

#[test]
fn player_attack_expands_with_front_insertion() {
    // PlayerAttack re-enqueues Delay then Attack by front-insertion, so the
    // attack resolves at once and the pacing delay right after it.
    let mut store = Store::new();
    let mut p = plain_ent(1, 0, 0);
    p.controllable = true;
    store.spawn(p);
    let mut acts = Actions::default();
    acts.queue(Action::PlayerAttack(1));
    acts.queue(Action::Wait);
    let att = AttackState::new();
    let out = actions(200, &mut acts, &att, &mut store).unwrap();
    // No target was indexed: the attack is a no-op, not an error, and the
    // delay still wound the pacing timer back.
    assert!(out.damages.is_empty());
    assert_eq!(out.delays, 1);
    assert!(acts.queued_actions().is_empty());
}

#[test]
fn face_turns_entity_and_requeues_delay() {
    let mut store = Store::new();
    let mut p = plain_ent(1, 0, 0);
    p.controllable = true;
    store.spawn(p);
    let mut acts = Actions::default();
    acts.queue(Action::Face(1, IVec2::new(1, 0)));
    let att = AttackState::new();
    let out = actions(200, &mut acts, &att, &mut store).unwrap();
    assert_eq!(out.delays, 1);
    assert_eq!(store.get(1).unwrap().facing, IVec2::new(1, 0));
}
