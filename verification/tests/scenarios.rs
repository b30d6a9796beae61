use dungeon_core::action::{actions, Action, Actions};
use dungeon_core::bob::{update_position, SpatialMap};
use dungeon_core::damage::{damage, death, update_state, AttackState, Damageable};
use dungeon_core::grid::{Grid, IVec2};
use dungeon_core::physics::{move_event, update, MoveCommitted, MoveEvent, PhysicsState};
use dungeon_core::player::input;
use dungeon_core::store::{Ent, Store};
use dungeon_core::tween::{Tween, TweenMode, Vec3i};

fn base_ent(id: u64, x: i32, y: i32) -> Ent {
    Ent {
        id,
        coords: IVec2::new(x, y),
        facing: IVec2::new(0, -1),
        layer: 0,
        health: None,
        power: None,
        solid: false,
        kinematic: false,
        velocity: IVec2::new(0, 0),
        controllable: false,
        goblin: false,
        tween: Tween::default(),
    }
}

#[test]
fn player_move_north_commits_and_slides() {
    // A player facing north presses north with the faced cell empty: the
    // cell becomes (0, 1), a move-committed event fires, and a slide tween
    // starts from the old rendered position toward the new cell.
    let grid = Grid::new(1, 1);
    let mut store = Store::new();
    let mut player = base_ent(1, 0, 0);
    player.facing = IVec2::new(0, 1);
    player.solid = true;
    player.kinematic = true;
    player.controllable = true;
    store.spawn(player);

    let mut acts = Actions::default();
    let north = IVec2::new(0, 1);
    let accepted = input(&mut acts, 1, north, north, false, false);
    assert!(accepted);
    assert!(acts.is_locked());

    let att = AttackState::new();
    let out = actions(200, &mut acts, &att, &mut store).unwrap();
    assert_eq!(out.moves.len(), 1);
    assert_eq!(out.moves[0], MoveEvent { entity: 1, direction: north });
    assert_eq!(out.ticks, 1);

    move_event(&out.moves, &mut store).unwrap();
    let mut pstate = PhysicsState::new();
    let committed = update(&mut pstate, &mut store);
    assert_eq!(committed.len(), 1);
    assert_eq!(committed[0], MoveCommitted { entity: 1, coords: IVec2::new(0, 1) });
    assert_eq!(store.get(1).unwrap().coords, IVec2::new(0, 1));
    assert_eq!(store.get(1).unwrap().velocity, IVec2::new(0, 0));

    update_position(&grid, &mut store, &committed).unwrap();
    let tw = store.get(1).unwrap().tween;
    assert_eq!(tw.mode, TweenMode::Move);
    assert_eq!(tw.from, Vec3i::new(0, 0, 0));
    assert_eq!(tw.to, Vec3i::new(0, 1, 0));
    assert_eq!(tw.value(), Vec3i::new(0, 0, 0));
}

#[test]
fn player_attack_damages_enemy_and_lunges() {
    // Attacking the faced cell holding a 20-health enemy with power 12:
    // a damage-applied event (player, enemy, 12) fires, the enemy drops to
    // 8 health, and a lunge tween starts on the player.
    let grid = Grid::new(64, 64);
    let mut store = Store::new();
    let mut player = base_ent(1, 0, 0);
    player.facing = IVec2::new(0, 1);
    player.controllable = true;
    player.power = Some(12);
    player.health = Some(Damageable::new(200));
    store.spawn(player);
    let mut enemy = base_ent(2, 0, 1);
    enemy.health = Some(Damageable::new(20));
    store.spawn(enemy);

    let mut att = AttackState::new();
    update_state(&mut att, &store);
    assert_eq!(att.get(IVec2::new(0, 1)), Some(&2));

    let mut acts = Actions::default();
    let accepted = input(&mut acts, 1, IVec2::new(0, 1), IVec2::new(0, 0), true, false);
    assert!(accepted);

    let out = actions(200, &mut acts, &att, &mut store).unwrap();
    assert_eq!(out.damages.len(), 1);
    assert_eq!(out.damages[0].source, 1);
    assert_eq!(out.damages[0].target, 2);
    assert_eq!(out.delays, 1);

    let applied = damage(&grid, &out.damages, &mut store);
    assert_eq!(applied.len(), 1);
    assert_eq!(applied[0].source, 1);
    assert_eq!(applied[0].target, 2);
    assert_eq!(applied[0].amount, 12);
    assert_eq!(store.get(2).unwrap().health.unwrap().current(), 8);

    let tw = store.get(1).unwrap().tween;
    assert_eq!(tw.mode, TweenMode::Attack);
    assert_eq!(tw.from, Vec3i::new(0, 0, 0));
    assert_eq!(tw.to, Vec3i::new(0, 64, 0));
    // A lunge reaches the target exactly half-way through its period.
    let mut mid = tw;
    mid.tick(100);
    assert_eq!(mid.value(), Vec3i::new(0, 64, 0));
}

#[test]
fn dead_enemy_is_purged_from_both_indices() {
    // An enemy reduced to zero health is destroyed: the entity-destroyed
    // event fires and it is purged from the occupancy and attack indices
    // within the same combat-resolution cycle.
    let mut store = Store::new();
    let mut player = base_ent(1, 0, 0);
    player.health = Some(Damageable::new(200));
    store.spawn(player);
    let mut enemy = base_ent(2, 0, 1);
    let mut h = Damageable::new(20);
    h.damage(20);
    enemy.health = Some(h);
    store.spawn(enemy);

    let mut map = SpatialMap::new();
    map.set_position(1, IVec2::new(0, 0));
    map.set_position(2, IVec2::new(0, 1));
    let mut att = AttackState::new();
    update_state(&mut att, &store);
    assert_eq!(att.get(IVec2::new(0, 1)), Some(&2));

    let destroyed = death(&mut store, &mut map, &mut att);
    assert_eq!(destroyed, vec![2]);
    assert!(store.get(2).is_none());
    assert!(store.get(1).is_some());
    assert!(map.get(&IVec2::new(0, 1)).map(|v| v.contains(&2)) != Some(true));
    assert_eq!(att.get(IVec2::new(0, 1)), None);
    assert_eq!(att.get(IVec2::new(0, 0)), Some(&1));
}

#[test]
fn lock_clears_only_when_period_completes_on_empty_queue() {
    // While locked a second player intent is rejected; the queue empties
    // during the drain, and the lock clears only on a later pacing-timer
    // completion that finds the queue empty.
    let mut store = Store::new();
    let mut player = base_ent(1, 0, 0);
    player.controllable = true;
    store.spawn(player);

    let mut acts = Actions::default();
    let first = input(&mut acts, 1, IVec2::new(0, -1), IVec2::new(0, 0), false, true);
    assert!(first);
    assert!(acts.is_locked());

    // A second intent while locked is rejected and queues nothing.
    let before = acts.queued_actions();
    let second = input(&mut acts, 1, IVec2::new(0, 1), IVec2::new(0, 1), false, false);
    assert!(!second);
    assert_eq!(acts.queued_actions(), before);
    assert!(acts.is_locked());

    // The period elapses: the queue (Wait, Tick) drains, but the lock holds
    // because the completion did not find the queue empty.
    let att = AttackState::new();
    let out = actions(200, &mut acts, &att, &mut store).unwrap();
    assert_eq!(out.ticks, 1);
    assert!(acts.queued_actions().is_empty());
    assert!(acts.is_locked());

    // The AI pass for the tick queues its pacing delay, which the next
    // drain consumes, winding the timer back.
    acts.queue(Action::Delay);
    let out2 = actions(0, &mut acts, &att, &mut store).unwrap();
    assert_eq!(out2.delays, 1);
    assert!(acts.is_locked());

    // Mid-period nothing happens; on completion with an empty queue the
    // lock finally clears.
    let _ = actions(199, &mut acts, &att, &mut store).unwrap();
    assert!(acts.is_locked());
    let _ = actions(1, &mut acts, &att, &mut store).unwrap();
    assert!(!acts.is_locked());
}
