use raidory::action::{move_gameobject, trig_monster_action, trig_player_action};
use raidory::battle::Stat;
use raidory::command::{order_move, select_gameobject, SelectedList};
use raidory::components::Ratio;
use raidory::game_object::{MoveTarget, Target};
use raidory::geometry::{Position, UNIT};
use raidory::monster::spawn_monster;
use raidory::player::{spawn_player, Class};
use raidory::states::{ActionState, BattleState};
use raidory::targeting::detect_enemy;
use raidory::world::World;

/// A point given in world units.
fn at(x: i32, y: i32) -> Position {
    Position::new(x * UNIT as i32, y * UNIT as i32)
}

/// A player and a monster, `distance` units apart, with ranges in units.
fn duel(distance: i32, detect_range: u32, attack_range: u32) -> World {
    let mut world = World::new();
    spawn_player(
        &mut world,
        String::from("P"),
        Stat::new(200 * UNIT, 500, 1, detect_range * UNIT, attack_range * UNIT),
        Class::NONE,
        at(0, 0),
    );
    spawn_monster(
        &mut world,
        String::from("M"),
        Stat::new(20 * UNIT, 500, 1, detect_range * UNIT, attack_range * UNIT),
        at(distance, 0),
    );
    world
}

#[test]
fn entity_without_target_is_idle() {
    let mut world = duel(50, 3000, 200);
    world.entities[0].action_state = ActionState::BATTLE;
    world.entities[0].battle_state = BattleState::CASTING;
    world.entities[1].action_state = ActionState::BATTLE;
    world.entities[1].battle_state = BattleState::MOVE;
    trig_player_action(&mut world);
    assert_eq!(world.entities[0].action_state, ActionState::IDLE);
    assert_eq!(world.entities[0].battle_state, BattleState::IDLE);
    assert_eq!(world.entities[1].action_state, ActionState::BATTLE);
    trig_monster_action(&mut world);
    assert_eq!(world.entities[1].action_state, ActionState::IDLE);
    assert_eq!(world.entities[1].battle_state, BattleState::IDLE);
}

#[test]
fn target_in_detect_range_means_battle() {
    let mut world = duel(50, 3000, 200);
    detect_enemy(&mut world);
    trig_player_action(&mut world);
    trig_monster_action(&mut world);
    assert_eq!(world.entities[0].action_state, ActionState::BATTLE);
    assert_eq!(world.entities[0].battle_state, BattleState::IDLE);
    assert_eq!(world.entities[1].action_state, ActionState::BATTLE);
}

#[test]
fn target_beyond_both_ranges_means_closing_the_gap() {
    let mut world = duel(500, 100, 50);
    let m = world.entities[1].id;
    world.entities[0].target = Target(Some(m));
    trig_player_action(&mut world);
    assert_eq!(world.entities[0].action_state, ActionState::IDLE);
    assert_eq!(world.entities[0].battle_state, BattleState::MOVE);
}

#[test]
fn casting_entity_does_not_start_to_close_the_gap() {
    let mut world = duel(500, 100, 50);
    let m = world.entities[1].id;
    world.entities[0].target = Target(Some(m));
    world.entities[0].battle_state = BattleState::CASTING;
    trig_player_action(&mut world);
    assert_eq!(world.entities[0].battle_state, BattleState::CASTING);
}

#[test]
fn player_under_a_move_order_keeps_it() {
    let mut world = duel(50, 3000, 200);
    let m = world.entities[1].id;
    world.entities[0].target = Target(Some(m));
    world.entities[0].action_state = ActionState::MOVE;
    trig_player_action(&mut world);
    assert_eq!(world.entities[0].action_state, ActionState::MOVE);
}

#[test]
fn unresolved_target_breaks_the_cast() {
    let mut world = duel(50, 3000, 200);
    world.entities[0].target = Target(Some(77));
    assert!(!world.entities[0].skill_info.cast(1_000_000, 0));
    assert!(world.entities[0].skill_info.is_casting());
    trig_player_action(&mut world);
    assert!(!world.entities[0].skill_info.is_casting());
    assert_eq!(world.entities[0].skill_info.ratio(), Ratio { numerator: 0, denominator: 1 });
}

#[test]
fn entity_in_battle_walks_to_its_target_while_closing_the_gap() {
    let mut world = duel(300, 3000, 200);
    detect_enemy(&mut world);
    world.entities[0].action_state = ActionState::BATTLE;
    world.entities[0].battle_state = BattleState::MOVE;
    assert!(!world.entities[0].skill_info.cast(1_000_000, 0));
    move_gameobject(&mut world, 500_000);
    // 200 units a second for half a second.
    assert_eq!(world.entities[0].position, at(100, 0));
    assert!(!world.entities[0].skill_info.is_casting());
    // The monster is idle in battle and stays.
    assert_eq!(world.entities[1].position, at(300, 0));
}

#[test]
fn entities_walk_towards_where_the_others_stood() {
    let mut world = duel(300, 3000, 200);
    detect_enemy(&mut world);
    for e in world.entities.iter_mut() {
        e.action_state = ActionState::BATTLE;
        e.battle_state = BattleState::MOVE;
    }
    move_gameobject(&mut world, 1_000_000);
    assert_eq!(world.entities[0].position, at(200, 0));
    assert_eq!(world.entities[1].position, at(280, 0));
}

#[test]
fn idle_entity_stays() {
    let mut world = duel(300, 3000, 200);
    detect_enemy(&mut world);
    move_gameobject(&mut world, 1_000_000);
    assert_eq!(world.entities[0].position, at(0, 0));
}

#[test]
fn move_order_walks_to_the_point_and_breaks_the_cast() {
    let mut world = duel(50, 3000, 200);
    let mut selected = SelectedList::new();
    selected.entities.push(world.entities[0].id);
    assert!(!world.entities[0].skill_info.cast(200_000, 0));
    order_move(&mut world, &selected, at(0, -400));
    assert_eq!(world.entities[0].move_target, MoveTarget(Some(at(0, -400))));
    assert_eq!(world.entities[0].action_state, ActionState::MOVE);
    assert_eq!(world.entities[1].move_target, MoveTarget(None));
    move_gameobject(&mut world, 1_000_000);
    assert_eq!(world.entities[0].position, at(0, -200));
    assert!(!world.entities[0].skill_info.is_casting());
    move_gameobject(&mut world, 1_000_000);
    move_gameobject(&mut world, 1_000_000);
    // Arrived: the direction has no length and the entity stays.
    assert_eq!(world.entities[0].position, at(0, -400));
}

#[test]
fn move_state_without_a_point_drifts_along_x() {
    let mut world = duel(50, 3000, 200);
    world.entities[0].action_state = ActionState::MOVE;
    move_gameobject(&mut world, 1_000_000);
    assert_eq!(world.entities[0].position, at(200, 0));
}

#[test]
fn click_on_an_entity_ends_the_order() {
    let mut world = duel(50, 3000, 200);
    let mut selected = SelectedList::new();
    selected.entities.push(world.entities[0].id);
    selected.entities.push(world.entities[1].id);
    // The click lands on the monster, the second entity of the arena.
    order_move(&mut world, &selected, at(50, 0));
    assert_eq!(world.entities[0].action_state, ActionState::MOVE);
    assert_eq!(world.entities[1].action_state, ActionState::IDLE);
    assert_eq!(world.entities[1].move_target, MoveTarget(None));
    // A click on the first entity orders nobody.
    let mut again = duel(50, 3000, 200);
    order_move(&mut again, &selected, at(0, 0));
    assert_eq!(again.entities[0].action_state, ActionState::IDLE);
    assert_eq!(again.entities[1].action_state, ActionState::IDLE);
}

#[test]
fn click_selects_the_entity_under_it() {
    let world = duel(20, 3000, 200);
    let p = world.entities[0].id;
    let m = world.entities[1].id;
    let mut selected = SelectedList::new();
    select_gameobject(&world, &mut selected, at(-20, 0), false);
    assert_eq!(selected.entities, vec![p]);
    // Both boxes lie under this click; the last one wins.
    select_gameobject(&world, &mut selected, at(10, 0), false);
    assert_eq!(selected.entities, vec![m]);
    select_gameobject(&world, &mut selected, at(10, 0), true);
    assert_eq!(selected.entities, vec![m, p, m]);
    select_gameobject(&world, &mut selected, at(1000, 1000), false);
    assert_eq!(selected.entities, vec![m, p, m]);
    assert!(selected.contains(p));
    assert!(!selected.contains(99));
}
