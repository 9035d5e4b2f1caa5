use raidory::action::trig_player_action;
use raidory::attack::{base_attack, use_skill};
use raidory::battle::{Attacked, Stat};
use raidory::game_object::{Role, Target};
use raidory::geometry::{Position, Size, UNIT};
use raidory::monster::spawn_monster;
use raidory::player::{spawn_player, Class};
use raidory::simulation::tick;
use raidory::states::{ActionState, BattleState};
use raidory::targeting::detect_enemy;
use raidory::world::World;

/// A player and a monster fifty units apart.
fn duel(class: Class) -> (World, u64, u64) {
    let mut world = World::new();
    let p = spawn_player(
        &mut world,
        String::from("P"),
        Stat::new(200 * UNIT, 500, 1, 3000 * UNIT, 200 * UNIT),
        class,
        Position::new(0, 0),
    );
    let m = spawn_monster(
        &mut world,
        String::from("M"),
        Stat::new(20 * UNIT, 500, 1, 0, 200 * UNIT),
        Position::new(50 * UNIT as i32, 0),
    );
    (world, p, m)
}

#[test]
fn spawned_entities_start_idle() {
    let (world, p, m) = duel(Class::MAGE);
    let player = &world.entities[0];
    assert_eq!(player.id, p);
    assert!(matches!(&player.role, Role::Player(who) if who.name == "P"));
    assert_eq!(player.size, Some(Size { width: 50 * UNIT, height: 100 * UNIT }));
    assert_eq!(player.target, Target(None));
    assert_eq!(player.action_state, ActionState::IDLE);
    assert_eq!(player.battle_state, BattleState::IDLE);
    assert!(!player.skill_info.is_casting());
    let monster = &world.entities[1];
    assert_eq!(monster.id, m);
    assert!(matches!(&monster.role, Role::Monster(what) if what.name == "M" && what.exp == 20));
    assert_eq!(monster.size, Some(Size { width: 50 * UNIT, height: 80 * UNIT }));
}

#[test]
fn player_engages_and_strikes_a_monster_stage_by_stage() {
    let (mut world, p, m) = duel(Class::NONE);
    let delta = 50_000;
    let mut rounds = 0;
    while world.attacked_events.is_empty() {
        detect_enemy(&mut world);
        trig_player_action(&mut world);
        use_skill(&mut world);
        base_attack(&mut world, delta);
        rounds += 1;
        assert!(rounds < 100);
        if rounds == 1 {
            assert_eq!(world.entities[0].target, Target(Some(m)));
            assert_eq!(world.entities[0].action_state, ActionState::BATTLE);
        }
    }
    // One call opens the window, four more count a fifth of a second.
    assert_eq!(rounds, 5);
    assert_eq!(world.attacked_events, vec![Attacked::new(p, m)]);
    assert_eq!(world.entities[1].stat.hp.current, 495);
}

#[test]
fn melee_duel_runs_through_whole_ticks() {
    let (mut world, p, m) = duel(Class::NONE);
    let delta = 50_000;
    for _ in 0..5 {
        tick(&mut world, delta);
    }
    assert_eq!(world.entities[0].target, Target(Some(m)));
    assert_eq!(world.entities[0].action_state, ActionState::BATTLE);
    assert_eq!(world.entities[1].stat.hp.current, 495);
    // The strike made the monster turn on the player.
    assert_eq!(world.entities[1].target, Target(Some(p)));
    assert_eq!(world.entities[1].action_state, ActionState::BATTLE);
    assert!(world.attacked_events.is_empty());
    assert!(world.damage_events.is_empty());
    assert!(world.heal_events.is_empty());
}

#[test]
fn mage_duel_lands_a_bolt() {
    let (mut world, _, m) = duel(Class::MAGE);
    // A sixtieth of a second.
    let delta = 16_667;
    let mut ticks = 0;
    while world.entities[1].stat.hp.current == 500 {
        tick(&mut world, delta);
        ticks += 1;
        assert!(ticks < 100);
    }
    // The first call opens the window and sixty more count the second of
    // the cast. The bolt is fired on that tick and flies 16.667 units a
    // tick: after its second step its box reaches that of the monster.
    assert_eq!(ticks, 62);
    assert_eq!(world.entities[1].stat.hp.current, 490);
    assert!(world.projectiles.is_empty());
    assert_eq!(world.entities[0].target, Target(Some(m)));
}

#[test]
fn melee_duel_ends_with_the_death_of_the_monster() {
    let (mut world, p, m) = duel(Class::NONE);
    world.entities[1].stat.hp.current = 10;
    let delta = 200_000;
    let mut ticks = 0;
    while world.is_alive(m) {
        tick(&mut world, delta);
        ticks += 1;
        assert!(ticks < 100);
    }
    // Two strikes of five points: each takes a call to open the window and
    // a call to count it.
    assert_eq!(ticks, 4);
    assert_eq!(world.entities.len(), 1);
    assert_eq!(world.health_bars.len(), 3);
    assert!(world.health_bars.iter().all(|bar| bar.target == Some(p)));
    // The target is stale until the next targeting stage.
    assert_eq!(world.entities[0].target, Target(Some(m)));
    tick(&mut world, delta);
    assert_eq!(world.entities[0].target, Target(None));
    assert_eq!(world.entities[0].action_state, ActionState::IDLE);
    assert_eq!(world.entities[0].battle_state, BattleState::IDLE);
    for _ in 0..10 {
        tick(&mut world, delta);
        assert!(!world.is_alive(m));
    }
}

#[test]
fn empty_arena_ticks() {
    let mut world = World::new();
    tick(&mut world, 16_667);
    assert!(world.entities.is_empty());
    assert!(world.projectiles.is_empty());
    assert_eq!(world.next_id, 0);
}
