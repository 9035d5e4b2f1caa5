use raidory::battle::Stat;
use raidory::game_object::Target;
use raidory::geometry::Position;
use raidory::monster::spawn_monster;
use raidory::player::{spawn_player, Class};
use raidory::resolution::die;
use raidory::targeting::detect_enemy;
use raidory::world::World;

fn stat(detect_range: u32) -> Stat {
    Stat::new(200, 500, 1, detect_range, 200)
}

#[test]
fn nearest_monster_in_range_becomes_the_target() {
    let mut world = World::new();
    let a = spawn_player(&mut world, String::from("A"), stat(100), Class::NONE, Position::new(0, 0));
    let far = spawn_monster(&mut world, String::from("far"), stat(0), Position::new(80, 0));
    let near = spawn_monster(&mut world, String::from("near"), stat(0), Position::new(0, 50));
    detect_enemy(&mut world);
    assert_eq!(world.entities[0].id, a);
    assert_eq!(world.entities[0].target, Target(Some(near)));
    assert_ne!(world.entities[0].target, Target(Some(far)));
    // The monsters detect nothing with a range of zero.
    assert_eq!(world.entities[1].target, Target(None));
    assert_eq!(world.entities[2].target, Target(None));
}

#[test]
fn monster_out_of_range_is_not_targeted() {
    let mut world = World::new();
    spawn_player(&mut world, String::from("A"), stat(100), Class::NONE, Position::new(0, 0));
    spawn_monster(&mut world, String::from("m"), stat(0), Position::new(101, 0));
    detect_enemy(&mut world);
    assert_eq!(world.entities[0].target, Target(None));
}

#[test]
fn monster_on_the_border_of_the_range_is_targeted() {
    let mut world = World::new();
    spawn_player(&mut world, String::from("A"), stat(100), Class::NONE, Position::new(0, 0));
    let m = spawn_monster(&mut world, String::from("m"), stat(0), Position::new(60, 80));
    detect_enemy(&mut world);
    assert_eq!(world.entities[0].target, Target(Some(m)));
}

#[test]
fn equally_near_monsters_are_taken_in_arena_order() {
    let mut world = World::new();
    spawn_player(&mut world, String::from("A"), stat(100), Class::NONE, Position::new(0, 0));
    let first = spawn_monster(&mut world, String::from("m1"), stat(0), Position::new(30, 40));
    spawn_monster(&mut world, String::from("m2"), stat(0), Position::new(-50, 0));
    detect_enemy(&mut world);
    assert_eq!(world.entities[0].target, Target(Some(first)));
}

#[test]
fn no_target_is_picked_on_the_same_team() {
    let mut world = World::new();
    spawn_player(&mut world, String::from("A"), stat(100), Class::NONE, Position::new(0, 0));
    spawn_player(&mut world, String::from("B"), stat(100), Class::NONE, Position::new(1, 0));
    detect_enemy(&mut world);
    assert_eq!(world.entities[0].target, Target(None));
    assert_eq!(world.entities[1].target, Target(None));
}

#[test]
fn monsters_target_players_too() {
    let mut world = World::new();
    let p = spawn_player(&mut world, String::from("A"), stat(0), Class::NONE, Position::new(0, 0));
    spawn_monster(&mut world, String::from("m"), stat(10), Position::new(6, 8));
    detect_enemy(&mut world);
    assert_eq!(world.entities[0].target, Target(None));
    assert_eq!(world.entities[1].target, Target(Some(p)));
}

#[test]
fn stale_target_is_cleared_by_the_targeting_stage() {
    let mut world = World::new();
    spawn_player(&mut world, String::from("A"), stat(100), Class::NONE, Position::new(0, 0));
    let m = spawn_monster(&mut world, String::from("m"), stat(0), Position::new(10, 0));
    let other = spawn_monster(&mut world, String::from("o"), stat(0), Position::new(20, 0));
    detect_enemy(&mut world);
    assert_eq!(world.entities[0].target, Target(Some(m)));
    world.entities[1].stat.hp.current = 0;
    die(&mut world);
    assert!(!world.is_alive(m));
    assert_eq!(world.entities[0].target, Target(Some(m)));
    detect_enemy(&mut world);
    // Cleared on this tick, and a new target only on the next.
    assert_eq!(world.entities[0].target, Target(None));
    detect_enemy(&mut world);
    assert_eq!(world.entities[0].target, Target(Some(other)));
}

#[test]
fn live_target_is_kept_when_a_nearer_enemy_appears() {
    let mut world = World::new();
    spawn_player(&mut world, String::from("A"), stat(100), Class::NONE, Position::new(0, 0));
    let m = spawn_monster(&mut world, String::from("m"), stat(0), Position::new(50, 0));
    detect_enemy(&mut world);
    spawn_monster(&mut world, String::from("n"), stat(0), Position::new(5, 0));
    detect_enemy(&mut world);
    assert_eq!(world.entities[0].target, Target(Some(m)));
}
