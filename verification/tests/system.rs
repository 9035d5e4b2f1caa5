use raidory::battle::Stat;
use raidory::components::{Team, TeamType};
use raidory::geometry::UNIT;
use raidory::game_object::Role;
use raidory::system::{
    animate_sprite, random_spawn_monster, spawn_timer, spawn_wild_monster, AnimationTimer,
};
use raidory::tree::AnimationIndices;
use raidory::ui::{CurrentPage, Page};
use raidory::world::World;

#[test]
fn spawn_timer_fires_once_a_round() {
    let mut timer = spawn_timer(5_000_000);
    assert!(!timer.tick(2_000_000));
    assert!(!timer.tick(2_999_999));
    assert!(timer.tick(1));
    // The round begins anew.
    assert!(!timer.tick(4_999_999));
    assert!(timer.tick(2));
    // One microsecond is left over from the last round.
    assert!(timer.tick(4_999_999));
}

#[test]
fn timer_without_a_length_fires_on_every_tick() {
    let mut timer = spawn_timer(0);
    assert!(timer.tick(0));
    assert!(timer.tick(7));
}

#[test]
fn monsters_spawn_when_the_timer_fires() {
    let mut world = World::new();
    let mut timer = spawn_timer(5_000_000);
    assert_eq!(random_spawn_monster(&mut world, &mut timer, 4_000_000), None);
    assert!(world.entities.is_empty());
    for round in 0..20u64 {
        let spawned = random_spawn_monster(&mut world, &mut timer, 5_000_000);
        assert_eq!(spawned, Some(round));
        let monster = &world.entities[round as usize];
        assert!(matches!(&monster.role, Role::Monster(what) if what.name == "Devil Cruise"));
        assert_eq!(monster.team, Team(TeamType::MONSTER));
        assert_eq!(monster.stat, Stat::new(20 * UNIT, 30, 1, 5000 * UNIT, 50 * UNIT));
        assert!(400_000 <= monster.position.x && monster.position.x < 900_000);
        assert!(0 <= monster.position.y && monster.position.y < 500_000);
    }
    assert_eq!(world.health_bars.len(), 60);
}

#[test]
fn no_monster_spawns_without_an_identifier_left() {
    let mut world = World::new();
    world.next_id = u64::MAX;
    let mut timer = spawn_timer(1);
    assert_eq!(random_spawn_monster(&mut world, &mut timer, 1), None);
    assert!(world.entities.is_empty());
}

#[test]
fn wild_monster_stands_where_the_numbers_say() {
    let mut world = World::new();
    spawn_wild_monster(&mut world, 0, 0);
    spawn_wild_monster(&mut world, 499_999, 500_000);
    spawn_wild_monster(&mut world, u32::MAX, 1_234_567);
    assert_eq!((world.entities[0].position.x, world.entities[0].position.y), (400_000, 0));
    assert_eq!((world.entities[1].position.x, world.entities[1].position.y), (899_999, 0));
    // 4294967295 = 8589 * 500000 + 467295.
    assert_eq!((world.entities[2].position.x, world.entities[2].position.y), (867_295, 234_567));
}

#[test]
fn animation_advances_when_its_timer_fires() {
    let indices = AnimationIndices { first: 1, last: 29 };
    let mut timer = AnimationTimer::new(100_000);
    assert_eq!(animate_sprite(&indices, &mut timer, 1, 50_000), 1);
    assert_eq!(animate_sprite(&indices, &mut timer, 1, 50_000), 2);
    assert_eq!(animate_sprite(&indices, &mut timer, 28, 100_000), 29);
    assert_eq!(animate_sprite(&indices, &mut timer, 29, 100_000), 1);
}

#[test]
fn frame_after_the_last_is_the_first() {
    let indices = AnimationIndices { first: 3, last: 5 };
    assert_eq!(indices.next(3), 4);
    assert_eq!(indices.next(5), 3);
    assert_eq!(indices.next(9), 10);
    assert_eq!(indices.next(usize::MAX), usize::MAX);
}

#[test]
fn page_shows_while_it_is_current() {
    let page = Page(CurrentPage::MENU);
    assert!(page.is_visible(&CurrentPage::MENU));
    assert!(!page.is_visible(&CurrentPage::SETTINGS));
    assert!(!Page(CurrentPage::ALWAYS).is_visible(&CurrentPage::MENU));
}
