use raidory::battle::{Damage, DamageType, Exp, Heal, HealType, Health, Stat};
use raidory::components::{
    CastingBar, CastingBarType, HealthBar, HealthBarType, Ratio, Team, TeamType,
};
use raidory::geometry::Position;
use raidory::monster::spawn_monster;
use raidory::player::{spawn_player, Class};
use raidory::resolution::{damage, die, heal};
use raidory::system::{spawn_castingbar, spawn_healthbar};
use raidory::world::World;

fn arena() -> (World, u64, u64) {
    let mut world = World::new();
    let stat = Stat::new(200, 500, 1, 3000, 200);
    let p = spawn_player(&mut world, String::from("P"), stat, Class::MAGE, Position::new(0, 0));
    let m = spawn_monster(&mut world, String::from("M"), stat, Position::new(400, 0));
    (world, p, m)
}

fn hit(attacker: u64, attacked: u64, points: i64) -> Damage {
    Damage { attacker, damage: points, damage_type: DamageType::Magic, attacked }
}

#[test]
fn stat_starts_at_full_health() {
    let stat = Stat::new(200, 500, 7, 3000, 150);
    assert_eq!(stat.speed, 200);
    assert_eq!(stat.hp, Health { current: 500, max: 500 });
    assert_eq!(stat.level, 7);
    assert_eq!(stat.detect_range, 3000);
    assert_eq!(stat.attack_range, 150);
}

#[test]
fn health_ratio_is_current_over_max() {
    let hp = Health { current: 125, max: 500 };
    assert_eq!(hp.ratio(), Ratio { numerator: 125, denominator: 500 });
    let gone = Health { current: -3, max: 0 };
    assert_eq!(gone.ratio(), Ratio { numerator: -3, denominator: 0 });
}

#[test]
fn health_stays_in_range() {
    let mut hp = Health { current: i64::MIN + 1, max: 10 };
    hp.reduce(5);
    assert_eq!(hp.current, i64::MIN);
    let mut up = Health { current: i64::MAX - 1, max: 10 };
    up.reduce(-5);
    assert_eq!(up.current, i64::MAX);
    assert!(!up.is_spent());
    assert!(Health { current: 0, max: 10 }.is_spent());
}

#[test]
fn experience_for_a_level() {
    let mut exp = Exp { current: 3, max: 0 };
    exp.from_level(1);
    // 15.5 - 10.5 + 4.5 = 9.5 points.
    assert_eq!(exp.max, 19);
    exp.from_level(2);
    // 62 - 21 + 4.5 = 45.5 points.
    assert_eq!(exp.max, 91);
    exp.from_level(0);
    assert_eq!(exp.max, 9);
    exp.from_level(u32::MAX);
    let level = u32::MAX as u128;
    assert_eq!(exp.max, 31 * level * level - 21 * level + 9);
    assert_eq!(exp.current, 3);
}

#[test]
fn damage_is_applied_in_order_and_drained() {
    let (mut world, p, m) = arena();
    world.damage_events.push(hit(p, m, 10));
    world.damage_events.push(hit(p, 999, 1000));
    world.damage_events.push(hit(p, m, 25));
    world.damage_events.push(hit(m, p, 1));
    damage(&mut world);
    assert_eq!(world.entities[0].stat.hp, Health { current: 499, max: 500 });
    assert_eq!(world.entities[1].stat.hp, Health { current: 465, max: 500 });
    assert!(world.damage_events.is_empty());
    damage(&mut world);
    assert_eq!(world.entities[1].stat.hp.current, 465);
}

#[test]
fn heal_takes_its_value_off_the_health() {
    let (mut world, p, m) = arena();
    world.heal_events.push(Heal { healer: p, value: 40, heal_type: HealType::direct, healed: m });
    heal(&mut world);
    assert_eq!(world.entities[1].stat.hp.current, 460);
    assert_eq!(world.entities[0].stat.hp.current, 500);
    assert!(world.heal_events.is_empty());
}

#[test]
fn death_sweep_removes_the_dead_and_their_bars() {
    let (mut world, p, m) = arena();
    assert_eq!(world.health_bars.len(), 6);
    assert_eq!(world.casting_bars.len(), 1);
    spawn_castingbar(&mut world, m);
    world.damage_events.push(hit(p, m, 500));
    world.damage_events.push(hit(m, p, 499));
    damage(&mut world);
    die(&mut world);
    assert!(world.is_alive(p));
    assert!(!world.is_alive(m));
    assert_eq!(world.entities.len(), 1);
    // The player lost health and still stands.
    assert_eq!(world.entities[0].stat.hp.current, 1);
    assert_eq!(
        world.health_bars,
        vec![
            HealthBar { bar_type: HealthBarType::FRONT, target: Some(p) },
            HealthBar { bar_type: HealthBarType::ANIMATION, target: Some(p) },
            HealthBar { bar_type: HealthBarType::BACKGROUND, target: Some(p) },
        ]
    );
    assert_eq!(
        world.casting_bars,
        vec![CastingBar { bar_type: CastingBarType::FRONT, target: Some(p) }]
    );
}

#[test]
fn death_sweep_is_idempotent() {
    let (mut world, _, m) = arena();
    world.entities[1].stat.hp.current = -20;
    die(&mut world);
    assert_eq!(world.entities.len(), 1);
    assert_eq!(world.health_bars.len(), 3);
    die(&mut world);
    assert_eq!(world.entities.len(), 1);
    assert_eq!(world.health_bars.len(), 3);
    assert!(!world.is_alive(m));
}

#[test]
fn bar_bound_to_nothing_outlives_the_sweep() {
    let (mut world, _, m) = arena();
    world.health_bars.push(HealthBar { bar_type: HealthBarType::FRONT, target: None });
    world.health_bars.push(HealthBar { bar_type: HealthBarType::FRONT, target: Some(555) });
    world.entities[1].stat.hp.current = 0;
    die(&mut world);
    assert_eq!(world.health_bars.len(), 5);
    assert!(world.health_bars.iter().all(|b| b.target != Some(m)));
}

#[test]
fn spawned_identifiers_are_never_reused() {
    let (mut world, p, m) = arena();
    assert_eq!((p, m), (0, 1));
    world.entities[1].stat.hp.current = 0;
    die(&mut world);
    let stat = Stat::new(1, 1, 1, 1, 1);
    let next = spawn_monster(&mut world, String::from("N"), stat, Position::new(0, 0));
    assert_eq!(next, 2);
    assert_eq!(world.index_of(next), Some(1));
    assert_eq!(world.index_of(m), None);
    assert_eq!(world.entities[1].team, Team(TeamType::MONSTER));
    assert_eq!(world.entities[1].class, None);
    assert_eq!(world.entities[0].class, Some(Class::MAGE));
}

#[test]
fn health_bar_has_three_layers() {
    let mut world = World::new();
    spawn_healthbar(&mut world, 8);
    assert_eq!(
        world.health_bars,
        vec![
            HealthBar { bar_type: HealthBarType::FRONT, target: Some(8) },
            HealthBar { bar_type: HealthBarType::ANIMATION, target: Some(8) },
            HealthBar { bar_type: HealthBarType::BACKGROUND, target: Some(8) },
        ]
    );
}
