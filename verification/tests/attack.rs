use raidory::attack::{attack_profile, base_attack, use_skill, AttackEffect, AttackProfile};
use raidory::battle::{Attacked, DamageType, Stat};
use raidory::components::{Team, TeamType};
use raidory::game_object::Target;
use raidory::geometry::{Position, Size, UNIT};
use raidory::monster::spawn_monster;
use raidory::player::{spawn_player, Class};
use raidory::projectile::{Projectile, ProjectileType};
use raidory::resolution::attacked;
use raidory::skill::SkillCode;
use raidory::states::{ActionState, BattleState};
use raidory::world::World;

/// A point given in world units.
fn at(x: i32, y: i32) -> Position {
    Position::new(x * UNIT as i32, y * UNIT as i32)
}

fn duel(class: Class, level: u32) -> World {
    let mut world = World::new();
    spawn_player(
        &mut world,
        String::from("P"),
        Stat::new(200 * UNIT, 500, level, 3000 * UNIT, 200 * UNIT),
        class,
        at(0, 0),
    );
    spawn_monster(
        &mut world,
        String::from("M"),
        Stat::new(20 * UNIT, 500, 1, 0, 200 * UNIT),
        at(50, 0),
    );
    let m = world.entities[1].id;
    world.entities[0].target = Target(Some(m));
    world.entities[0].action_state = ActionState::BATTLE;
    world
}

#[test]
fn skill_table_holds_the_two_base_attacks() {
    let melee = AttackProfile { cast_time: 200_000, effect: AttackEffect::Strike { per_level: 5 } };
    let ranged = AttackProfile {
        cast_time: 1_000_000,
        effect: AttackEffect::Shot {
            speed: 1000 * UNIT,
            damage: 10,
            damage_type: Some(DamageType::Magic),
            heal_type: None,
            lifetime: 2_000_000,
            projectile_type: ProjectileType::Targeting,
        },
    };
    let base = SkillCode::BaseAttack;
    assert_eq!(attack_profile(TeamType::PLAYER, Some(Class::NONE), base), Some(melee));
    assert_eq!(attack_profile(TeamType::PLAYER, Some(Class::MAGE), base), Some(ranged));
    assert_eq!(attack_profile(TeamType::MONSTER, None, base), Some(ranged));
    assert_eq!(attack_profile(TeamType::MONSTER, Some(Class::KNIGHT), base), Some(ranged));
    assert_eq!(attack_profile(TeamType::PLAYER, None, base), None);
    assert_eq!(attack_profile(TeamType::PLAYER, Some(Class::KNIGHT), base), None);
    assert_eq!(attack_profile(TeamType::PLAYER, Some(Class::PRIEST), base), None);
    assert_eq!(attack_profile(TeamType::PLAYER, Some(Class::ROGUE), base), None);
    assert_eq!(attack_profile(TeamType::PLAYER, Some(Class::HUNTER), base), None);
    assert_eq!(attack_profile(TeamType::PLAYER, Some(Class::MAGE), SkillCode::FireBall), None);
}

#[test]
fn entity_in_battle_selects_the_base_attack() {
    let mut world = duel(Class::NONE, 1);
    world.entities[1].action_state = ActionState::BATTLE;
    world.entities[1].battle_state = BattleState::CASTING;
    use_skill(&mut world);
    assert_eq!(*world.entities[0].skill_info.current_skill(), Some(SkillCode::BaseAttack));
    assert_eq!(*world.entities[1].skill_info.current_skill(), None);
    world.entities[1].battle_state = BattleState::RUNAWAY;
    use_skill(&mut world);
    assert_eq!(*world.entities[1].skill_info.current_skill(), None);
    world.entities[1].battle_state = BattleState::MOVE;
    world.entities[1].action_state = ActionState::IDLE;
    use_skill(&mut world);
    assert_eq!(*world.entities[1].skill_info.current_skill(), None);
}

#[test]
fn melee_strike_lands_when_the_cast_resolves() {
    let mut world = duel(Class::NONE, 3);
    let p = world.entities[0].id;
    let m = world.entities[1].id;
    use_skill(&mut world);
    // The first call opens the window of a fifth of a second.
    base_attack(&mut world, 100_000);
    assert_eq!(world.entities[1].stat.hp.current, 500);
    base_attack(&mut world, 100_000);
    assert_eq!(world.entities[1].stat.hp.current, 500);
    assert!(world.attacked_events.is_empty());
    base_attack(&mut world, 100_000);
    // Five points for each of the three levels.
    assert_eq!(world.entities[1].stat.hp.current, 485);
    assert_eq!(world.entities[1].stat.hp.max, 500);
    assert_eq!(world.attacked_events, vec![Attacked::new(p, m)]);
    assert_eq!(world.entities[0].battle_state, BattleState::IDLE);
    assert!(world.projectiles.is_empty());
    // The next cycle begins with the next call.
    base_attack(&mut world, 100_000);
    assert_eq!(world.entities[1].stat.hp.current, 485);
    assert_eq!(world.attacked_events.len(), 1);
}

#[test]
fn mage_fires_a_bolt_when_the_cast_resolves() {
    let mut world = duel(Class::MAGE, 1);
    let p = world.entities[0].id;
    let m = world.entities[1].id;
    use_skill(&mut world);
    base_attack(&mut world, 500_000);
    assert_eq!(world.entities[0].battle_state, BattleState::IDLE);
    base_attack(&mut world, 500_000);
    assert_eq!(world.entities[0].battle_state, BattleState::CASTING);
    assert!(world.projectiles.is_empty());
    base_attack(&mut world, 500_000);
    assert_eq!(world.projectiles.len(), 1);
    let bolt = world.projectiles[0];
    assert_eq!(
        bolt.projectile,
        Projectile::new(
            1000 * UNIT,
            10,
            p,
            Some(DamageType::Magic),
            None,
            2_000_000,
            ProjectileType::Targeting
        )
    );
    assert_eq!(bolt.team, Team(TeamType::PLAYER));
    assert_eq!(bolt.position, at(0, 0));
    assert_eq!(bolt.origin, at(0, 0));
    assert_eq!(bolt.aim, Some(at(50, 0)));
    assert_eq!(bolt.size, Some(Size { width: 10 * UNIT, height: 10 * UNIT }));
    assert_eq!(bolt.target, Target(Some(m)));
    assert_eq!(bolt.age, 0);
    // A shot takes nothing off at once and queues no event.
    assert_eq!(world.entities[1].stat.hp.current, 500);
    assert!(world.attacked_events.is_empty());
}

#[test]
fn monster_fires_a_bolt_too() {
    let mut world = duel(Class::NONE, 1);
    let p = world.entities[0].id;
    world.entities[0].target = Target(None);
    world.entities[1].target = Target(Some(p));
    world.entities[1].skill_info.set_skill(SkillCode::BaseAttack);
    base_attack(&mut world, 0);
    base_attack(&mut world, 1_000_000);
    assert_eq!(world.projectiles.len(), 1);
    assert_eq!(world.projectiles[0].team, Team(TeamType::MONSTER));
    assert_eq!(world.projectiles[0].target, Target(Some(p)));
    assert_eq!(world.projectiles[0].position, at(50, 0));
}

#[test]
fn class_without_an_entry_does_not_attack() {
    let mut world = duel(Class::KNIGHT, 1);
    use_skill(&mut world);
    base_attack(&mut world, 1_000_000);
    base_attack(&mut world, 1_000_000);
    assert!(!world.entities[0].skill_info.is_casting());
    assert_eq!(world.entities[1].stat.hp.current, 500);
    assert!(world.projectiles.is_empty());
    assert!(world.attacked_events.is_empty());
}

#[test]
fn no_attack_without_a_target_in_the_arena() {
    let mut world = duel(Class::NONE, 1);
    use_skill(&mut world);
    world.entities[0].target = Target(Some(404));
    base_attack(&mut world, 1_000_000);
    assert!(!world.entities[0].skill_info.is_casting());
    let own = world.entities[0].id;
    world.entities[0].target = Target(Some(own));
    base_attack(&mut world, 1_000_000);
    assert!(!world.entities[0].skill_info.is_casting());
    world.entities[0].target = Target(None);
    base_attack(&mut world, 1_000_000);
    assert!(!world.entities[0].skill_info.is_casting());
}

#[test]
fn attacked_entity_engages_its_first_attacker() {
    let mut world = duel(Class::NONE, 1);
    let p = world.entities[0].id;
    let m = world.entities[1].id;
    world.attacked_events.push(Attacked::new(p, m));
    world.attacked_events.push(Attacked::new(9, m));
    world.attacked_events.push(Attacked::new(m, p));
    attacked(&mut world);
    assert_eq!(world.entities[1].target, Target(Some(p)));
    assert_eq!(world.entities[1].action_state, ActionState::BATTLE);
    // The player already had a target and keeps it.
    assert_eq!(world.entities[0].target, Target(Some(m)));
    assert!(world.attacked_events.is_empty());
}

#[test]
fn strike_on_a_strong_attacker_stays_in_range() {
    let mut world = duel(Class::NONE, u32::MAX);
    world.entities[1].stat.hp.current = i64::MIN + 10;
    use_skill(&mut world);
    base_attack(&mut world, 0);
    base_attack(&mut world, 200_000);
    assert_eq!(world.entities[1].stat.hp.current, i64::MIN);
}
