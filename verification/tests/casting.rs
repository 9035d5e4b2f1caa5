use raidory::components::Ratio;
use raidory::skill::{SkillCode, SkillInfo};

#[test]
fn cast_resolves_once_the_window_has_elapsed() {
    let mut info = SkillInfo::new();
    assert!(!info.is_casting());
    // The first call opens the window and counts nothing.
    assert!(!info.cast(200_000, 100_000));
    assert!(info.is_casting());
    assert_eq!(info.ratio(), Ratio { numerator: 0, denominator: 200_000 });
    assert!(!info.cast(200_000, 100_000));
    assert_eq!(info.ratio(), Ratio { numerator: 100_000, denominator: 200_000 });
    assert!(info.cast(200_000, 100_000));
    assert!(!info.is_casting());
    assert_eq!(info.ratio(), Ratio { numerator: 0, denominator: 1 });
}

#[test]
fn break_casting_then_cast_opens_a_fresh_window() {
    let mut info = SkillInfo::new();
    info.set_skill(SkillCode::BaseAttack);
    assert!(!info.cast(1_000_000, 16_000));
    assert!(!info.cast(1_000_000, 700_000));
    info.break_casting();
    assert!(!info.is_casting());
    assert!(!info.cast(1_000_000, 999_999));
    assert_eq!(info.ratio(), Ratio { numerator: 0, denominator: 1_000_000 });
    assert_eq!(*info.current_skill(), Some(SkillCode::BaseAttack));
}

#[test]
fn cast_of_no_length_resolves_on_every_call() {
    let mut info = SkillInfo::new();
    assert!(info.cast(0, 5));
    assert!(info.cast(0, 5));
    assert!(!info.is_casting());
}

#[test]
fn cast_resolves_exactly_once_in_a_cycle() {
    let mut info = SkillInfo::new();
    let deltas = [16_000u64, 400_000, 400_000, 199_999, 1, 16_000, 16_000];
    let mut resolved = Vec::new();
    for delta in deltas {
        resolved.push(info.cast(1_000_000, delta));
    }
    // The first call opens the window; the fifth reaches the second; the
    // sixth opens the next window.
    assert_eq!(resolved, vec![false, false, false, false, true, false, false]);
    assert_eq!(info.ratio(), Ratio { numerator: 16_000, denominator: 1_000_000 });
}

#[test]
fn tick_moves_an_open_window_only() {
    let mut info = SkillInfo::new();
    info.tick(300);
    // No window: nothing to show.
    assert_eq!(info.ratio(), Ratio { numerator: 0, denominator: 1 });
    assert!(info.is_cast_done());
    info.casting(1000);
    assert!(info.is_casting());
    assert!(!info.is_cast_done());
    info.tick(300);
    info.tick(300);
    assert_eq!(info.ratio(), Ratio { numerator: 600, denominator: 1000 });
    info.tick(400);
    assert!(info.is_cast_done());
    info.break_casting();
    info.tick(300);
    assert_eq!(info.ratio(), Ratio { numerator: 0, denominator: 1 });
    assert!(!info.is_casting());
}

#[test]
fn cast_clock_stops_at_the_largest_count() {
    let mut info = SkillInfo::new();
    info.casting(u64::MAX);
    info.tick(u64::MAX - 1);
    assert!(!info.is_cast_done());
    info.tick(u64::MAX);
    assert_eq!(
        info.ratio(),
        Ratio { numerator: u64::MAX as i128, denominator: u64::MAX as i128 }
    );
    assert!(info.is_cast_done());
}

#[test]
fn selected_skill_outlives_a_broken_cast() {
    let mut info = SkillInfo::new();
    assert_eq!(*info.current_skill(), None);
    info.set_skill(SkillCode::FireBall);
    info.casting(10);
    info.break_casting();
    assert_eq!(*info.current_skill(), Some(SkillCode::FireBall));
}
