use jx3sim::model::Stance;
use jx3sim::player::Player;

#[test]
fn a_new_player_holds_the_shield_after_seven_buff_changes() {
    let p = Player::new(0, vec![], vec![]);
    assert_eq!(p.stance(), Stance::Shield);
    assert_eq!(p.decision_generation, 7);
}

#[test]
fn stance_switches_bump_once_per_buff_change() {
    let mut p = Player::new(0, vec![], vec![]);
    p.set_stance(Stance::Blade);
    assert_eq!(p.stance(), Stance::Blade);
    assert_eq!(p.decision_generation, 14);
    p.set_stance(Stance::Wall);
    assert_eq!(p.stance(), Stance::Wall);
    assert_eq!(p.decision_generation, 21);
    // No stance buff is given for "any": only the five removals, and the shield reads.
    p.set_stance(Stance::Any);
    assert_eq!(p.stance(), Stance::Shield);
    assert_eq!(p.decision_generation, 26);
}

#[test]
fn rage_setter_changes_nothing_else() {
    let mut p = Player::new(1234, vec![13363], vec![1007]);
    p.set_equipped(vec![("HAT".to_string(), 5)]);
    p.set_rage(40);
    assert_eq!(p.rage, 40);
    assert_eq!(p.haste_level, 1234);
    assert!(p.equipped_values.contains(&5));
    assert_eq!(p.stance(), Stance::Shield);
}
