use jx3sim::player::Player;

fn mk() -> Player {
    Player::new(42087, vec![], vec![])
}

#[test]
fn set_rage_clamps_high() {
    let mut p = mk();
    let g0 = p.decision_generation;
    p.set_rage(200);
    assert_eq!(p.rage, 100, "应 clamp 到 100");
    assert!(p.decision_generation > g0, "应 bump");
}

#[test]
fn set_rage_clamps_low() {
    let mut p = mk();
    p.set_rage(-50);
    assert_eq!(p.rage, 0);
}

#[test]
fn set_rage_bumps_each_call() {
    let mut p = mk();
    let g0 = p.decision_generation;
    p.set_rage(50);
    let g1 = p.decision_generation;
    p.set_rage(50);
    assert!(g1 > g0);
    assert!(p.decision_generation > g1);
}

#[test]
fn add_rage_respects_clamp() {
    let mut p = mk();
    p.set_rage(95);
    p.add_rage(10);
    assert_eq!(p.rage, 100, "95+10=105 → 100");
    p.add_rage(-200);
    assert_eq!(p.rage, 0, "100-200=-100 → 0");
}

#[test]
fn add_rage_random_in_range() {
    let mut p = mk();
    let mut state: u64 = 0xdeadbeef;
    for _ in 0..1000 {
        state = state.wrapping_mul(6364136223846793005).wrapping_add(1442695040888963407);
        let init = (state % 200) as i32 - 50;
        let delta = ((state >> 32) % 200) as i32 - 100;
        p.set_rage(init);
        p.add_rage(delta);
        assert!(p.rage >= 0 && p.rage <= 100,
            "rage 越界: init={} delta={} → rage={}", init, delta, p.rage);
    }
}

#[test]
fn set_block_value_clamps_to_max() {
    let mut p = mk();
    p.set_block_value(99999);
    assert_eq!(p.block_value, p.max_block_value());
}

#[test]
fn set_block_value_clamps_low() {
    let mut p = mk();
    p.set_block_value(-100);
    assert_eq!(p.block_value, 0);
}

#[test]
fn add_block_value_clamp() {
    let mut p = mk();
    let max_bv = p.max_block_value();
    p.set_block_value(max_bv - 5);
    p.add_block_value(20);
    assert_eq!(p.block_value, max_bv);
}

#[test]
fn decision_generation_monotonic_after_bumps() {
    let mut p = mk();
    let mut last = p.decision_generation;
    for _ in 0..100 {
        p.bump_decision_gen();
        assert!(p.decision_generation > last, "应单调递增");
        last = p.decision_generation;
    }
}

#[test]
fn extra_block_talent_doubles_block_cap() {
    let p = Player::new(0, vec![13363], vec![]);
    assert_eq!(p.max_block_value(), 200);
    assert_eq!(p.block_value, 200);
    assert_eq!(mk().max_block_value(), 100);
}

#[test]
fn recipe_activation_round_trip_restores_counts() {
    let mut p = mk();
    assert!(!p.recipe_active(1007));
    p.buff_activate_recipes(&[1007, 1007, 2001]);
    assert!(p.recipe_active(1007));
    assert!(p.recipe_active(2001));
    p.buff_deactivate_recipes(&[1007]);
    assert!(p.recipe_active(1007));
    p.buff_deactivate_recipes(&[1007, 2001]);
    assert!(!p.recipe_active(1007));
    assert!(!p.recipe_active(2001));
    assert!(p.buff_recipes.is_empty());
}

#[test]
fn user_recipe_is_active_without_buffs() {
    let p = Player::new(0, vec![], vec![1007]);
    assert!(p.has_recipe(1007));
    assert!(p.recipe_active(1007));
    assert!(!p.has_recipe(1008));
}

#[test]
fn equipment_lookups() {
    let mut p = mk();
    p.set_equipped(vec![("PRIMARY_WEAPON".to_string(), 101), ("HAT".to_string(), 0), ("ENCHANT_HAT".to_string(), 55)]);
    assert_eq!(p.equip_id_at("PRIMARY_WEAPON"), 101);
    assert_eq!(p.equip_id_at("BELT"), 0);
    assert!(p.has_equip_in("PRIMARY_WEAPON", &[100, 101]));
    assert!(!p.has_equip_in("HAT", &[0]));
    assert_eq!(p.count_equip_in(&[101, 55, 7]), 2);
    assert!(p.has_enchant(55));
    assert!(!p.has_enchant(0));
}

#[test]
fn equip_effect_accumulates_to_trigger() {
    let mut p = mk();
    // 40% per cast at scale 100: triggers on the third cast (40, 80, 120).
    assert!(!p.accum_equip_effect(7, 40, 100));
    assert!(!p.accum_equip_effect(7, 40, 100));
    assert!(p.accum_equip_effect(7, 40, 100));
    assert_eq!(*p.equip_effect_accum.get(&7).unwrap(), 20);
}

#[test]
fn dun_ji_charges_depend_on_version_and_talent() {
    let p = Player::new(0, vec![36058], vec![]);
    assert_eq!(p.effective_max_charges(13047, 2), 999);
    let old = Player::with_mount(jx3sim::mount::Mount::FenShanJin, jx3sim::mount::GameVersion::ShanHaiYuanLiu, 0, vec![36058], vec![]);
    assert_eq!(old.effective_max_charges(13047, 2), 3);
    assert_eq!(mk().effective_max_charges(13047, 2), 2);
    assert_eq!(p.effective_max_charges(13040, 2), 2);
}
