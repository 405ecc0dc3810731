use jx3sim::player::Player;
use jx3sim::recipes::{collect_recipes, collect_recipes_indexed, EquipSets, RecipeKey};

fn key(id: u32, skill: &str, filter: Vec<u32>) -> RecipeKey {
    RecipeKey { id, skill: skill.to_string(), skill_filter: filter }
}

fn table() -> Vec<RecipeKey> {
    vec![
        key(1007, "劫刀", vec![]),
        key(2001, "盾击", vec![]),
        key(99240, "", vec![13055]),
        key(99341, "", vec![13040, 13055]),
        key(99262, "", vec![13055]),
        key(3000, "", vec![13055]),
        key(99260, "", vec![13055]),
    ]
}

fn sets() -> EquipSets {
    EquipSets { hongyuan_weapons: vec![40245], youfeng_weapons: vec![50001], dps_t_set: vec![1, 2, 3, 4] }
}

#[test]
fn recipes_apply_by_id_or_name() {
    assert!(key(1, "盾击", vec![]).applies_to(999, "盾击"));
    assert!(!key(1, "", vec![]).applies_to(999, ""));
    assert!(key(1, "盾击", vec![13040]).applies_to(13040, "x"));
    assert!(!key(1, "盾击", vec![13040]).applies_to(999, "盾击"));
}

#[test]
fn active_recipes_for_a_skill() {
    let p = Player::new(0, vec![21281], vec![1007]);
    let t = table();
    // 99240 (talent 21281) and 99341 (built in) apply to 13055; 3000 is given for the moment.
    assert_eq!(collect_recipes(&p, 13055, "绝刀", &[3000], &t, &sets()), vec![2, 3, 5]);
    assert_eq!(collect_recipes(&p, 13055, "绝刀", &[], &t, &sets()), vec![2, 3]);
    assert_eq!(collect_recipes(&p, 1, "劫刀", &[], &t, &sets()), vec![0]);
    let bare = Player::new(0, vec![], vec![]);
    assert_eq!(collect_recipes(&bare, 13040, "盾击", &[], &t, &sets()), vec![3]);
}

#[test]
fn equipment_grants_recipes() {
    let mut p = Player::new(0, vec![], vec![]);
    p.set_equipped(vec![("PRIMARY_WEAPON".to_string(), 50001)]);
    assert_eq!(collect_recipes(&p, 13055, "绝刀", &[], &table(), &sets()), vec![3]);
    assert_eq!(collect_recipes_indexed(&p, 13055, "绝刀", &[], &table(), &sets()), vec![3, 4]);
    p.set_equipped(vec![("PRIMARY_WEAPON".to_string(), 40245)]);
    assert_eq!(collect_recipes(&p, 13055, "绝刀", &[], &table(), &sets()), vec![3, 6]);
}

#[test]
fn buff_recipes_count_as_active() {
    let mut p = Player::new(0, vec![], vec![]);
    p.buff_activate_recipes(&[2001]);
    assert_eq!(collect_recipes(&p, 7, "盾击", &[], &table(), &sets()), vec![1]);
    p.buff_deactivate_recipes(&[2001]);
    assert!(collect_recipes(&p, 7, "盾击", &[], &table(), &sets()).is_empty());
}
