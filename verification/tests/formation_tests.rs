use jx3sim::formation::{formation_is_self, resolve_formation_self_id, FormationRef};
use jx3sim::model::FormationSelection;
use jx3sim::player::Player;

fn entry(key: &str, id: &str, when: &str) -> FormationRef {
    FormationRef { key: key.to_string(), formation_id: id.to_string(), applicable_when: when.to_string() }
}

fn table() -> Vec<FormationRef> {
    vec![
        entry("苍云阵_self", "cangyun", "self"),
        entry("苍云阵_other", "cangyun", "other"),
        entry("通用阵", "common", "any"),
    ]
}

fn sel(key: &str) -> Option<FormationSelection> {
    Some(FormationSelection { key: key.to_string() })
}

#[test]
fn self_variant_resolves_to_its_formation_id() {
    assert_eq!(resolve_formation_self_id(&sel("苍云阵_self"), &table()), Some("cangyun".to_string()));
}

#[test]
fn other_any_unknown_and_unselected_resolve_to_none() {
    assert_eq!(resolve_formation_self_id(&sel("苍云阵_other"), &table()), None);
    assert_eq!(resolve_formation_self_id(&sel("通用阵"), &table()), None);
    assert_eq!(resolve_formation_self_id(&sel("nope"), &table()), None);
    assert_eq!(resolve_formation_self_id(&None, &table()), None);
}

#[test]
fn first_entry_with_the_key_decides() {
    let t = vec![entry("k", "first", "other"), entry("k", "second", "self")];
    assert_eq!(resolve_formation_self_id(&sel("k"), &t), None);
}

#[test]
fn player_opens_only_its_own_formation() {
    let mut p = Player::new(0, vec![], vec![]);
    assert!(!formation_is_self(&p, "cangyun"));
    p.formation_self_id = resolve_formation_self_id(&sel("苍云阵_self"), &table());
    assert!(formation_is_self(&p, "cangyun"));
    assert!(!formation_is_self(&p, "common"));
}
