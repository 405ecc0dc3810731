use jx3sim::diversity::enabled_set_distance;

fn order(items: &[(&str, bool)]) -> Vec<(String, bool)> {
    items.iter().map(|(id, en)| (id.to_string(), *en)).collect()
}

#[test]
fn distance_counts_rules_enabled_in_exactly_one() {
    // a enables {S1, S2, S3}; b enables {S2, S3, S4, S5}; S2 appears on both of b's pages.
    let a_shield = order(&[("S1", true), ("S2", true), ("S4", false)]);
    let a_blade = order(&[("S3", true), ("S1", true)]);
    let b_shield = order(&[("S2", true), ("S4", true), ("S1", false)]);
    let b_blade = order(&[("S3", true), ("S5", true), ("S2", true)]);
    // only in a: S1; only in b: S4, S5; union: S1..S5.
    assert_eq!(enabled_set_distance(&a_shield, &a_blade, &b_shield, &b_blade), (3, 5));
}

#[test]
fn distance_of_identical_individuals_is_zero() {
    let s = order(&[("S1", true), ("S2", false)]);
    let b = order(&[("S3", true)]);
    assert_eq!(enabled_set_distance(&s, &b, &s, &b), (0, 2));
}

#[test]
fn distance_with_nothing_enabled_has_denominator_one() {
    let s = order(&[("S1", false)]);
    let e: Vec<(String, bool)> = Vec::new();
    assert_eq!(enabled_set_distance(&s, &e, &e, &s), (0, 1));
}
