use jx3sim::pareto::{encode_combo_key, raw_to_pareto_vec, RawLevels};

fn raw() -> RawLevels {
    RawLevels {
        crit_level: 19300,
        crit_effect_level: 710,
        overcome_level: 22000,
        strain_level: 1300,
        surplus_value: 5000,
        base_attack: 12345,
        agility: 800,
        strength: 999,
    }
}

#[test]
fn pareto_vector_bins_and_buckets() {
    assert_eq!(raw_to_pareto_vec(&raw(), 500), [100, 10, 100, 10, 10, 24, 1, 1]);
    assert_eq!(raw_to_pareto_vec(&raw(), 1), [100, 10, 100, 10, 5000, 12345, 800, 999]);
    assert_eq!(raw_to_pareto_vec(&raw(), 0), [100, 10, 100, 10, 5000, 12345, 800, 999]);
}

#[test]
fn combo_key_packs_the_vector() {
    assert_eq!(encode_combo_key(&raw(), 77, 500), (41543446399137514911456673274265700u128, 77));
    assert_eq!(encode_combo_key(&raw(), 0, 1).0, 41500893452906604261412041769566339172u128);
    let (k, _) = encode_combo_key(&raw(), 0, 500);
    assert_eq!(k & 0x1ffff, 100);
    assert_eq!((k >> 85) & 0x1ffff, 24);
    assert_eq!((k >> 115) & 0x1fff, 1);
}

#[test]
fn pareto_front_keeps_undominated_points_and_ties() {
    let pts = vec![
        (0usize, [5u32, 5, 5, 5, 5, 5, 5, 5]),
        (1, [4, 5, 5, 5, 5, 5, 5, 5]),
        (2, [5, 5, 5, 5, 5, 5, 5, 5]),
        (3, [6, 0, 0, 0, 0, 0, 0, 0]),
    ];
    assert_eq!(jx3sim::pareto::pareto_front(&pts), vec![0, 2, 3]);
    assert_eq!(jx3sim::pareto::pareto_front(&vec![(7, [1; 8])]), vec![7]);
    assert!(jx3sim::pareto::pareto_front(&vec![]).is_empty());
}
