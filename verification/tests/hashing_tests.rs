use jx3sim::hashing::{combo_buff_id, compute_fingerprint, fnv1a_u64, CastEventKey, FNV_OFFSET};

#[test]
fn fnv1a_of_known_inputs() {
    let mut h = FNV_OFFSET;
    fnv1a_u64(&mut h, &[]);
    assert_eq!(h, 0xcbf29ce484222325);
    fnv1a_u64(&mut h, b"a");
    assert_eq!(h, 12638187200555641996);
}

#[test]
fn fingerprint_of_a_small_timeline() {
    let t = vec![
        CastEventKey {
            cast_time_bits: 1.5f64.to_bits(),
            skill_id: 13052,
            damage_total_bits: Some(1000.0f64.to_bits()),
            triggered: false,
            is_main: true,
            channel_ticks: None,
        },
        CastEventKey { cast_time_bits: 0, skill_id: 7, damage_total_bits: None, triggered: true, is_main: false, channel_ticks: Some(3) },
    ];
    assert_eq!(compute_fingerprint(&t), 15638232600879335951);
    assert_eq!(compute_fingerprint(&vec![]), 14695981039346656037);
    let mut t2 = t.clone();
    t2[1].triggered = false;
    assert_ne!(compute_fingerprint(&t2), compute_fingerprint(&t));
}

#[test]
fn combo_ids_have_the_high_bits_set() {
    assert_eq!(combo_buff_id("盾击"), 4078009807);
    assert_eq!(combo_buff_id("a"), 3758096481);
    assert_eq!(combo_buff_id(""), 0xE000_0000);
    assert!(combo_buff_id("任意连招名") >= 0xE000_0000);
}
