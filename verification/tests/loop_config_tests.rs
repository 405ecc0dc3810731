use jx3sim::loop_config::{default_macro_mode, expand_counts, LoopMacro, LoopTalents, SequenceEntry};

#[test]
fn talents_flatten_in_tier_order_then_mixed() {
    let t = LoopTalents {
        tier1: Some(11),
        tier2: None,
        tier3: Some(33),
        tier4: None,
        tier5: None,
        tier6: None,
        tier7: Some(77),
        mixed: vec![900, 901],
    };
    assert_eq!(t.flat_ids(), vec![11, 33, 77, 900, 901]);
    assert_eq!(LoopTalents::default().flat_ids(), Vec::<u32>::new());
}

fn lm(mode: &str, general: &str, shield: &str, blade: &str) -> LoopMacro {
    LoopMacro { mode: mode.to_string(), general: general.to_string(), shield: shield.to_string(), blade: blade.to_string() }
}

#[test]
fn macro_text_of_general_and_stance_modes() {
    assert_eq!(lm("general", "  /cast 盾击\n", "x", "y").build_text(), "/cast 盾击");
    assert_eq!(
        lm("stance", "ignored", "/cast 盾击", "/cast 斩刀").build_text(),
        "#page shield\n/cast 盾击\n#page blade\n/cast 斩刀"
    );
    assert_eq!(lm("stance", "", "", "/cast 斩刀").build_text(), "#page blade\n/cast 斩刀");
    assert_eq!(lm("stance", "", "", "").build_text(), "");
    assert_eq!(default_macro_mode(), "general");
}

fn skill(name: &str, count: Option<u32>) -> SequenceEntry {
    SequenceEntry::Skill { skill: name.to_string(), count, channel_ticks: Some(3), offset_bits: None, qijin_buff: None }
}

#[test]
fn counts_expand_into_separate_entries() {
    let entries = vec![skill("盾击", Some(3)), SequenceEntry::Macro { count: Some(0) }, SequenceEntry::Break { count: None }];
    let out = expand_counts(&entries);
    assert_eq!(out.len(), 5);
    for e in &out[0..3] {
        match e {
            SequenceEntry::Skill { skill, count, channel_ticks, .. } => {
                assert_eq!(skill, "盾击");
                assert_eq!(*count, None);
                assert_eq!(*channel_ticks, Some(3));
            },
            _ => panic!("expected a skill entry"),
        }
    }
    assert!(matches!(out[3], SequenceEntry::Macro { count: None }));
    assert!(matches!(out[4], SequenceEntry::Break { count: None }));
    assert_eq!(skill("x", Some(0)).count(), 1);
    assert_eq!(SequenceEntry::WaitStance { count: Some(4) }.count(), 4);
}
