use jx3sim::cast_gate::SKILL_JIE_DAO;
use jx3sim::macro_text::{MacroAction, MacroConfig, MacroLine, MacroPage};
use jx3sim::model::Stance;
use jx3sim::player::Player;
use jx3sim::rules::{build_pool, CandidateParse, CandidateRuleInput, PageTag};
use jx3sim::struct_ops::mutate_orders;

fn line(name: &str) -> MacroLine {
    MacroLine { condition: None, action: MacroAction::Cast(name.to_string()) }
}

#[test]
fn parameter_keys_walk_shield_blade_then_the_rest() {
    let cfg = MacroConfig {
        pages: vec![
            MacroPage { stance_filter: Some(Stance::Shield), lines: vec![line("a"), line("b")] },
            MacroPage { stance_filter: Some(Stance::Blade), lines: vec![line("c")] },
        ],
    };
    let cands = vec![CandidateRuleInput {
        id: Some("E".to_string()),
        name: "e".to_string(),
        page: PageTag::Blade,
        line_text: "/cast e".to_string(),
        locked: false,
        initial_enabled: false,
    }];
    let pool = build_pool(&cfg, &cands, &vec![CandidateParse::Line(line("e"))], true).ok().unwrap();
    // Rules in pool order: S1, S2, B1, E with 2, 0, 1, 3 tunables.
    let keys = pool.build_param_keys(&vec![2, 0, 1, 3]);
    let want: Vec<(String, usize)> = vec![
        ("S1".to_string(), 0),
        ("S1".to_string(), 1),
        ("B1".to_string(), 0),
        ("E".to_string(), 0),
        ("E".to_string(), 1),
        ("E".to_string(), 2),
    ];
    assert_eq!(keys, want);
}

#[test]
fn mutation_keeps_the_rules_and_locked_ones_enabled() {
    let cfg = MacroConfig {
        pages: vec![
            MacroPage { stance_filter: Some(Stance::Shield), lines: vec![line("a"), line("b"), line("c")] },
            MacroPage { stance_filter: Some(Stance::Blade), lines: vec![line("d"), line("e")] },
        ],
    };
    let cands = vec![CandidateRuleInput {
        id: None,
        name: "x".to_string(),
        page: PageTag::Either,
        line_text: "/cast x".to_string(),
        locked: false,
        initial_enabled: true,
    }];
    let pool = build_pool(&cfg, &cands, &vec![CandidateParse::Line(line("x"))], true).ok().unwrap();
    let mut rng = rand::thread_rng();
    let mut shield: Vec<(String, bool)> = ["S1", "S2", "S3", "C1"].iter().map(|s| (s.to_string(), true)).collect();
    let mut blade: Vec<(String, bool)> = ["B1", "B2"].iter().map(|s| (s.to_string(), true)).collect();
    for _ in 0..300 {
        mutate_orders(&mut shield, &mut blade, &pool, &mut rng);
        let mut all: Vec<String> = shield.iter().chain(blade.iter()).map(|e| e.0.clone()).collect();
        all.sort();
        assert_eq!(all, vec!["B1", "B2", "C1", "S1", "S2", "S3"]);
        for e in shield.iter().chain(blade.iter()) {
            if e.0 == "S1" || e.0 == "B1" {
                assert!(e.1);
            }
        }
    }
}

#[test]
fn rage_cost_after_recipes() {
    let p = Player::new(0, vec![], vec![1007]);
    assert_eq!(p.effective_rage_cost(SKILL_JIE_DAO, 20, 0), 15);
    assert_eq!(p.effective_rage_cost(SKILL_JIE_DAO, 3, 0), 0);
    assert_eq!(p.effective_rage_cost(13055, 20, 35), 35);
    assert_eq!(p.effective_rage_cost(13391, 20, 7), 7);
    assert_eq!(Player::new(0, vec![], vec![]).effective_rage_cost(SKILL_JIE_DAO, 20, 0), 20);
    assert_eq!(p.effective_rage_cost(1, 20, 0), 20);
}
