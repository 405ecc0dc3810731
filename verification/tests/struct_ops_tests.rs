use jx3sim::model::Stance;
use jx3sim::ox::{ox_cross, ox_cross_with};
use jx3sim::render::{fit_page, render_and_diff, render_individual, render_page, StagedRule};
use jx3sim::macro_text::{MacroAction, MacroConfig, MacroLine, MacroPage, RenderResult};
use jx3sim::rules::{build_pool, CandidateParse, CandidateRuleInput, PageTag, RulePool, RuleSource};
use jx3sim::struct_ops::{full_enable_odds, mutation_odds, rule_enable_odds, MutationStep};
use jx3sim::struct_ops::{
    bubble_swap, compute_struct_diff, cross_page_move, full_random_orders, half_random_orders, move_across, random_swap,
    seed_orders, shuffle_respecting_locks, toggle_enabled, try_swap,
};

fn line(name: &str) -> MacroLine {
    MacroLine { condition: None, action: MacroAction::Cast(name.to_string()) }
}

/// Shield page S1..S5 (S1 locked), blade page B1..B2 (B1 locked), an either candidate E.
fn pool() -> RulePool {
    let pages = MacroConfig { pages: vec![
        MacroPage { stance_filter: Some(Stance::Shield), lines: vec![line("a"), line("b"), line("c"), line("d"), line("e")] },
        MacroPage { stance_filter: Some(Stance::Blade), lines: vec![line("f"), line("g")] },
    ] };
    let cands = vec![CandidateRuleInput {
        id: Some("E".to_string()),
        name: "e".to_string(),
        page: PageTag::Either,
        line_text: "/cast e".to_string(),
        locked: false,
        initial_enabled: true,
    }];
    build_pool(&pages, &cands, &vec![CandidateParse::Line(line("e"))], true).ok().unwrap()
}

fn order(ids: &[&str]) -> Vec<(String, bool)> {
    ids.iter().map(|s| (s.to_string(), true)).collect()
}

fn ids(o: &[(String, bool)]) -> Vec<String> {
    o.iter().map(|e| e.0.clone()).collect()
}

fn sorted(mut v: Vec<String>) -> Vec<String> {
    v.sort();
    v
}

#[test]
fn seed_orders_follow_the_pool() {
    let p = pool();
    let (s, b) = seed_orders(&p);
    assert_eq!(s, vec![
        ("S1".to_string(), true), ("S2".to_string(), true), ("S3".to_string(), true), ("S4".to_string(), true),
        ("S5".to_string(), true), ("E".to_string(), true),
    ]);
    assert_eq!(b, vec![("B1".to_string(), true), ("B2".to_string(), true)]);
}

#[test]
fn swaps_never_touch_locked_rules() {
    let p = pool();
    let mut o = order(&["S1", "S2", "S3"]);
    assert!(!try_swap(&mut o, &p, 0, 1));
    assert_eq!(ids(&o), vec!["S1", "S2", "S3"]);
    assert!(try_swap(&mut o, &p, 1, 2));
    assert_eq!(ids(&o), vec!["S1", "S3", "S2"]);
    let mut rng = rand::thread_rng();
    for _ in 0..200 {
        let mut o = order(&["S1", "S2", "S3", "S4", "S5"]);
        bubble_swap(&mut o, &p, &mut rng);
        random_swap(&mut o, &p, &mut rng);
        toggle_enabled(&mut o, &p, &mut rng);
        assert_eq!(o[0], ("S1".to_string(), true));
        assert_eq!(sorted(ids(&o)), vec!["S1", "S2", "S3", "S4", "S5"]);
    }
}

#[test]
fn shuffle_keeps_locked_positions_and_entries() {
    let p = pool();
    let mut rng = rand::thread_rng();
    for _ in 0..100 {
        let mut o = order(&["S2", "S1", "S3", "S4", "B1", "S5"]);
        shuffle_respecting_locks(&mut o, &p, &mut rng);
        assert_eq!(o[1].0, "S1");
        assert_eq!(o[4].0, "B1");
        assert_eq!(sorted(ids(&o)), vec!["B1", "S1", "S2", "S3", "S4", "S5"]);
    }
}

#[test]
fn random_orders_keep_locked_rules_first_and_enabled() {
    let p = pool();
    let mut rng = rand::thread_rng();
    for _ in 0..50 {
        let (s, b) = half_random_orders(&p, &mut rng);
        assert_eq!(s[0], ("S1".to_string(), true));
        assert_eq!(b[0], ("B1".to_string(), true));
        assert_eq!(s.len(), 6);
        assert_eq!(sorted(ids(&s)), vec!["E", "S1", "S2", "S3", "S4", "S5"]);
        assert_eq!(sorted(ids(&b)), vec!["B1", "B2"]);
        let (s, b) = full_random_orders(&p, &mut rng);
        assert_eq!(s[0], ("S1".to_string(), true));
        assert_eq!(b[0], ("B1".to_string(), true));
        assert_eq!(sorted(ids(&s)), vec!["E", "S1", "S2", "S3", "S4", "S5"]);
        assert_eq!(sorted(ids(&b)), vec!["B1", "B2"]);
    }
}

#[test]
fn either_rules_move_across_pages() {
    let mut s = order(&["S1", "E"]);
    let mut b = order(&["B1"]);
    move_across(&mut s, &mut b, &"E".to_string());
    assert_eq!(ids(&s), vec!["S1"]);
    assert_eq!(ids(&b), vec!["B1", "E"]);
    move_across(&mut s, &mut b, &"E".to_string());
    assert_eq!(ids(&s), vec!["S1", "E"]);
    let p = pool();
    let mut rng = rand::thread_rng();
    cross_page_move(&mut s, &mut b, &p, &mut rng);
    assert_eq!(ids(&s), vec!["S1"]);
    assert_eq!(ids(&b), vec!["B1", "E"]);
}

#[test]
fn crossover_with_given_segment_and_coins() {
    let p = pool();
    let p1 = vec![
        ("S1".to_string(), true),
        ("S2".to_string(), false),
        ("S3".to_string(), true),
        ("S4".to_string(), false),
        ("S5".to_string(), true),
    ];
    let p2 = vec![
        ("S5".to_string(), false),
        ("S4".to_string(), true),
        ("S3".to_string(), false),
        ("S2".to_string(), true),
        ("S1".to_string(), true),
    ];
    // Segment [2, 3) keeps S3; S1 is locked; free positions 1, 3, 4 take S5, S4, S2 from p2.
    let child = ox_cross_with(&p1, &p2, &p, 2, 3, &vec![true, false, true]);
    assert_eq!(child, vec![
        ("S1".to_string(), true),
        ("S5".to_string(), true),
        ("S3".to_string(), true),
        ("S4".to_string(), true),
        ("S2".to_string(), false),
    ]);
    let mut rng = rand::thread_rng();
    for _ in 0..100 {
        let c = ox_cross(&p1, &p2, &p, &mut rng);
        assert_eq!(c[0], ("S1".to_string(), true));
        assert_eq!(sorted(ids(&c)), vec!["S1", "S2", "S3", "S4", "S5"]);
    }
    let short = vec![("S2".to_string(), false), ("S3".to_string(), true)];
    assert_eq!(ox_cross(&short, &p2, &p, &mut rng), short);
}

#[test]
fn crossover_fills_with_left_over_rules_when_parents_differ() {
    let p = pool();
    let p1 = vec![("S1".to_string(), true), ("S2".to_string(), true), ("S3".to_string(), false), ("X".to_string(), true)];
    let p2 = vec![("S1".to_string(), true)];
    let child = ox_cross_with(&p1, &p2, &p, 1, 2, &vec![]);
    assert_eq!(child, vec![
        ("S1".to_string(), true),
        ("S2".to_string(), true),
        ("S3".to_string(), false),
        ("X".to_string(), true),
    ]);
}

fn staged(id: &str, chars: usize, locked: bool) -> StagedRule {
    StagedRule { id: id.to_string(), chars, locked }
}

#[test]
fn page_budget_drops_last_unlocked_rules() {
    // 50 + 1 + 40 + 1 + 40 = 132 characters: c goes, 91 remain.
    let (kept, dropped) = fit_page(vec![staged("a", 50, true), staged("b", 40, false), staged("c", 40, false)]);
    assert_eq!(kept, vec!["a", "b"]);
    assert_eq!(dropped, vec!["c"]);
    let (kept, dropped) = fit_page(vec![staged("a", 70, false), staged("b", 70, true)]);
    assert_eq!(kept, vec!["b"]);
    assert_eq!(dropped, vec!["a"]);
    let (kept, dropped) = fit_page(vec![staged("a", 200, true)]);
    assert_eq!(kept, vec!["a"]);
    assert!(dropped.is_empty());
    // 100 + 1 + 27 = 128 characters fit exactly.
    let (kept, dropped) = fit_page(vec![staged("a", 100, false), staged("b", 27, false)]);
    assert_eq!(kept, vec!["a", "b"]);
    assert!(dropped.is_empty());
    // 100 + 1 + 28 = 129 characters do not.
    let (kept, dropped) = fit_page(vec![staged("a", 100, false), staged("b", 28, false)]);
    assert_eq!(kept, vec!["a"]);
    assert_eq!(dropped, vec!["b"]);
    let (kept, _) = fit_page(vec![]);
    assert!(kept.is_empty());
}

#[test]
fn struct_diff_lists_new_and_disabled_rules() {
    let p = pool();
    let shield = vec![("S1".to_string(), true), ("S2".to_string(), false), ("E".to_string(), true), ("S3".to_string(), true)];
    let blade = vec![("B1".to_string(), false), ("B2".to_string(), false)];
    let emitted_s = vec!["S1".to_string(), "E".to_string(), "S3".to_string()];
    let rendered = RenderResult {
        config: MacroConfig { pages: vec![] },
        shield_emitted: emitted_s.clone(),
        blade_emitted: vec![],
        shield_truncated: vec!["S9".to_string()],
        blade_truncated: vec![],
    };
    let d = compute_struct_diff(&shield, &blade, &p, &rendered);
    assert_eq!(d.new_rules_enabled, vec!["E"]);
    assert_eq!(d.original_disabled, vec!["S2", "B2"]);
    assert_eq!(d.shield_emitted, emitted_s);
    assert_eq!(d.shield_truncated, vec!["S9"]);
    let empty = RenderResult {
        config: MacroConfig { pages: vec![] },
        shield_emitted: vec![],
        blade_emitted: vec![],
        shield_truncated: vec![],
        blade_truncated: vec![],
    };
    let d2 = compute_struct_diff(&shield, &blade, &p, &empty);
    assert!(d2.new_rules_enabled.is_empty());
}

fn skills(lines: &[MacroLine]) -> Vec<String> {
    lines.iter().map(|l| match &l.action {
        MacroAction::Cast(n) => n.clone(),
        MacroAction::FCast(n) => format!("fcast {}", n),
    }).collect()
}

#[test]
fn render_page_emits_enabled_known_rules_in_order() {
    let p = pool();
    let shield = vec![
        ("S1".to_string(), true),
        ("S2".to_string(), false),
        ("E".to_string(), true),
        ("X".to_string(), true),
        ("S3".to_string(), true),
    ];
    let (page, emitted, truncated) = render_page(Stance::Shield, &shield, &p);
    assert_eq!(page.stance_filter, Some(Stance::Shield));
    assert_eq!(skills(&page.lines), vec!["a", "e", "c"]);
    assert_eq!(emitted, vec!["S1", "E", "S3"]);
    assert!(truncated.is_empty());
}

#[test]
fn render_page_drops_last_unlocked_rule_over_budget() {
    let long1 = "x".repeat(60);
    let long2 = "y".repeat(60);
    let pages = MacroConfig { pages: vec![MacroPage {
        stance_filter: Some(Stance::Shield),
        lines: vec![line("a"), line(&long1), line(&long2)],
    }] };
    let p = build_pool(&pages, &vec![], &vec![], true).ok().unwrap();
    // 7 + 1 + 66 + 1 + 66 = 141 characters: S3 goes, 74 remain.
    let (page, emitted, truncated) = render_page(Stance::Shield, &order(&["S1", "S2", "S3"]), &p);
    assert_eq!(emitted, vec!["S1", "S2"]);
    assert_eq!(truncated, vec!["S3"]);
    assert_eq!(skills(&page.lines), vec!["a".to_string(), long1]);
}

#[test]
fn render_individual_and_diff() {
    let p = pool();
    let shield = vec![("S1".to_string(), true), ("S2".to_string(), false), ("E".to_string(), true)];
    let blade = vec![("B1".to_string(), true), ("B2".to_string(), true)];
    let r = render_individual(&p, &shield, &blade);
    assert_eq!(r.config.pages.len(), 2);
    assert_eq!(r.config.pages[0].stance_filter, Some(Stance::Shield));
    assert_eq!(r.config.pages[1].stance_filter, Some(Stance::Blade));
    assert_eq!(skills(&r.config.pages[1].lines), vec!["f", "g"]);
    assert_eq!(r.shield_emitted, vec!["S1", "E"]);
    assert_eq!(r.blade_emitted, vec!["B1", "B2"]);
    let (r2, d) = render_and_diff(&p, &shield, &blade);
    assert_eq!(r2.shield_emitted, r.shield_emitted);
    assert_eq!(d.new_rules_enabled, vec!["E"]);
    assert_eq!(d.original_disabled, vec!["S2"]);
    assert!(d.shield_truncated.is_empty());
}

#[test]
fn enable_and_mutation_odds() {
    assert_eq!(rule_enable_odds(RuleSource::Original, false), (9, 10));
    assert_eq!(rule_enable_odds(RuleSource::Candidate, false), (2, 10));
    assert_eq!(rule_enable_odds(RuleSource::Candidate, true), (1, 1));
    assert_eq!(full_enable_odds(false), (1, 2));
    assert_eq!(full_enable_odds(true), (1, 1));
    assert_eq!(mutation_odds(MutationStep::BubbleSwap), (20, 100));
    assert_eq!(mutation_odds(MutationStep::RandomSwap), (25, 100));
    assert_eq!(mutation_odds(MutationStep::Toggle), (15, 100));
    assert_eq!(mutation_odds(MutationStep::CrossPage), (5, 100));
    assert_eq!(jx3sim::ox::flag_inherit_odds(), (7, 10));
}
