use jx3sim::macro_text::{MacroAction, MacroConfig, MacroLine, MacroPage};
use jx3sim::model::Stance;
use jx3sim::rules::{
    build_pool, page_tag_name, CandidateParse, CandidateRuleInput, PageTag, PoolError, RuleSource,
};

fn line(name: &str) -> MacroLine {
    MacroLine { condition: None, action: MacroAction::Cast(name.to_string()) }
}

fn pages() -> MacroConfig {
    MacroConfig { pages: vec![
        MacroPage { stance_filter: Some(Stance::Shield), lines: vec![line("盾击"), line("盾压")] },
        MacroPage { stance_filter: Some(Stance::Blade), lines: vec![line("斩刀")] },
        MacroPage { stance_filter: None, lines: vec![line("盾飞")] },
    ] }
}

fn cand(id: Option<&str>, page: PageTag, enabled: bool) -> CandidateRuleInput {
    CandidateRuleInput {
        id: id.map(|s| s.to_string()),
        name: "候选".to_string(),
        page,
        line_text: "/cast 盾刀".to_string(),
        locked: false,
        initial_enabled: enabled,
    }
}

#[test]
fn baseline_rules_are_numbered_per_page_and_first_locked() {
    let pool = build_pool(&pages(), &vec![], &vec![], true).ok().unwrap();
    let ids: Vec<&str> = pool.rules.iter().map(|r| r.id.as_str()).collect();
    assert_eq!(ids, vec!["S1", "S2", "B1", "S3"]);
    assert_eq!(pool.shield_default_order, vec!["S1", "S2", "S3"]);
    assert_eq!(pool.blade_default_order, vec!["B1"]);
    assert_eq!(pool.shield_default_enabled, vec!["S1", "S2", "S3"]);
    let locked: Vec<bool> = pool.rules.iter().map(|r| r.locked).collect();
    assert_eq!(locked, vec![true, false, true, false]);
    assert!(pool.rules.iter().all(|r| r.source == RuleSource::Original));
    assert_eq!(pool.rules[2].line_text, "/cast 斩刀");
    assert!(pool.is_locked("S1"));
    assert!(!pool.is_locked("S2"));
    assert!(!pool.is_locked("nope"));
    let unlocked = build_pool(&pages(), &vec![], &vec![], false).ok().unwrap();
    assert!(unlocked.rules.iter().all(|r| !r.locked));
}

#[test]
fn candidates_join_their_page() {
    let cands = vec![cand(None, PageTag::Blade, true), cand(Some("X"), PageTag::Either, false)];
    let parses = vec![CandidateParse::Line(line("盾刀")), CandidateParse::Line(line("盾刀"))];
    let pool = build_pool(&pages(), &cands, &parses, true).ok().unwrap();
    assert_eq!(pool.blade_default_order, vec!["B1", "C1"]);
    assert_eq!(pool.blade_default_enabled, vec!["B1", "C1"]);
    assert_eq!(pool.shield_default_order, vec!["S1", "S2", "S3", "X"]);
    assert_eq!(pool.shield_default_enabled, vec!["S1", "S2", "S3"]);
    let x = pool.get("X").unwrap();
    assert_eq!(x.source, RuleSource::Candidate);
    assert_eq!(x.page, PageTag::Either);
    assert_eq!(x.name, "候选");
}

#[test]
fn candidate_errors() {
    let dup = build_pool(&pages(), &vec![cand(Some("S2"), PageTag::Shield, true)], &vec![CandidateParse::Line(line("a"))], true);
    match dup {
        Err(e) => {
            assert!(matches!(e, PoolError::DuplicateId(ref id) if id == "S2"));
            assert_eq!(e.message(), "候选规则 id 冲突: S2");
        },
        Ok(_) => panic!("duplicate id accepted"),
    }
    let bad = build_pool(&pages(), &vec![cand(None, PageTag::Shield, true)], &vec![CandidateParse::Failed("坏".to_string())], true);
    assert_eq!(bad.err().unwrap().message(), "候选规则 C1 解析失败: 坏");
    let empty = build_pool(&pages(), &vec![cand(None, PageTag::Shield, true)], &vec![CandidateParse::NoPages], true);
    assert_eq!(empty.err().unwrap().message(), "候选规则 C1 空");
    let nolines = build_pool(&pages(), &vec![cand(Some("Q"), PageTag::Shield, true)], &vec![CandidateParse::NoLines], true);
    assert_eq!(nolines.err().unwrap().message(), "候选规则 Q 无有效行");
    let second = build_pool(
        &MacroConfig { pages: vec![] },
        &vec![cand(None, PageTag::Shield, true), cand(Some("C1"), PageTag::Blade, true)],
        &vec![CandidateParse::Line(line("a")), CandidateParse::Line(line("b"))],
        true,
    );
    assert_eq!(second.err().unwrap().message(), "候选规则 id 冲突: C1");
}

#[test]
fn page_tag_names() {
    assert_eq!(page_tag_name(PageTag::Shield), "shield");
    assert_eq!(page_tag_name(PageTag::Blade), "blade");
    assert_eq!(page_tag_name(PageTag::Either), "either");
}
