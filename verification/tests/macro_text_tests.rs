use jx3sim::macro_text::{
    build_macro_text, build_macro_text_struct, clone_macro_line, format_line, macro_config_to_loop_macro,
    render_to_loop_macro, rule_display_name, serialize_line, serialize_lines, MacroAction, MacroConfig, MacroLine,
    MacroPage, RenderResult,
};
use jx3sim::model::Stance;

fn cast(cond: Option<&str>, skill: &str) -> MacroLine {
    MacroLine { condition: cond.map(|c| c.to_string()), action: MacroAction::Cast(skill.to_string()) }
}

fn fcast(skill: &str) -> MacroLine {
    MacroLine { condition: None, action: MacroAction::FCast(skill.to_string()) }
}

fn page(s: Option<Stance>, lines: Vec<MacroLine>) -> MacroPage {
    MacroPage { stance_filter: s, lines }
}

#[test]
fn lines_are_written_back() {
    assert_eq!(serialize_line(&cast(Some("rage>10.0"), "盾击")), "/cast [rage>10.0] 盾击");
    assert_eq!(serialize_line(&fcast("盾飞")), "/fcast 盾飞");
    assert_eq!(format_line(&cast(None, "斩刀")), "/cast 斩刀");
    assert_eq!(rule_display_name(&cast(Some("x"), "斩刀")), "斩刀");
    let l = cast(Some("buff:嗜血"), "绝刀");
    assert_eq!(serialize_line(&clone_macro_line(&l)), serialize_line(&l));
    assert_eq!(serialize_lines(&vec![cast(None, "a"), fcast("b")]), "/cast a\n/fcast b");
    assert_eq!(serialize_lines(&vec![]), "");
}

#[test]
fn macro_configs_become_loop_macros() {
    let general = MacroConfig { pages: vec![page(None, vec![cast(None, "a")]), page(None, vec![cast(None, "b")])] };
    let m = macro_config_to_loop_macro(&general);
    assert_eq!((m.mode.as_str(), m.general.as_str(), m.shield.as_str(), m.blade.as_str()), ("general", "/cast a", "", ""));
    let empty = macro_config_to_loop_macro(&MacroConfig { pages: vec![] });
    assert_eq!((empty.mode.as_str(), empty.general.as_str()), ("general", ""));
    let stance = MacroConfig {
        pages: vec![
            page(Some(Stance::Shield), vec![cast(None, "s1")]),
            page(Some(Stance::Blade), vec![cast(None, "b1"), cast(None, "b2")]),
            page(Some(Stance::Shield), vec![cast(None, "s2")]),
        ],
    };
    let m = macro_config_to_loop_macro(&stance);
    assert_eq!((m.mode.as_str(), m.general.as_str(), m.shield.as_str(), m.blade.as_str()), ("stance", "", "/cast s2", "/cast b1\n/cast b2"));
    let r = render_to_loop_macro(&stance);
    assert_eq!((r.mode.as_str(), r.shield.as_str()), ("stance", "/cast s2"));
}

#[test]
fn structure_macro_text_is_compact() {
    let cfg = MacroConfig {
        pages: vec![
            page(Some(Stance::Shield), vec![cast(Some("rage>10.0"), "s1")]),
            page(Some(Stance::Blade), vec![cast(None, "b1")]),
        ],
    };
    let rendered = RenderResult {
        config: cfg,
        shield_emitted: vec![],
        blade_emitted: vec![],
        shield_truncated: vec![],
        blade_truncated: vec![],
    };
    assert_eq!(build_macro_text_struct(&rendered), "#page shield\n/cast rage>10 s1\n#page blade\n/cast b1");
    let only_blade = RenderResult {
        config: MacroConfig { pages: vec![page(Some(Stance::Shield), vec![]), page(Some(Stance::Blade), vec![cast(None, "b1")])] },
        shield_emitted: vec![],
        blade_emitted: vec![],
        shield_truncated: vec![],
        blade_truncated: vec![],
    };
    assert_eq!(build_macro_text_struct(&only_blade), "#page blade\n/cast b1");
}

#[test]
fn optimizer_macro_text() {
    let general = MacroConfig { pages: vec![page(None, vec![cast(Some("life<30.0"), "a")])] };
    assert_eq!(build_macro_text(&general), "/cast life<30 a");
    let stance = MacroConfig {
        pages: vec![
            page(Some(Stance::Shield), vec![cast(None, "s")]),
            page(Some(Stance::Any), vec![cast(None, "x")]),
            page(Some(Stance::Wall), vec![cast(None, "w")]),
        ],
    };
    assert_eq!(build_macro_text(&stance), "#page shield\n/cast s\n/cast x\n\n#page wall\n/cast w");
}
