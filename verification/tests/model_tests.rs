use jx3sim::model::{skill_is_main, CdKey};
use jx3sim::model::{
    default_bucket_size, default_fit_order, default_fitness_dps_mode, default_one_u32, default_search_locked_enhance,
    default_talent_tiers, default_tiegu_mode, default_top_k_phase_b, default_top_k_phase_c, default_top_k_proxy,
    default_top_n, default_true, page_name, AutoOptimizeControlRequest, CdMode, DamageKind, SchoolUi, SearchFlags, Stance,
};

#[test]
fn request_defaults() {
    assert_eq!(default_talent_tiers(), 7);
    assert_eq!(default_tiegu_mode(), 2);
    assert_eq!(default_one_u32(), 1);
    assert!(default_true());
    assert_eq!(default_top_n(), 10);
    assert_eq!(default_bucket_size(), 100);
    assert_eq!(default_top_k_phase_b(), 500);
    assert_eq!(default_top_k_proxy(), 5000);
    assert!(default_search_locked_enhance());
    assert_eq!(default_top_k_phase_c(), 1000);
    assert_eq!(default_fit_order(), 2);
    assert!(default_fitness_dps_mode());
    assert_eq!(DamageKind::default(), DamageKind::Physical);
    assert_eq!(Stance::default(), Stance::Any);
    assert_ne!(CdMode::CheckOnly, CdMode::CheckAndTrigger);
    let ui = SchoolUi::default();
    assert_eq!(ui.talent_tiers, 0);
    assert!(ui.skill_groups.is_empty());
}

#[test]
fn page_names_by_stance() {
    assert_eq!(page_name(None), "general");
    assert_eq!(page_name(Some(Stance::Shield)), "shield");
    assert_eq!(page_name(Some(Stance::Blade)), "blade");
    assert_eq!(page_name(Some(Stance::Wall)), "wall");
    assert_eq!(page_name(Some(Stance::NotWall)), "not_wall");
    assert_eq!(page_name(Some(Stance::Any)), "any");
}

#[test]
fn search_control_actions() {
    let f = SearchFlags { cancel: false, pause: true };
    let act = |a: &str| AutoOptimizeControlRequest { action: a.to_string() }.apply(f);
    let c = act("cancel");
    assert!(c.known && c.flags.cancel && !c.flags.pause);
    let p = act("pause");
    assert!(p.known && !p.flags.cancel && p.flags.pause);
    let r = act("resume");
    assert!(r.known && !r.flags.pause);
    let u = act("stop");
    assert!(!u.known);
    assert_eq!(u.flags, f);
}

#[test]
fn main_skills_check_and_start_the_one_second_gcd() {
    let cd = |id: &str, mode: CdMode| CdKey { cd_id: id.to_string(), mode };
    assert!(skill_is_main(&vec![cd("cd_盾压", CdMode::CheckAndTrigger), cd("gcd_1.0", CdMode::CheckAndTrigger)]));
    assert!(!skill_is_main(&vec![cd("gcd_1.0", CdMode::CheckOnly)]));
    assert!(!skill_is_main(&vec![cd("gcd_1.5", CdMode::CheckAndTrigger)]));
    assert!(!skill_is_main(&vec![]));
}
