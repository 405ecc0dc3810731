use jx3sim::runtime::{
    is_safe_archive_path, milestone_path, new_run_id, topn_path, tunable_choice, tunable_choices, ActiveRun, GaParamsReq,
    GaSizes, OverrideKey, RunSlot, TunableChoice,
};

fn run(id: &str) -> ActiveRun {
    ActiveRun { run_id: id.to_string(), total_gens: 30 }
}

#[test]
fn one_run_at_a_time() {
    let mut slot = RunSlot::new();
    assert!(!slot.is_busy());
    let st = slot.status();
    assert!(!st.running);
    assert!(st.run_id.is_none() && st.total_gens.is_none());
    assert!(slot.stop_target().is_none());
    assert!(slot.claim(run("phase2_1")));
    assert!(slot.is_busy());
    assert!(!slot.claim(run("phase3_2")));
    let st = slot.status();
    assert!(st.running);
    assert_eq!(st.run_id.as_deref(), Some("phase2_1"));
    assert_eq!(st.total_gens, Some(30));
    assert_eq!(slot.stop_target().as_deref(), Some("phase2_1"));
    slot.release("phase3_2");
    assert!(slot.is_busy());
    slot.release("phase2_1");
    assert!(!slot.is_busy());
    assert!(slot.claim(run("phase3_2")));
}

#[test]
fn ga_sizes_from_a_request() {
    let d = GaSizes::default_sizes();
    assert_eq!((d.pop_size, d.generations, d.tournament_k, d.top_n, d.fitness_dps_mode), (50, 500, 5, 10, true));
    assert_eq!(d.with_request(&None), d);
    let r = d.with_request(&Some(GaParamsReq { pop_size: Some(3), generations: Some(0), top_n: None, fitness_dps_mode: false }));
    assert_eq!((r.pop_size, r.generations, r.top_n, r.fitness_dps_mode), (8, 1, 10, false));
    let r = d.with_request(&Some(GaParamsReq { pop_size: Some(64), generations: Some(20), top_n: Some(0), fitness_dps_mode: true }));
    assert_eq!((r.pop_size, r.generations, r.top_n), (64, 20, 1));
}

#[test]
fn the_last_override_of_a_tunable_wins() {
    let ovs = vec![
        OverrideKey { id: "shield_L1_V0".to_string(), enabled: true },
        OverrideKey { id: "blade_L2_V0".to_string(), enabled: true },
        OverrideKey { id: "shield_L1_V0".to_string(), enabled: false },
        OverrideKey { id: "blade_L2_V0".to_string(), enabled: true },
    ];
    assert_eq!(tunable_choice(&ovs, &"shield_L1_V0".to_string()), TunableChoice::Dropped);
    assert_eq!(tunable_choice(&ovs, &"blade_L2_V0".to_string()), TunableChoice::Override(3));
    assert_eq!(tunable_choice(&ovs, &"x".to_string()), TunableChoice::Suggested);
    let ids = vec!["x".to_string(), "blade_L2_V0".to_string()];
    assert_eq!(tunable_choices(&ovs, &ids), vec![TunableChoice::Suggested, TunableChoice::Override(3)]);
}

#[test]
fn run_ids_and_archive_paths() {
    assert_eq!(new_run_id("phase3", 1714000000), "phase3_1714000000");
    assert_eq!(new_run_id("phase2", 0), "phase2_0");
    assert_eq!(milestone_path(7, 12345), "milestones/gen_0007_dps_12345.json");
    assert_eq!(milestone_path(12345, -3), "milestones/gen_12345_dps_-3.json");
    assert_eq!(topn_path(1, 9000), "topN/rank_01_dps_9000.json");
    assert_eq!(topn_path(10, i64::MIN), "topN/rank_10_dps_-9223372036854775808.json");
}

#[test]
fn archive_paths_stay_inside_the_run() {
    assert!(is_safe_archive_path("milestones/gen_0001_dps_1.json"));
    assert!(is_safe_archive_path("a.b/c"));
    assert!(!is_safe_archive_path("../meta.json"));
    assert!(!is_safe_archive_path("x/..y"));
    assert!(!is_safe_archive_path("/etc/passwd"));
    assert!(!is_safe_archive_path("\\windows"));
    assert!(is_safe_archive_path(""));
}

#[test]
fn time_stamp_is_t_and_seconds() {
    assert_eq!(jx3sim::runtime::time_stamp(1700000000), "t1700000000");
    assert_eq!(jx3sim::runtime::time_stamp(0), "t0");
}

#[test]
fn enabled_tunables_drop_disabled_ones_in_parameter_order() {
    let ok = |id: &str, en: bool| OverrideKey { id: id.to_string(), enabled: en };
    let ids = vec!["a".to_string(), "b".to_string(), "c".to_string()];
    let r = jx3sim::runtime::enabled_tunables(&vec![ok("a", false), ok("c", true), ok("a", true)], &ids);
    assert_eq!(r, vec![(0, TunableChoice::Override(2)), (1, TunableChoice::Suggested), (2, TunableChoice::Override(1))]);
    let r = jx3sim::runtime::enabled_tunables(&vec![ok("b", false)], &ids);
    assert_eq!(r, vec![(0, TunableChoice::Suggested), (2, TunableChoice::Suggested)]);
    let r = jx3sim::runtime::enabled_tunables(&vec![ok("a", false), ok("b", false), ok("c", false)], &ids);
    assert!(r.is_empty());
}
