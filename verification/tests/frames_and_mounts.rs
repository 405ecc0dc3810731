use jx3sim::frames::{get_actual_frames, haste_tier_boundaries};
use jx3sim::model::{HasteTiersQuery, HASTE_CAP_LIMIT};
use jx3sim::mount::{
    all_mounts, all_versions, attrs_file_name, formations_file, mount_defaults_path, mount_dir_name, mount_root,
    recipes_file, school_toml_path, skills_dir, talents_file, team_buffs_file, version_dir_name, version_label,
    version_root, GameVersion, Mount,
};

#[test]
fn actual_frames_follow_the_threshold_formula() {
    assert_eq!(get_actual_frames(24, 0), 24);
    assert_eq!(get_actual_frames(24, 205), 24);
    assert_eq!(get_actual_frames(24, 206), 23);
    assert_eq!(get_actual_frames(24, 52519), 19);
    assert_eq!(get_actual_frames(16, 52519), 12);
    assert_eq!(get_actual_frames(8, 20000), 7);
    assert_eq!(get_actual_frames(0, 99999), 0);
}

#[test]
fn actual_frames_never_grow_with_haste() {
    let mut last = get_actual_frames(24, 0);
    for h in (0..60000).step_by(97) {
        let a = get_actual_frames(24, h);
        assert!(a <= last);
        last = a;
    }
}

#[test]
fn haste_tiers_for_gcd_frames() {
    assert_eq!(
        haste_tier_boundaries(24, 52519),
        vec![
            (0, 24, 0, 205),
            (1, 23, 206, 9231),
            (2, 22, 9232, 19284),
            (3, 21, 19285, 30157),
            (4, 20, 30158, 42056),
            (5, 19, 42057, 52519),
        ]
    );
    assert_eq!(
        haste_tier_boundaries(16, 52519),
        vec![(0, 16, 0, 205), (1, 15, 206, 14155), (2, 14, 14156, 30157), (3, 13, 30158, 48621), (4, 12, 48622, 52519)]
    );
    assert_eq!(haste_tier_boundaries(24, 100), vec![(0, 24, 0, 100)]);
    assert_eq!(haste_tier_boundaries(24, 0), vec![(0, 24, 0, 0)]);
}

#[test]
fn haste_tier_query_defaults() {
    let q = HasteTiersQuery { original_frames: None, cap: None };
    assert_eq!(q.resolved_cap(), 52519);
    assert_eq!(q.base_frames(), vec![24, 16]);
    let q = HasteTiersQuery { original_frames: Some(8), cap: Some(900_000) };
    assert_eq!(q.resolved_cap(), HASTE_CAP_LIMIT);
    assert_eq!(q.base_frames(), vec![8]);
    let q = HasteTiersQuery { original_frames: None, cap: Some(1234) };
    assert_eq!(q.resolved_cap(), 1234);
}

#[test]
fn data_directories_are_named_by_version_and_mount() {
    assert_eq!(version_dir_name(GameVersion::ShanHaiYuanLiu), "2025_10_山海源流");
    assert_eq!(version_dir_name(GameVersion::AnYingQianJi), "2026_04_暗影千机");
    assert_eq!(version_dir_name(GameVersion::AnYingQianJiTest), "2026_04_暗影千机");
    assert_eq!(mount_dir_name(Mount::FenShanJin), "分山劲");
    assert_eq!(mount_dir_name(Mount::TieGuYi), "铁骨衣");
    assert_eq!(version_root("data", GameVersion::AnYingQianJi), "data/2026_04_暗影千机");
    assert_eq!(mount_root("data", GameVersion::ShanHaiYuanLiu, Mount::TieGuYi), "data/2025_10_山海源流/铁骨衣");
    assert_eq!(skills_dir("d", GameVersion::AnYingQianJi, Mount::FenShanJin), "d/2026_04_暗影千机/分山劲/skills");
    assert_eq!(talents_file("d", GameVersion::AnYingQianJi, Mount::FenShanJin), "d/2026_04_暗影千机/分山劲/talents.toml");
    assert_eq!(school_toml_path("d", GameVersion::AnYingQianJi, Mount::TieGuYi), "d/2026_04_暗影千机/铁骨衣/school.toml");
    assert_eq!(mount_defaults_path("d", GameVersion::AnYingQianJi, Mount::TieGuYi), "d/2026_04_暗影千机/铁骨衣/defaults.json");
    assert_eq!(recipes_file("d", GameVersion::ShanHaiYuanLiu), "d/2025_10_山海源流/recipes.toml");
    assert_eq!(team_buffs_file("d", GameVersion::ShanHaiYuanLiu), "d/2025_10_山海源流/team_buffs.toml");
    assert_eq!(formations_file("d", GameVersion::ShanHaiYuanLiu), "d/2025_10_山海源流/formations.toml");
    assert_eq!(attrs_file_name(Mount::TieGuYi), "attrs_铁骨衣.json");
}

#[test]
fn versions_and_mounts_offered() {
    assert_eq!(all_versions(), vec![GameVersion::AnYingQianJi, GameVersion::ShanHaiYuanLiu]);
    assert_eq!(all_mounts(), vec![Mount::FenShanJin, Mount::TieGuYi]);
    assert_eq!(version_label(GameVersion::AnYingQianJiTest), "暗影千机·测试服（归档兼容）");
    assert_eq!(version_label(GameVersion::ShanHaiYuanLiu), "山海源流（2025.10）");
    assert_eq!(Mount::default(), Mount::FenShanJin);
    assert_eq!(GameVersion::default(), GameVersion::AnYingQianJi);
}
