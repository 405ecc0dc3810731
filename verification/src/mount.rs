//! Mounts (specialisations), game versions, and the data layout named after them.

use vstd::prelude::*;
use vstd::string::*;

verus! {

/// The two Cangyun mounts.
#[derive(Debug, Clone, Copy, PartialEq, Eq, Structural, Hash)]
pub enum Mount {
    FenShanJin,
    TieGuYi,
}

/// Game data versions.
#[derive(Debug, Clone, Copy, PartialEq, Eq, Structural, Hash)]
pub enum GameVersion {
    /// 2025.10 data.
    ShanHaiYuanLiu,
    /// 2026.04 data.
    AnYingQianJi,
    /// 2026.04 test server; kept for old saves, reads the 2026.04 data.
    AnYingQianJiTest,
}

impl Default for Mount {
    fn default() -> (r: Self)
        ensures
            r == Mount::FenShanJin,
    {
        Mount::FenShanJin
    }
}

impl Default for GameVersion {
    fn default() -> (r: Self)
        ensures
            r == GameVersion::AnYingQianJi,
    {
        GameVersion::AnYingQianJi
    }
}

/// Directory name of a version's data.
pub open spec fn version_dir_name_spec(v: GameVersion) -> Seq<char> {
    match v {
        GameVersion::ShanHaiYuanLiu => "2025_10_山海源流"@,
        GameVersion::AnYingQianJi | GameVersion::AnYingQianJiTest => "2026_04_暗影千机"@,
    }
}

/// Directory name of a mount's data (its Chinese name).
pub open spec fn mount_dir_name_spec(m: Mount) -> Seq<char> {
    match m {
        Mount::FenShanJin => "分山劲"@,
        Mount::TieGuYi => "铁骨衣"@,
    }
}

/// Directory name of a version's data; the test server shares the 2026.04 data.
pub fn version_dir_name(v: GameVersion) -> (r: &'static str)
    ensures
        r@ == version_dir_name_spec(v),
{
    match v {
        GameVersion::ShanHaiYuanLiu => "2025_10_山海源流",
        GameVersion::AnYingQianJi | GameVersion::AnYingQianJiTest => "2026_04_暗影千机",
    }
}

/// Directory name of a mount's data.
pub fn mount_dir_name(m: Mount) -> (r: &'static str)
    ensures
        r@ == mount_dir_name_spec(m),
{
    match m {
        Mount::FenShanJin => "分山劲",
        Mount::TieGuYi => "铁骨衣",
    }
}


/// Display label of a version.
pub open spec fn version_label_spec(v: GameVersion) -> Seq<char> {
    match v {
        GameVersion::ShanHaiYuanLiu => "山海源流（2025.10）"@,
        GameVersion::AnYingQianJi => "暗影千机（2026.04）"@,
        GameVersion::AnYingQianJiTest => "暗影千机·测试服（归档兼容）"@,
    }
}

/// Display label of a version.
pub fn version_label(v: GameVersion) -> (r: &'static str)
    ensures
        r@ == version_label_spec(v),
{
    match v {
        GameVersion::ShanHaiYuanLiu => "山海源流（2025.10）",
        GameVersion::AnYingQianJi => "暗影千机（2026.04）",
        GameVersion::AnYingQianJiTest => "暗影千机·测试服（归档兼容）",
    }
}

/// The release versions offered to the user, newest first (the test server is not offered).
pub fn all_versions() -> (r: Vec<GameVersion>)
    ensures
        r@ == seq![GameVersion::AnYingQianJi, GameVersion::ShanHaiYuanLiu],
{
    let mut v: Vec<GameVersion> = Vec::new();
    v.push(GameVersion::AnYingQianJi);
    v.push(GameVersion::ShanHaiYuanLiu);
    v
}

/// All mounts.
pub fn all_mounts() -> (r: Vec<Mount>)
    ensures
        r@ == seq![Mount::FenShanJin, Mount::TieGuYi],
{
    let mut v: Vec<Mount> = Vec::new();
    v.push(Mount::FenShanJin);
    v.push(Mount::TieGuYi);
    v
}

/// `{root}/{version dir}`: the data shared by both mounts of a version.
pub fn version_root(root: &str, version: GameVersion) -> (r: String)
    ensures
        r@ == root@ + "/"@ + version_dir_name_spec(version),
{
    let mut s = String::from_str(root);
    s.append("/");
    s.append(version_dir_name(version));
    s
}

/// `{root}/{version dir}/{mount dir}`: the data of one mount.
pub fn mount_root(root: &str, version: GameVersion, mount: Mount) -> (r: String)
    ensures
        r@ == root@ + "/"@ + version_dir_name_spec(version) + "/"@ + mount_dir_name_spec(mount),
{
    let mut s = version_root(root, version);
    s.append("/");
    s.append(mount_dir_name(mount));
    s
}

/// `{mount root}/skills`.
pub fn skills_dir(root: &str, version: GameVersion, mount: Mount) -> (r: String)
    ensures
        r@ == root@ + "/"@ + version_dir_name_spec(version) + "/"@ + mount_dir_name_spec(mount)
            + "/skills"@,
{
    let mut s = mount_root(root, version, mount);
    s.append("/skills");
    s
}

/// `{mount root}/talents.toml`.
pub fn talents_file(root: &str, version: GameVersion, mount: Mount) -> (r: String)
    ensures
        r@ == root@ + "/"@ + version_dir_name_spec(version) + "/"@ + mount_dir_name_spec(mount)
            + "/talents.toml"@,
{
    let mut s = mount_root(root, version, mount);
    s.append("/talents.toml");
    s
}

/// `{mount root}/school.toml`.
pub fn school_toml_path(root: &str, version: GameVersion, mount: Mount) -> (r: String)
    ensures
        r@ == root@ + "/"@ + version_dir_name_spec(version) + "/"@ + mount_dir_name_spec(mount)
            + "/school.toml"@,
{
    let mut s = mount_root(root, version, mount);
    s.append("/school.toml");
    s
}

/// `{mount root}/defaults.json`.
pub fn mount_defaults_path(root: &str, version: GameVersion, mount: Mount) -> (r: String)
    ensures
        r@ == root@ + "/"@ + version_dir_name_spec(version) + "/"@ + mount_dir_name_spec(mount)
            + "/defaults.json"@,
{
    let mut s = mount_root(root, version, mount);
    s.append("/defaults.json");
    s
}

/// `{version root}/recipes.toml`: recipes are shared by both mounts.
pub fn recipes_file(root: &str, version: GameVersion) -> (r: String)
    ensures
        r@ == root@ + "/"@ + version_dir_name_spec(version) + "/recipes.toml"@,
{
    let mut s = version_root(root, version);
    s.append("/recipes.toml");
    s
}

/// `{version root}/team_buffs.toml`.
pub fn team_buffs_file(root: &str, version: GameVersion) -> (r: String)
    ensures
        r@ == root@ + "/"@ + version_dir_name_spec(version) + "/team_buffs.toml"@,
{
    let mut s = version_root(root, version);
    s.append("/team_buffs.toml");
    s
}

/// `{version root}/formations.toml`.
pub fn formations_file(root: &str, version: GameVersion) -> (r: String)
    ensures
        r@ == root@ + "/"@ + version_dir_name_spec(version) + "/formations.toml"@,
{
    let mut s = version_root(root, version);
    s.append("/formations.toml");
    s
}

/// File name of the saved attribute panel of a mount: `attrs_{mount dir}.json`.
pub fn attrs_file_name(mount: Mount) -> (r: String)
    ensures
        r@ == "attrs_"@ + mount_dir_name_spec(mount) + ".json"@,
{
    let mut s = String::from_str("attrs_");
    s.append(mount_dir_name(mount));
    s.append(".json");
    s
}

} // verus!
