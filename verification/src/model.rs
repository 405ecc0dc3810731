//! Plain data of the simulator and its HTTP interface: enums, the school UI layout,
//! talent entries and the small request bodies, with the defaults they are read with.

use vstd::prelude::*;
use vstd::string::*;
use crate::frames::HASTE_NATURAL_CAP;

verus! {

/// Damage kinds.
#[derive(Debug, Clone, Copy, PartialEq, Eq, Structural)]
pub enum DamageKind {
    /// Ordinary external damage.
    Physical,
    /// Ordinary internal damage.
    Magical,
    /// Surplus (break) damage only.
    SurplusOnly,
}

impl Default for DamageKind {
    fn default() -> (r: Self)
        ensures
            r == DamageKind::Physical,
    {
        DamageKind::Physical
    }
}

/// How a skill is bound to a cooldown.
#[derive(Debug, Clone, Copy, PartialEq, Eq, Structural)]
pub enum CdMode {
    /// The cooldown blocks the skill, and casting the skill starts it.
    CheckAndTrigger,
    /// The cooldown blocks the skill; casting does not start it.
    CheckOnly,
}

/// The cooldown that the main skills share.
pub open spec fn main_gcd_id() -> Seq<char> {
    "gcd_1.0"@
}

/// How a skill is bound to one cooldown: the cooldown's id and the binding mode.
#[derive(Debug, Clone)]
pub struct CdKey {
    pub cd_id: String,
    pub mode: CdMode,
}

/// A skill is a main skill when it checks and starts the one-second global cooldown.
pub fn skill_is_main(cooldowns: &Vec<CdKey>) -> (r: bool)
    ensures
        r == exists|i: int| 0 <= i < cooldowns@.len()
            && (#[trigger] cooldowns@[i]).mode == CdMode::CheckAndTrigger && cooldowns@[i].cd_id@ == main_gcd_id(),
{
    proof {
        reveal_strlit("gcd_1.0");
    }
    let mut i: usize = 0;
    while i < cooldowns.len()
        invariant
            i <= cooldowns@.len(),
            main_gcd_id() == "gcd_1.0"@,
            forall|j: int| 0 <= j < i ==> !((#[trigger] cooldowns@[j]).mode == CdMode::CheckAndTrigger && cooldowns@[j].cd_id@ == main_gcd_id()),
        decreases cooldowns.len() - i,
    {
        if cooldowns[i].mode == CdMode::CheckAndTrigger && crate::strings::str_eq(cooldowns[i].cd_id.as_str(), "gcd_1.0") {
            return true;
        }
        i = i + 1;
    }
    false
}

/// Stances.
#[derive(Debug, Clone, Copy, PartialEq, Eq, Structural)]
pub enum Stance {
    /// Castable in any stance.
    Any,
    /// Shield held.
    Shield,
    /// Blade held.
    Blade,
    /// Shield wall.
    Wall,
    /// Any stance but the shield wall.
    NotWall,
}

impl Default for Stance {
    fn default() -> (r: Self)
        ensures
            r == Stance::Any,
    {
        Stance::Any
    }
}

/// A main skill that redirects to a follow-up skill while a combo is up.
#[derive(Debug, Clone)]
pub struct ComboFollowEntry {
    pub requires_combo: String,
    pub skill_id: u32,
}

/// The answer to a skill reload.
#[derive(Debug, Clone)]
pub struct ReloadResult {
    pub loaded: usize,
    pub skills: Vec<String>,
}

/// One group of skill buttons in the school UI.
#[derive(Debug, Clone)]
pub struct SchoolUiGroup {
    pub label: String,
    pub skills: Vec<String>,
    /// Whether the group starts a new row.
    pub new_row: bool,
}

/// A combo skill shown in place of another.
#[derive(Debug, Clone)]
pub struct SchoolUiComboReplace {
    pub combo: String,
    pub replaces: String,
}

/// The school UI layout of `school.toml`.
#[derive(Debug, Clone)]
pub struct SchoolUi {
    pub skill_groups: Vec<SchoolUiGroup>,
    pub combo_replace: Vec<SchoolUiComboReplace>,
    pub talent_tiers: u32,
}

/// Number of talent tiers when `school.toml` does not say.
pub fn default_talent_tiers() -> (r: u32)
    ensures
        r == 7,
{
    7
}

impl Default for SchoolUi {
    /// The empty layout; every field at its type's default (`talent_tiers` 0, as the
    /// type's own default has it; reading a file without the field gives 7 instead).
    fn default() -> (r: Self)
        ensures
            r.skill_groups@.len() == 0,
            r.combo_replace@.len() == 0,
            r.talent_tiers == 0,
    {
        SchoolUi { skill_groups: Vec::new(), combo_replace: Vec::new(), talent_tiers: 0 }
    }
}

/// Skills whose cast consistency workflow A checks.
#[derive(Debug, Clone)]
pub struct WorkflowA {
    pub default_consistency: Vec<String>,
    pub consistency_sensitive_skills: Vec<String>,
}

impl Default for WorkflowA {
    fn default() -> (r: Self)
        ensures
            r.default_consistency@.len() == 0,
            r.consistency_sensitive_skills@.len() == 0,
    {
        WorkflowA { default_consistency: Vec::new(), consistency_sensitive_skills: Vec::new() }
    }
}

/// A talent: tiers 1..=7 pick one of four; tier 8 is the mixed pool (tiers eight to ten).
#[derive(Debug, Clone)]
pub struct TalentEntry {
    pub id: u32,
    pub name: String,
    pub tier: u32,
    pub desc: String,
}

/// A formation picked in the front end.
#[derive(Debug, Clone)]
pub struct FormationSelection {
    pub key: String,
}

/// Query of a saved loop by name.
#[derive(Debug, Clone)]
pub struct LoopLoadQuery {
    pub name: String,
}

/// Request to delete a saved loop.
#[derive(Debug, Clone)]
pub struct LoopDeleteRequest {
    pub name: String,
}

/// Query of a saved equipment configuration by file name.
#[derive(Debug, Clone)]
pub struct EquipConfigLoadQuery {
    pub file: String,
}

/// Request to delete a saved equipment configuration.
#[derive(Debug, Clone)]
pub struct EquipConfigDeleteRequest {
    pub file: String,
}

/// Request for the prune, swap or tighten candidates of a macro.
#[derive(Debug, Clone)]
pub struct MacroPruneCandidatesRequest {
    pub macro_text: String,
}

/// A haste range `[min, max]` that an equipment search must land in.
#[derive(Debug, Clone, Copy, PartialEq, Eq, Structural)]
pub struct HasteRange {
    pub min: u32,
    pub max: u32,
}

/// Query of the haste tier table.
#[derive(Debug, Clone, Copy, PartialEq, Eq, Structural)]
pub struct HasteTiersQuery {
    /// Base frames of the table; both 24 and 16 when unset.
    pub original_frames: Option<u32>,
    /// Highest haste level considered; the natural 25% cap when unset.
    pub cap: Option<u32>,
}

/// Highest haste cap a query may ask for.
pub const HASTE_CAP_LIMIT: u32 = 200_000;

impl HasteTiersQuery {
    /// The haste cap the tier table is computed to: the asked cap, or the natural cap,
    /// and never above 200 000.
    pub fn resolved_cap(&self) -> (r: u32)
        ensures
            r == (match self.cap {
                Some(c) => if c < HASTE_CAP_LIMIT { c } else { HASTE_CAP_LIMIT },
                None => HASTE_NATURAL_CAP,
            }),
    {
        let c = match self.cap {
            Some(c) => c,
            None => HASTE_NATURAL_CAP,
        };
        if c < HASTE_CAP_LIMIT { c } else { HASTE_CAP_LIMIT }
    }

    /// The base frame counts the answer has tables for: the asked one, or 24 then 16.
    pub fn base_frames(&self) -> (r: Vec<u32>)
        ensures
            r@ == (match self.original_frames {
                Some(o) => seq![o],
                None => seq![24u32, 16u32],
            }),
    {
        match self.original_frames {
            Some(o) => vec![o],
            None => vec![24, 16],
        }
    }
}

/// A control action on the running equipment search.
#[derive(Debug, Clone)]
pub struct AutoOptimizeControlRequest {
    pub action: String,
}

/// The two flags a running equipment search polls.
#[derive(Debug, Clone, Copy, PartialEq, Eq, Structural)]
pub struct SearchFlags {
    pub cancel: bool,
    pub pause: bool,
}

/// What a control action does: the flags afterwards, and whether the action was known.
#[derive(Debug, Clone, Copy, PartialEq, Eq, Structural)]
pub struct ControlOutcome {
    pub flags: SearchFlags,
    pub known: bool,
}

impl AutoOptimizeControlRequest {
    /// Applies the action: `cancel` sets cancel and clears pause, `pause` sets pause,
    /// `resume` clears pause; anything else changes nothing and is reported unknown.
    pub fn apply(&self, flags: SearchFlags) -> (r: ControlOutcome)
        ensures
            self.action@ == "cancel"@ ==> r == (ControlOutcome {
                flags: SearchFlags { cancel: true, pause: false },
                known: true,
            }),
            self.action@ == "pause"@ ==> r == (ControlOutcome {
                flags: SearchFlags { cancel: flags.cancel, pause: true },
                known: true,
            }),
            self.action@ == "resume"@ ==> r == (ControlOutcome {
                flags: SearchFlags { cancel: flags.cancel, pause: false },
                known: true,
            }),
            (self.action@ != "cancel"@ && self.action@ != "pause"@ && self.action@ != "resume"@)
                ==> r == (ControlOutcome { flags: flags, known: false }),
    {
        let a = self.action.as_str();
        proof {
            reveal_strlit("cancel");
            reveal_strlit("pause");
            reveal_strlit("resume");
            assert("pause"@.len() != "cancel"@.len());
            assert("pause"@.len() != "resume"@.len());
            assert("resume"@[0] != "cancel"@[0]);
        }
        if crate::strings::str_eq(a, "cancel") {
            ControlOutcome { flags: SearchFlags { cancel: true, pause: false }, known: true }
        } else if crate::strings::str_eq(a, "pause") {
            ControlOutcome { flags: SearchFlags { cancel: flags.cancel, pause: true }, known: true }
        } else if crate::strings::str_eq(a, "resume") {
            ControlOutcome { flags: SearchFlags { cancel: flags.cancel, pause: false }, known: true }
        } else {
            ControlOutcome { flags: flags, known: false }
        }
    }
}

/// Defence stance of the Tieguyi simulation when none is given (2: main tank).
pub fn default_tiegu_mode() -> (r: u8)
    ensures
        r == 2,
{
    2
}

/// One stack, when none is given.
pub fn default_one_u32() -> (r: u32)
    ensures
        r == 1,
{
    1
}

/// `true`, for flags that default on.
pub fn default_true() -> (r: bool)
    ensures
        r,
{
    true
}

/// Entries kept in the equipment search's top list.
pub fn default_top_n() -> (r: usize)
    ensures
        r == 10,
{
    10
}

/// Bucket size of the equipment search's Pareto quantisation: 100 rating levels, small
/// enough that merging levels in one bucket moves the damage by under 0.1%.
pub fn default_bucket_size() -> (r: u32)
    ensures
        r == 100,
{
    100
}

/// Candidates kept after phase B of the equipment search.
pub fn default_top_k_phase_b() -> (r: usize)
    ensures
        r == 500,
{
    500
}

/// Candidates kept by the proxy ranking of the equipment search.
pub fn default_top_k_proxy() -> (r: usize)
    ensures
        r == 5000,
{
    5000
}

/// Whether the equipment search also searches locked enhancements.
pub fn default_search_locked_enhance() -> (r: bool)
    ensures
        r,
{
    true
}

/// Candidates kept after phase C of the equipment search.
pub fn default_top_k_phase_c() -> (r: usize)
    ensures
        r == 1000,
{
    1000
}

/// Order of the fitted income curve.
pub fn default_fit_order() -> (r: u8)
    ensures
        r == 2,
{
    2
}

/// Whether the optimizer maximises DPS (rather than minimising its spread).
pub fn default_fitness_dps_mode() -> (r: bool)
    ensures
        r,
{
    true
}

/// Kinds of tunable thresholds in a macro condition.
#[derive(Debug, Clone, Copy, PartialEq, Eq, Structural)]
pub enum LeafKind {
    Rage,
    Life,
    BuffTime,
    TBuffTime,
    SkillEnergy,
    NearbyEnemy,
}

/// The name of a macro page by its stance filter.
pub open spec fn page_name_spec(s: Option<Stance>) -> Seq<char> {
    match s {
        None => "general"@,
        Some(Stance::Shield) => "shield"@,
        Some(Stance::Blade) => "blade"@,
        Some(Stance::Wall) => "wall"@,
        Some(Stance::NotWall) => "not_wall"@,
        Some(Stance::Any) => "any"@,
    }
}

/// The name of a macro page by its stance filter (`general` for no filter).
pub fn page_name(s: Option<Stance>) -> (r: &'static str)
    ensures
        r@ == page_name_spec(s),
{
    match s {
        None => {
            proof { reveal_strlit("general"); }
            "general"
        },
        Some(Stance::Shield) => {
            proof { reveal_strlit("shield"); }
            "shield"
        },
        Some(Stance::Blade) => {
            proof { reveal_strlit("blade"); }
            "blade"
        },
        Some(Stance::Wall) => {
            proof { reveal_strlit("wall"); }
            "wall"
        },
        Some(Stance::NotWall) => {
            proof { reveal_strlit("not_wall"); }
            "not_wall"
        },
        Some(Stance::Any) => {
            proof { reveal_strlit("any"); }
            "any"
        },
    }
}

} // verus!
