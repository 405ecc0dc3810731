//! Whether a player may cast a skill now, and if not, why. The player's own resources
//! (talents, rage, block value) are read from the player; what the buff state says is
//! handed in as facts.

use vstd::prelude::*;
use vstd::string::*;
use crate::fmt::{decimal_digits, push_decimal, push_signed, signed_digits};
use crate::frames::{actual_frames_spec, get_actual_frames};
use crate::model::Stance;
use crate::player::Player;
use crate::runtime::push_str;
use crate::strings::string_of;

verus! {

/// Skill "remove buff": needs a removable buff of the player's own.
pub const SKILL_REMOVE_BUFF: u32 = 90001;
/// Skill that needs six stacks of the long-drive buff.
pub const SKILL_WU_HAI: u32 = 90010;
/// Skill that costs 20 block value.
pub const SKILL_HAN_XIAO: u32 = 15072;
/// Block value the skill 15072 needs.
pub const HAN_XIAO_BLOCK_COST: i32 = 20;
/// Stacks of the long-drive buff that skill 90010 needs.
pub const WU_HAI_STACKS: u32 = 6;

/// What a skill asks of the caster.
#[derive(Debug, Clone, Copy, PartialEq, Eq, Structural)]
pub struct CastNeeds {
    pub skill_id: u32,
    pub requires_talent: Option<u32>,
    pub stance: Stance,
    /// The skill continues a combo.
    pub requires_combo: bool,
    /// The skill starts a combo.
    pub grants_combo: bool,
    /// Rage cost after recipes and scripts.
    pub rage_cost: u32,
}

/// What the buff state says at the moment of the cast.
#[derive(Debug, Clone, Copy, PartialEq, Eq, Structural)]
pub struct CastFacts {
    /// The player has a live buff of its own (not a debuff) to remove.
    pub removable_buff: bool,
    /// The stance the player will be in when the cast lands.
    pub stance: Stance,
    /// The battle-end buff (only blade moves may be cast) is up.
    pub zhan_jue: bool,
    /// Stacks of the long-drive buff.
    pub chang_qu_stacks: u32,
    /// The buff of the combo the skill continues is up.
    pub combo_ready: bool,
    /// The buff of the combo the skill starts is already up.
    pub combo_pending: bool,
    /// The frenzy buff is up (shown in the rage message).
    pub kuang_jue: bool,
}

/// Why a skill cannot be cast.
#[derive(Debug, Clone, Copy, PartialEq, Eq, Structural)]
pub enum RejectReason {
    NoRemovableBuff,
    MissingTalent(u32),
    WrongStance { need: Stance, have: Stance },
    ZhanJue,
    /// Skill 90010 with fewer than six long-drive stacks (the stacks there are).
    ShortChangQu(u32),
    LowBlock(i32),
    LowRage { need: u32, have: i32, kuang_jue: bool },
    NeedCombo,
    ComboRunning,
}

/// Skills allowed under the battle-end buff: the four blade moves and the two specials.
pub open spec fn zhan_jue_allowed(id: u32) -> bool {
    id == 13052 || id == 13053 || id == 13054 || id == 13055 || id == 90001 || id == 90002
}

/// A skill of stance `need` can be cast in stance `cur`.
pub open spec fn stance_allows(need: Stance, cur: Stance) -> bool {
    match need {
        Stance::Any => true,
        Stance::NotWall => cur != Stance::Wall,
        _ => need == cur,
    }
}

/// The first failed check, in the order the checks are made, or none.
pub open spec fn reject_spec(p: &Player, n: CastNeeds, f: CastFacts) -> Option<RejectReason> {
    if n.skill_id == SKILL_REMOVE_BUFF && !f.removable_buff {
        Some(RejectReason::NoRemovableBuff)
    } else if n.requires_talent is Some && !p.talents().contains(n.requires_talent->Some_0) {
        Some(RejectReason::MissingTalent(n.requires_talent->Some_0))
    } else if !stance_allows(n.stance, f.stance) {
        Some(RejectReason::WrongStance { need: n.stance, have: f.stance })
    } else if f.zhan_jue && !zhan_jue_allowed(n.skill_id) {
        Some(RejectReason::ZhanJue)
    } else if n.skill_id == SKILL_WU_HAI && f.chang_qu_stacks < WU_HAI_STACKS {
        Some(RejectReason::ShortChangQu(f.chang_qu_stacks))
    } else if n.skill_id == SKILL_HAN_XIAO && p.block_value < HAN_XIAO_BLOCK_COST {
        Some(RejectReason::LowBlock(p.block_value))
    } else if p.rage < n.rage_cost {
        Some(RejectReason::LowRage { need: n.rage_cost, have: p.rage, kuang_jue: f.kuang_jue })
    } else if n.requires_combo && !f.combo_ready {
        Some(RejectReason::NeedCombo)
    } else if !n.requires_combo && n.grants_combo && f.combo_pending {
        Some(RejectReason::ComboRunning)
    } else {
        None
    }
}

/// Whether the skill can be cast: every check passes, and skill 90010 also needs six
/// stacks of the long-drive buff.
pub open spec fn can_cast_spec(p: &Player, n: CastNeeds, f: CastFacts) -> bool {
    &&& !(n.skill_id == SKILL_REMOVE_BUFF && !f.removable_buff)
    &&& !(n.requires_talent is Some && !p.talents().contains(n.requires_talent->Some_0))
    &&& stance_allows(n.stance, f.stance)
    &&& !(f.zhan_jue && !zhan_jue_allowed(n.skill_id))
    &&& !(n.skill_id == SKILL_WU_HAI && f.chang_qu_stacks < WU_HAI_STACKS)
    &&& !(n.skill_id == SKILL_HAN_XIAO && p.block_value < HAN_XIAO_BLOCK_COST)
    &&& p.rage >= n.rage_cost
    &&& !(n.requires_combo && !f.combo_ready)
    &&& !(!n.requires_combo && n.grants_combo && f.combo_pending)
}

fn stance_ok(need: Stance, cur: Stance) -> (r: bool)
    ensures
        r == stance_allows(need, cur),
{
    match need {
        Stance::Any => true,
        Stance::NotWall => cur != Stance::Wall,
        _ => need == cur,
    }
}

fn zhan_jue_ok(id: u32) -> (r: bool)
    ensures
        r == zhan_jue_allowed(id),
{
    id == 13052 || id == 13053 || id == 13054 || id == 13055 || id == 90001 || id == 90002
}

impl Player {
    /// Whether the skill can be cast now (its cooldown is waited for elsewhere).
    pub fn can_cast(&self, n: &CastNeeds, f: &CastFacts) -> (r: bool)
        requires
            self.wf(),
        ensures
            r == can_cast_spec(self, *n, *f),
    {
        if n.skill_id == SKILL_REMOVE_BUFF && !f.removable_buff {
            return false;
        }
        if let Some(tid) = n.requires_talent {
            if !self.has_talent(tid) {
                return false;
            }
        }
        if !stance_ok(n.stance, f.stance) {
            return false;
        }
        if f.zhan_jue && !zhan_jue_ok(n.skill_id) {
            return false;
        }
        if n.skill_id == SKILL_WU_HAI && f.chang_qu_stacks < WU_HAI_STACKS {
            return false;
        }
        if n.skill_id == SKILL_HAN_XIAO && self.block_value < HAN_XIAO_BLOCK_COST {
            return false;
        }
        if (self.rage as u32) < n.rage_cost {
            return false;
        }
        if n.requires_combo && !f.combo_ready {
            return false;
        }
        if !n.requires_combo && n.grants_combo && f.combo_pending {
            return false;
        }
        true
    }

    /// Why the skill cannot be cast now, or `None` when it can.
    pub fn reject_reason(&self, n: &CastNeeds, f: &CastFacts) -> (r: Option<RejectReason>)
        requires
            self.wf(),
        ensures
            r == reject_spec(self, *n, *f),
    {
        if n.skill_id == SKILL_REMOVE_BUFF && !f.removable_buff {
            return Some(RejectReason::NoRemovableBuff);
        }
        if let Some(tid) = n.requires_talent {
            if !self.has_talent(tid) {
                return Some(RejectReason::MissingTalent(tid));
            }
        }
        if !stance_ok(n.stance, f.stance) {
            return Some(RejectReason::WrongStance { need: n.stance, have: f.stance });
        }
        if f.zhan_jue && !zhan_jue_ok(n.skill_id) {
            return Some(RejectReason::ZhanJue);
        }
        if n.skill_id == SKILL_WU_HAI && f.chang_qu_stacks < WU_HAI_STACKS {
            return Some(RejectReason::ShortChangQu(f.chang_qu_stacks));
        }
        if n.skill_id == SKILL_HAN_XIAO && self.block_value < HAN_XIAO_BLOCK_COST {
            return Some(RejectReason::LowBlock(self.block_value));
        }
        if (self.rage as u32) < n.rage_cost {
            return Some(RejectReason::LowRage { need: n.rage_cost, have: self.rage, kuang_jue: f.kuang_jue });
        }
        if n.requires_combo && !f.combo_ready {
            return Some(RejectReason::NeedCombo);
        }
        if !n.requires_combo && n.grants_combo && f.combo_pending {
            return Some(RejectReason::ComboRunning);
        }
        None
    }
}

/// Skill whose rage cost recipe 1007 lowers by 5.
pub const SKILL_JIE_DAO: u32 = 13052;
/// Recipe that lowers the rage cost of skill 13052.
pub const RECIPE_JIE_DAO_COST: u32 = 1007;

/// The rage cost of a skill after recipes: skills 13055 and 13391 cost what their scripts
/// compute (`script_cost`); skill 13052 costs 5 less (not below 0) with recipe 1007; every
/// other skill costs its listed `rage_cost`.
pub open spec fn effective_rage_cost_spec(p: &Player, skill_id: u32, rage_cost: u32, script_cost: u32) -> u32 {
    if skill_id == 13055 || skill_id == 13391 {
        script_cost
    } else if skill_id == SKILL_JIE_DAO && p.active_recipes@.contains(RECIPE_JIE_DAO_COST) {
        if rage_cost >= 5 { (rage_cost - 5) as u32 } else { 0 }
    } else {
        rage_cost
    }
}

impl Player {
    /// The rage cost of a skill after recipes (see `effective_rage_cost_spec`).
    pub fn effective_rage_cost(&self, skill_id: u32, rage_cost: u32, script_cost: u32) -> (r: u32)
        ensures
            r == effective_rage_cost_spec(self, skill_id, rage_cost, script_cost),
    {
        if skill_id == 13055 || skill_id == 13391 {
            script_cost
        } else if skill_id == SKILL_JIE_DAO && self.has_recipe(RECIPE_JIE_DAO_COST) {
            rage_cost.saturating_sub(5)
        } else {
            rage_cost
        }
    }
}

/// Skill whose channel recipes 8007 and 8008 lengthen by one and two seconds.
pub const SKILL_DUN_WU: u32 = 13048;

/// Extra channel frames from recipes: 16 with recipe 8007 and 32 with recipe 8008 for
/// skill 13048, none otherwise.
pub open spec fn extra_channel_spec(p: &Player, skill_id: u32) -> nat {
    if skill_id == SKILL_DUN_WU {
        (if p.active_recipes@.contains(8007) { 16nat } else { 0nat })
            + (if p.active_recipes@.contains(8008) { 32nat } else { 0nat })
    } else {
        0
    }
}

/// A global cooldown's length in frames after haste: hasted when it follows haste.
pub open spec fn gcd_after_haste(g: (u32, bool), haste: u32) -> int {
    if g.1 { actual_frames_spec(g.0 as int, haste as int) } else { g.0 as int }
}

/// The longest of the first `n` global cooldowns after haste, 0 when there is none.
pub open spec fn max_gcd_upto(gcds: Seq<(u32, bool)>, haste: u32, n: int) -> int
    decreases n,
{
    if n <= 0 {
        0
    } else {
        let prev = max_gcd_upto(gcds, haste, n - 1);
        let g = gcd_after_haste(gcds[n - 1], haste);
        if g > prev { g } else { prev }
    }
}

/// The ticks of a channelled skill and the most it can have: the hasted channel (with its
/// recipe extension) divided by the hasted tick interval; by default as many ticks as the
/// longest global cooldown covers (at least one, at most the maximum), or the maximum when
/// there is no cooldown or interval; a positive requested count is taken up to the maximum.
pub open spec fn channel_ticks_spec(
    p: &Player, skill_id: u32, channel_frame: u32, channel_interval: u32,
    gcds: Seq<(u32, bool)>, haste: u32, requested: Option<u32>,
) -> (u32, u32) {
    let frame = actual_frames_spec(channel_frame + extra_channel_spec(p, skill_id), haste as int);
    let interval = actual_frames_spec(channel_interval as int, haste as int);
    let total: int = if interval > 0 { frame / interval } else { 0 };
    let gcd = max_gcd_upto(gcds, haste, gcds.len() as int);
    let by_gcd: int = if gcd / interval < total { gcd / interval } else { total };
    let default: int = if gcd > 0 && interval > 0 { if by_gcd < 1 { 1 } else { by_gcd } } else { total };
    let ticks: int = match requested {
        Some(t) => if t > 0 { if t < total { t as int } else { total } } else { default },
        None => default,
    };
    (ticks as u32, total as u32)
}

impl Player {
    /// How many ticks a channelled skill runs, and the most it can run. `gcds` are the
    /// skill's global cooldowns that it checks and starts, in frames, each marked when it
    /// follows haste; `haste` is the player's haste rating with its buffs; `requested` is a
    /// tick count asked for by the caller.
    pub fn channel_ticks(
        &self, skill_id: u32, channel_frame: u32, channel_interval: u32,
        gcds: &Vec<(u32, bool)>, haste: u32, requested: Option<u32>,
    ) -> (r: (u32, u32))
        requires
            channel_frame + extra_channel_spec(self, skill_id) <= u32::MAX,
        ensures
            r == channel_ticks_spec(self, skill_id, channel_frame, channel_interval, gcds@, haste, requested),
    {
        let extra: u32 = if skill_id == SKILL_DUN_WU {
            (if self.has_recipe(8007) { 16 } else { 0 }) + (if self.has_recipe(8008) { 32 } else { 0 })
        } else {
            0
        };
        let frame = get_actual_frames(channel_frame + extra, haste);
        let interval = get_actual_frames(channel_interval, haste);
        let total: u32 = if interval > 0 { frame / interval } else { 0 };
        let mut gcd: u32 = 0;
        let mut k: usize = 0;
        while k < gcds.len()
            invariant
                k <= gcds@.len(),
                gcd as int == max_gcd_upto(gcds@, haste, k as int),
            decreases gcds.len() - k,
        {
            let g = if gcds[k].1 { get_actual_frames(gcds[k].0, haste) } else { gcds[k].0 };
            if g > gcd {
                gcd = g;
            }
            k = k + 1;
        }
        let default: u32 = if gcd > 0 && interval > 0 {
            let by_gcd = if gcd / interval < total { gcd / interval } else { total };
            if by_gcd < 1 { 1 } else { by_gcd }
        } else {
            total
        };
        let ticks: u32 = match requested {
            Some(t) => if t > 0 { if t < total { t } else { total } } else { default },
            None => default,
        };
        (ticks, total)
    }
}

/// The two gates agree: a skill has no reject reason exactly when it can be cast.
pub proof fn law_gates_agree(p: &Player, n: CastNeeds, f: CastFacts)
    ensures
        (reject_spec(p, n, f) is None) == can_cast_spec(p, n, f),
{
}

/// Under the battle-end buff only the four blade moves (13052, 13053, 13054, 13055) and the
/// two specials (90001, 90002) may be cast: for them the buff changes neither gate, and
/// every other skill is refused with the battle-end reason or an earlier one.
pub proof fn law_zhan_jue_gate(p: &Player, n: CastNeeds, f: CastFacts)
    ensures
        ({
            let blade_or_special = n.skill_id == 13052 || n.skill_id == 13053 || n.skill_id == 13054
                || n.skill_id == 13055 || n.skill_id == 90001 || n.skill_id == 90002;
            let on = CastFacts { zhan_jue: true, ..f };
            let off = CastFacts { zhan_jue: false, ..f };
            &&& blade_or_special ==> can_cast_spec(p, n, on) == can_cast_spec(p, n, off)
            &&& blade_or_special ==> reject_spec(p, n, on) == reject_spec(p, n, off)
            &&& !blade_or_special ==> !can_cast_spec(p, n, on)
            &&& !blade_or_special && stance_allows(n.stance, f.stance)
                && !(n.skill_id == SKILL_REMOVE_BUFF && !f.removable_buff)
                && !(n.requires_talent is Some && !p.talents().contains(n.requires_talent->Some_0))
                ==> reject_spec(p, n, on) == Some(RejectReason::ZhanJue)
        }),
{
}

/// The name of the stance a skill needs.
pub open spec fn need_name(s: Stance) -> Seq<char> {
    match s {
        Stance::Shield => "擎盾"@,
        Stance::Blade => "擎刀"@,
        Stance::Wall => "盾墙"@,
        Stance::NotWall => "非盾墙"@,
        Stance::Any => "任意"@,
    }
}

/// The name of the stance the player is in.
pub open spec fn have_name(s: Stance) -> Seq<char> {
    match s {
        Stance::Shield => "擎盾"@,
        Stance::Blade => "擎刀"@,
        Stance::Wall => "盾墙"@,
        _ => "未知"@,
    }
}

/// `true` or `false`.
pub open spec fn bool_text(b: bool) -> Seq<char> {
    if b { "true"@ } else { "false"@ }
}

/// The message shown for a reject reason.
pub open spec fn reject_message_spec(r: RejectReason) -> Seq<char> {
    match r {
        RejectReason::NoRemovableBuff => "无可移除的气劲"@,
        RejectReason::MissingTalent(t) => "需要奇穴 "@ + decimal_digits(t as nat),
        RejectReason::WrongStance { need, have } => "需要"@ + need_name(need) + "体态（当前"@ + have_name(have) + "）"@,
        RejectReason::ZhanJue => "战绝：仅可释放苍雪刀招式"@,
        RejectReason::ShortChangQu(k) => "长驱万里层数不足（需要6，当前"@ + decimal_digits(k as nat) + "）"@,
        RejectReason::LowBlock(b) => "格挡值不足（需要20，当前"@ + signed_digits(b as int) + "）"@,
        RejectReason::LowRage { need, have, kuang_jue } => "怒气不足（需要"@ + decimal_digits(need as nat) + "，当前"@
            + signed_digits(have as int) + "，狂绝="@ + bool_text(kuang_jue) + "）"@,
        RejectReason::NeedCombo => "需要前置连招"@,
        RejectReason::ComboRunning => "连招进行中，无法重复释放"@,
    }
}

fn need_text(s: Stance) -> (r: &'static str)
    ensures
        r@ == need_name(s),
{
    match s {
        Stance::Shield => {
            proof { reveal_strlit("擎盾"); }
            "擎盾"
        },
        Stance::Blade => {
            proof { reveal_strlit("擎刀"); }
            "擎刀"
        },
        Stance::Wall => {
            proof { reveal_strlit("盾墙"); }
            "盾墙"
        },
        Stance::NotWall => {
            proof { reveal_strlit("非盾墙"); }
            "非盾墙"
        },
        Stance::Any => {
            proof { reveal_strlit("任意"); }
            "任意"
        },
    }
}

fn have_text(s: Stance) -> (r: &'static str)
    ensures
        r@ == have_name(s),
{
    match s {
        Stance::Shield => {
            proof { reveal_strlit("擎盾"); }
            "擎盾"
        },
        Stance::Blade => {
            proof { reveal_strlit("擎刀"); }
            "擎刀"
        },
        Stance::Wall => {
            proof { reveal_strlit("盾墙"); }
            "盾墙"
        },
        _ => {
            proof { reveal_strlit("未知"); }
            "未知"
        },
    }
}

impl RejectReason {
    /// The message shown for the reason.
    pub fn message(&self) -> (r: String)
        ensures
            r@ == reject_message_spec(*self),
    {
        let mut v: Vec<char> = Vec::new();
        match *self {
            RejectReason::NoRemovableBuff => push_str(&mut v, "无可移除的气劲"),
            RejectReason::MissingTalent(t) => {
                push_str(&mut v, "需要奇穴 ");
                push_decimal(&mut v, t as u64);
            },
            RejectReason::WrongStance { need, have } => {
                push_str(&mut v, "需要");
                push_str(&mut v, need_text(need));
                push_str(&mut v, "体态（当前");
                push_str(&mut v, have_text(have));
                push_str(&mut v, "）");
            },
            RejectReason::ZhanJue => push_str(&mut v, "战绝：仅可释放苍雪刀招式"),
            RejectReason::ShortChangQu(k) => {
                push_str(&mut v, "长驱万里层数不足（需要6，当前");
                push_decimal(&mut v, k as u64);
                push_str(&mut v, "）");
            },
            RejectReason::LowBlock(b) => {
                push_str(&mut v, "格挡值不足（需要20，当前");
                push_signed(&mut v, b as i64);
                push_str(&mut v, "）");
            },
            RejectReason::LowRage { need, have, kuang_jue } => {
                push_str(&mut v, "怒气不足（需要");
                push_decimal(&mut v, need as u64);
                push_str(&mut v, "，当前");
                push_signed(&mut v, have as i64);
                push_str(&mut v, "，狂绝=");
                if kuang_jue {
                    push_str(&mut v, "true");
                    proof { reveal_strlit("true"); }
                } else {
                    push_str(&mut v, "false");
                    proof { reveal_strlit("false"); }
                }
                push_str(&mut v, "）");
            },
            RejectReason::NeedCombo => push_str(&mut v, "需要前置连招"),
            RejectReason::ComboRunning => push_str(&mut v, "连招进行中，无法重复释放"),
        }
        assert(v@ =~= reject_message_spec(*self));
        string_of(&v)
    }
}

/// The rank picked among a skill's ranks, given for each whether it continues a combo and
/// whether it can be cast: the last castable combo rank, else the last castable starting
/// rank.
pub open spec fn pick_rank_spec(ranks: Seq<(bool, bool)>) -> Option<int> {
    if exists|i: int| 0 <= i < ranks.len() && ranks[i].0 && ranks[i].1 {
        Some(choose|i: int| 0 <= i < ranks.len() && ranks[i].0 && ranks[i].1
            && forall|j: int| i < j < ranks.len() ==> !(ranks[j].0 && ranks[j].1))
    } else if exists|i: int| 0 <= i < ranks.len() && !ranks[i].0 && ranks[i].1 {
        Some(choose|i: int| 0 <= i < ranks.len() && !ranks[i].0 && ranks[i].1
            && forall|j: int| i < j < ranks.len() ==> !(!ranks[j].0 && ranks[j].1))
    } else {
        None
    }
}

fn last_matching(ranks: &Vec<(bool, bool)>, combo: bool) -> (r: Option<usize>)
    ensures
        match r {
            Some(i) => i < ranks@.len() && ranks@[i as int].0 == combo && ranks@[i as int].1
                && forall|j: int| i < j < ranks@.len() ==> !(ranks@[j].0 == combo && ranks@[j].1),
            None => forall|j: int| 0 <= j < ranks@.len() ==> !(ranks@[j].0 == combo && ranks@[j].1),
        },
{
    let mut k: usize = ranks.len();
    while k > 0
        invariant
            k <= ranks@.len(),
            forall|j: int| k <= j < ranks@.len() ==> !(ranks@[j].0 == combo && ranks@[j].1),
        decreases k,
    {
        if ranks[k - 1].0 == combo && ranks[k - 1].1 {
            return Some(k - 1);
        }
        k = k - 1;
    }
    None
}

/// Picks the rank to cast: the highest castable combo follow-up first, else the highest
/// castable starting rank (`ranks[i]` = (continues a combo, castable)).
pub fn pick_rank(ranks: &Vec<(bool, bool)>) -> (r: Option<usize>)
    ensures
        match r {
            Some(i) => pick_rank_spec(ranks@) == Some(i as int),
            None => pick_rank_spec(ranks@) is None,
        },
{
    match last_matching(ranks, true) {
        Some(i) => {
            proof {
                let w = choose|w: int| 0 <= w < ranks@.len() && ranks@[w].0 && ranks@[w].1
                    && forall|j: int| w < j < ranks@.len() ==> !(ranks@[j].0 && ranks@[j].1);
                assert(ranks@[i as int].0 && ranks@[i as int].1);
                if w < i {
                    assert(!(ranks@[i as int].0 && ranks@[i as int].1));
                } else if w > i {
                    assert(!(ranks@[w].0 == true && ranks@[w].1));
                }
            }
            Some(i)
        },
        None => {
            match last_matching(ranks, false) {
                Some(i) => {
                    proof {
                        assert(!ranks@[i as int].0 && ranks@[i as int].1);
                        let w = choose|w: int| 0 <= w < ranks@.len() && !ranks@[w].0 && ranks@[w].1
                            && forall|j: int| w < j < ranks@.len() ==> !(!ranks@[j].0 && ranks@[j].1);
                        if w < i {
                            assert(!(!ranks@[i as int].0 && ranks@[i as int].1));
                        } else if w > i {
                            assert(!(ranks@[w].0 == false && ranks@[w].1));
                        }
                    }
                    Some(i)
                },
                None => None,
            }
        },
    }
}

} // verus!
