//! Which recipes apply to a damage event: the recipes the player has (chosen, activated by
//! buffs, given for the moment, granted by talents, equipment and skills), restricted to
//! those written for the skill.

use vstd::prelude::*;
use crate::player::Player;

verus! {

broadcast use vstd::std_specs::hash::group_hash_axioms;

/// What the recipe lookup reads of a recipe: its id, the skill name it is written for, and
/// the skill ids it is restricted to.
#[derive(Debug, Clone)]
pub struct RecipeKey {
    pub id: u32,
    /// The base name of the skill (used when `skill_filter` is empty).
    pub skill: String,
    /// The skill ids the recipe applies to; empty means "by name".
    pub skill_filter: Vec<u32>,
}

/// A recipe applies to a skill: by id when it has a filter, else by a non-empty skill name.
pub open spec fn applies_spec(r: RecipeKey, skill_id: u32, base: Seq<char>) -> bool {
    if r.skill_filter@.len() > 0 {
        r.skill_filter@.contains(skill_id)
    } else {
        r.skill@.len() > 0 && r.skill@ == base
    }
}

impl RecipeKey {
    /// Whether the recipe applies to the skill with id `skill_id` and base name
    /// `skill_base_name`.
    pub fn applies_to(&self, skill_id: u32, skill_base_name: &str) -> (r: bool)
        ensures
            r == applies_spec(*self, skill_id, skill_base_name@),
    {
        if self.skill_filter.len() > 0 {
            return crate::player::slice_contains(self.skill_filter.as_slice(), skill_id);
        }
        !self.skill.as_str().is_empty() && crate::strings::str_eq(self.skill.as_str(), skill_base_name)
    }
}

/// The equipment whose effects grant recipes: the two weapon families and the DPS set.
#[derive(Debug, Clone)]
pub struct EquipSets {
    pub hongyuan_weapons: Vec<u32>,
    pub youfeng_weapons: Vec<u32>,
    pub dps_t_set: Vec<u32>,
}

/// The equipment bonuses a player has.
#[derive(Debug, Clone, Copy, PartialEq, Eq, Structural)]
pub struct SetBonuses {
    /// A Tianxia Hongyuan main weapon.
    pub hongyuan: bool,
    /// A Youfeng Dieyu main weapon.
    pub youfeng: bool,
    /// Four pieces of the DPS set.
    pub t_set: bool,
}

/// Recipes every skill carries.
pub open spec fn builtin_recipe(rid: u32) -> bool {
    rid == 99341 || rid == 99342 || rid == 99343
}

/// Whether recipe `rid` is active: chosen by the player, activated by a buff, given for the
/// moment in `extra`, granted by talent 21281 (99240, 99241), 14838 (99242) or 13317
/// (99310, 99311), by the equipment bonuses (99260/99261, 99262/99263, 99270/99271), or
/// built in.
pub open spec fn recipe_active_spec(p: &Player, extra: Seq<u32>, b: SetBonuses, rid: u32) -> bool {
    ||| p.active_recipes@.contains(rid)
    ||| p.buff_recipes@.contains_key(rid)
    ||| extra.contains(rid)
    ||| p.talents().contains(21281) && (rid == 99240 || rid == 99241)
    ||| p.talents().contains(14838) && rid == 99242
    ||| p.talents().contains(13317) && (rid == 99310 || rid == 99311)
    ||| b.hongyuan && (rid == 99260 || rid == 99261)
    ||| b.youfeng && (rid == 99262 || rid == 99263)
    ||| b.t_set && (rid == 99270 || rid == 99271)
    ||| builtin_recipe(rid)
}

/// The positions among the first `n` recipes of the table that are active and apply, in
/// table order.
pub open spec fn recipe_hits(table: Seq<RecipeKey>, p: &Player, extra: Seq<u32>, b: SetBonuses, skill_id: u32, base: Seq<char>, n: int) -> Seq<usize>
    decreases n,
{
    if n <= 0 {
        Seq::empty()
    } else {
        let prev = recipe_hits(table, p, extra, b, skill_id, base, n - 1);
        let r = table[n - 1];
        if recipe_active_spec(p, extra, b, r.id) && applies_spec(r, skill_id, base) { prev.push((n - 1) as usize) } else { prev }
    }
}

fn recipe_active(p: &Player, extra: &[u32], b: SetBonuses, rid: u32) -> (r: bool)
    requires
        p.wf(),
    ensures
        r == recipe_active_spec(p, extra@, b, rid),
{
    p.recipe_active(rid) || crate::player::slice_contains(extra, rid)
        || (p.has_talent(21281) && (rid == 99240 || rid == 99241))
        || (p.has_talent(14838) && rid == 99242)
        || (p.has_talent(13317) && (rid == 99310 || rid == 99311))
        || (b.hongyuan && (rid == 99260 || rid == 99261))
        || (b.youfeng && (rid == 99262 || rid == 99263))
        || (b.t_set && (rid == 99270 || rid == 99271))
        || rid == 99341 || rid == 99342 || rid == 99343
}

fn hits(table: &Vec<RecipeKey>, p: &Player, extra: &[u32], b: SetBonuses, skill_id: u32, base: &str) -> (r: Vec<usize>)
    requires
        p.wf(),
    ensures
        r@ == recipe_hits(table@, p, extra@, b, skill_id, base@, table@.len() as int),
{
    let mut out: Vec<usize> = Vec::new();
    let mut i: usize = 0;
    while i < table.len()
        invariant
            i <= table@.len(),
            p.wf(),
            out@ == recipe_hits(table@, p, extra@, b, skill_id, base@, i as int),
        decreases table.len() - i,
    {
        if recipe_active(p, extra, b, table[i].id) && table[i].applies_to(skill_id, base) {
            out.push(i);
        }
        i = i + 1;
    }
    out
}

impl Player {
    /// The equipment bonuses of the player; the Youfeng weapon and the DPS set count only
    /// where `all` is asked.
    pub fn set_bonuses(&self, sets: &EquipSets, all: bool) -> (r: SetBonuses)
        requires
            self.wf(),
        ensures
            r.hongyuan == (crate::player::equip_at_spec(self.equipped@, "PRIMARY_WEAPON"@) != 0
                && sets.hongyuan_weapons@.contains(crate::player::equip_at_spec(self.equipped@, "PRIMARY_WEAPON"@))),
            r.youfeng == (all && crate::player::equip_at_spec(self.equipped@, "PRIMARY_WEAPON"@) != 0
                && sets.youfeng_weapons@.contains(crate::player::equip_at_spec(self.equipped@, "PRIMARY_WEAPON"@))),
            r.t_set == (all && crate::player::count_in_spec(self.equipped@, sets.dps_t_set@) as u32 >= 4),
    {
        let hongyuan = self.has_equip_in("PRIMARY_WEAPON", sets.hongyuan_weapons.as_slice());
        let youfeng = all && self.has_equip_in("PRIMARY_WEAPON", sets.youfeng_weapons.as_slice());
        let t_set = all && self.count_equip_in(sets.dps_t_set.as_slice()) >= 4;
        SetBonuses { hongyuan, youfeng, t_set }
    }
}

/// The recipes (positions in `table`, in table order) that apply to a damage event of
/// skill `skill_id` with base name `skill_base_name`: active and written for the skill. Of
/// the equipment bonuses only the Hongyuan weapon counts here.
pub fn collect_recipes(
    player: &Player,
    skill_id: u32,
    skill_base_name: &str,
    runtime_extra: &[u32],
    recipes_table: &Vec<RecipeKey>,
    sets: &EquipSets,
) -> (r: Vec<usize>)
    requires
        player.wf(),
    ensures
        r@ == recipe_hits(recipes_table@, player, runtime_extra@, player_bonuses(player, sets, false), skill_id,
            skill_base_name@, recipes_table@.len() as int),
{
    let b = player.set_bonuses(sets, false);
    hits(recipes_table, player, runtime_extra, b, skill_id, skill_base_name)
}

/// The recipes that apply to a damage event, counting every equipment bonus (the
/// Hongyuan and Youfeng weapons and four pieces of the DPS set).
pub fn collect_recipes_indexed(
    player: &Player,
    skill_id: u32,
    skill_base_name: &str,
    runtime_extra: &[u32],
    recipes_table: &Vec<RecipeKey>,
    sets: &EquipSets,
) -> (r: Vec<usize>)
    requires
        player.wf(),
    ensures
        r@ == recipe_hits(recipes_table@, player, runtime_extra@, player_bonuses(player, sets, true), skill_id,
            skill_base_name@, recipes_table@.len() as int),
{
    let b = player.set_bonuses(sets, true);
    hits(recipes_table, player, runtime_extra, b, skill_id, skill_base_name)
}

/// The equipment bonuses of a player, as `set_bonuses` computes them.
pub open spec fn player_bonuses(p: &Player, sets: &EquipSets, all: bool) -> SetBonuses {
    let w = crate::player::equip_at_spec(p.equipped@, "PRIMARY_WEAPON"@);
    SetBonuses {
        hongyuan: w != 0 && sets.hongyuan_weapons@.contains(w),
        youfeng: all && w != 0 && sets.youfeng_weapons@.contains(w),
        t_set: all && crate::player::count_in_spec(p.equipped@, sets.dps_t_set@) as u32 >= 4,
    }
}

/// Each recipe is listed at most once, in table order, and only if it applies to the skill
/// and is active.
pub proof fn law_recipe_hits_sound(table: Seq<RecipeKey>, p: &Player, extra: Seq<u32>, b: SetBonuses, skill_id: u32, base: Seq<char>)
    requires
        table.len() <= usize::MAX,
    ensures
        ({
            let h = recipe_hits(table, p, extra, b, skill_id, base, table.len() as int);
            &&& forall|k: int| 0 <= k < h.len() ==> (#[trigger] h[k]) < table.len()
                && applies_spec(table[h[k] as int], skill_id, base)
                && recipe_active_spec(p, extra, b, table[h[k] as int].id)
            &&& forall|k: int, l: int| 0 <= k < l < h.len() ==> h[k] < h[l]
            &&& forall|i: int| 0 <= i < table.len() && applies_spec(table[i], skill_id, base)
                && recipe_active_spec(p, extra, b, table[i].id) ==> h.contains(i as usize)
        }),
{
    lemma_hits(table, p, extra, b, skill_id, base, table.len() as int);
}

/// The recipes collected for a damage event are exactly the table entries written for the
/// skill (by its id when the entry lists ids, else by its non-empty base name) whose recipe
/// the player has: chosen, activated by a buff, given for the moment, granted by talent
/// 21281 (99240, 99241), talent 14838 (99242) or talent 13317 (99310, 99311), by a
/// Hongyuan weapon (99260, 99261), a Youfeng weapon (99262, 99263) or the DPS set (99270,
/// 99271), or built into every skill (99341, 99342, 99343).
pub proof fn law_collected_recipes(table: Seq<RecipeKey>, p: &Player, extra: Seq<u32>, b: SetBonuses, skill_id: u32, base: Seq<char>)
    requires
        table.len() <= usize::MAX,
    ensures
        forall|i: int| 0 <= i < table.len() ==> (
            #[trigger] recipe_hits(table, p, extra, b, skill_id, base, table.len() as int).contains(i as usize) <==> ({
                let r = table[i];
                let rid = r.id;
                &&& (if r.skill_filter@.len() > 0 { r.skill_filter@.contains(skill_id) } else { r.skill@.len() > 0 && r.skill@ == base })
                &&& (p.active_recipes@.contains(rid) || p.buff_recipes@.contains_key(rid) || extra.contains(rid)
                    || (p.active_talents@.contains(21281) && (rid == 99240 || rid == 99241))
                    || (p.active_talents@.contains(14838) && rid == 99242)
                    || (p.active_talents@.contains(13317) && (rid == 99310 || rid == 99311))
                    || (b.hongyuan && (rid == 99260 || rid == 99261))
                    || (b.youfeng && (rid == 99262 || rid == 99263))
                    || (b.t_set && (rid == 99270 || rid == 99271))
                    || rid == 99341 || rid == 99342 || rid == 99343)
            })
        ),
{
    lemma_hits(table, p, extra, b, skill_id, base, table.len() as int);
    let h = recipe_hits(table, p, extra, b, skill_id, base, table.len() as int);
    assert forall|i: int| 0 <= i < table.len() && #[trigger] h.contains(i as usize)
        implies applies_spec(table[i], skill_id, base) && recipe_active_spec(p, extra, b, table[i].id) by {
        let k = choose|k: int| 0 <= k < h.len() && h[k] == i as usize;
        assert(h[k] < table.len());
    }
}

proof fn lemma_hits(table: Seq<RecipeKey>, p: &Player, extra: Seq<u32>, b: SetBonuses, skill_id: u32, base: Seq<char>, n: int)
    requires
        0 <= n <= table.len(),
        table.len() <= usize::MAX,
    ensures
        ({
            let h = recipe_hits(table, p, extra, b, skill_id, base, n);
            &&& forall|k: int| 0 <= k < h.len() ==> (#[trigger] h[k]) < n
                && applies_spec(table[h[k] as int], skill_id, base)
                && recipe_active_spec(p, extra, b, table[h[k] as int].id)
            &&& forall|k: int, l: int| 0 <= k < l < h.len() ==> h[k] < h[l]
            &&& forall|i: int| 0 <= i < n && applies_spec(table[i], skill_id, base)
                && recipe_active_spec(p, extra, b, table[i].id) ==> h.contains(i as usize)
        }),
    decreases n,
{
    if n > 0 {
        lemma_hits(table, p, extra, b, skill_id, base, n - 1);
        let prev = recipe_hits(table, p, extra, b, skill_id, base, n - 1);
        let h = recipe_hits(table, p, extra, b, skill_id, base, n);
        assert forall|i: int| 0 <= i < n && applies_spec(table[i], skill_id, base)
            && recipe_active_spec(p, extra, b, table[i].id) implies h.contains(i as usize) by {
            if i < n - 1 {
                let k = choose|k: int| 0 <= k < prev.len() && prev[k] == i as usize;
                assert(h[k] == prev[k]);
            } else {
                assert(h[h.len() - 1] == (n - 1) as usize);
            }
        }
    }
}

} // verus!
