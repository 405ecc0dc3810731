//! The integer resources of a player: rage, block value, talents, recipes, equipment,
//! and the counters that tell a cached decision that the state has moved on.

use std::collections::{HashMap, HashSet};
use vstd::prelude::*;

use crate::model::Stance;
use crate::mount::{GameVersion, Mount};
use crate::strings::str_eq;

verus! {

broadcast use vstd::std_specs::hash::group_hash_axioms;

/// Most rage a player can hold.
pub const MAX_RAGE: i32 = 100;

/// Block value cap without talent 13363.
pub const BASE_BLOCK_VALUE: i32 = 100;

/// Talent that raises the block value cap by 100.
pub const TALENT_EXTRA_BLOCK: u32 = 13363;

/// Tieguyi talent that turns spent rage into block value.
pub const TALENT_RAGE_TO_BLOCK: u32 = 14840;

/// Rage spent per point of block value gained with talent 14840.
pub const RAGE_PER_BLOCK_POINT: u32 = 11;

/// The skill whose charges talent 36058 changes.
pub const SKILL_DUN_JI: u32 = 13047;

/// Talent that changes the charges of skill 13047.
pub const TALENT_DUN_JI_CHARGES: u32 = 36058;

/// `v` clamped into `[lo, hi]`.
pub open spec fn clamp_spec(v: int, lo: int, hi: int) -> int {
    if v < lo { lo } else if v > hi { hi } else { v }
}

/// How many buffs currently activate recipe `k` (0 when none).
pub open spec fn recipe_count(m: Map<u32, u32>, k: u32) -> nat {
    if m.contains_key(k) { m[k] as nat } else { 0 }
}

/// Every recipe held by buffs is held by at least one buff.
pub open spec fn counts_positive(m: Map<u32, u32>) -> bool {
    forall|k: u32| m.contains_key(k) ==> m[k] >= 1
}

/// Number of times `x` occurs in `s`.
pub open spec fn occurrences(s: Seq<u32>, x: u32) -> nat
    decreases s.len(),
{
    if s.len() == 0 {
        0
    } else {
        occurrences(s.drop_last(), x) + if s.last() == x { 1nat } else { 0nat }
    }
}

/// The buff-recipe counts after activating the recipes `ids` in order.
pub open spec fn activated(m: Map<u32, u32>, ids: Seq<u32>) -> Map<u32, u32>
    decreases ids.len(),
{
    if ids.len() == 0 {
        m
    } else {
        let prev = activated(m, ids.drop_last());
        let k = ids.last();
        prev.insert(k, (recipe_count(prev, k) + 1) as u32)
    }
}

/// The buff-recipe counts after deactivating the recipes `ids` in order: a count above
/// one drops by one, a count of one leaves the map, an absent recipe is left alone.
pub open spec fn deactivated(m: Map<u32, u32>, ids: Seq<u32>) -> Map<u32, u32>
    decreases ids.len(),
{
    if ids.len() == 0 {
        m
    } else {
        let prev = deactivated(m, ids.drop_last());
        let k = ids.last();
        if prev.contains_key(k) {
            if prev[k] > 1 { prev.insert(k, (prev[k] - 1) as u32) } else { prev.remove(k) }
        } else {
            prev
        }
    }
}

/// Position names of an equipment list.
pub open spec fn positions(e: Seq<(String, u32)>) -> Seq<Seq<char>> {
    e.map_values(|p: (String, u32)| p.0@)
}

/// No position occurs twice.
pub open spec fn distinct_positions(e: Seq<(String, u32)>) -> bool {
    forall|i: int, j: int| 0 <= i < j < e.len() ==> #[trigger] e[i].0@ != #[trigger] e[j].0@
}

/// The item equipped at `position`, 0 where nothing is.
pub open spec fn equip_at_spec(e: Seq<(String, u32)>, position: Seq<char>) -> u32 {
    if exists|i: int| 0 <= i < e.len() && e[i].0@ == position {
        e[choose|i: int| 0 <= i < e.len() && e[i].0@ == position].1
    } else {
        0
    }
}

/// Number of slots whose non-zero item is one of `ids`.
pub open spec fn count_in_spec(e: Seq<(String, u32)>, ids: Seq<u32>) -> nat
    decreases e.len(),
{
    if e.len() == 0 {
        0
    } else {
        count_in_spec(e.drop_last(), ids) + if e.last().1 != 0 && ids.contains(e.last().1) {
            1nat
        } else {
            0nat
        }
    }
}

/// The non-zero item ids of an equipment list.
pub open spec fn nonzero_values(e: Seq<(String, u32)>) -> Set<u32> {
    Set::new(|v: u32| v != 0 && exists|i: int| 0 <= i < e.len() && #[trigger] e[i].1 == v)
}

/// The integer resources of a player.
pub struct Player {
    pub mount: Mount,
    pub version: GameVersion,
    /// Haste rating.
    pub haste_level: u32,
    /// Selected talents.
    pub active_talents: HashSet<u32>,
    /// Recipes the user selected.
    pub active_recipes: HashSet<u32>,
    /// Recipes activated by buffs, with the number of buffs activating each.
    pub buff_recipes: HashMap<u32, u32>,
    /// Rage, 0..=100.
    pub rage: i32,
    /// Block value, 0..=max_block_value().
    pub block_value: i32,
    /// Rage spent and not yet turned into block value (talent 14840).
    pub rage_spent_accumulator: u32,
    /// Rage cost of the last cast.
    pub last_rage_cost: u32,
    /// Equipment: (position, item id), positions distinct.
    pub equipped: Vec<(String, u32)>,
    /// Every non-zero item id of `equipped` (enchants included).
    pub equipped_values: HashSet<u32>,
    /// Accumulated trigger chance of equipment effects, by skill id.
    pub equip_effect_accum: HashMap<u32, i32>,
    /// Bumped on every change that can alter the next decision.
    pub decision_generation: u64,
    /// The formation the player opens itself, when a self-opened formation is selected.
    pub formation_self_id: Option<String>,
    /// The stance the player's stance buffs put it in: shield, blade or wall.
    pub stance: Stance,
}

/// `g` advanced by one `k` times, wrapping.
pub open spec fn bumped(g: u64, k: nat) -> u64
    decreases k,
{
    if k == 0 { g } else { bumped(g, (k - 1) as nat).wrapping_add(1) }
}

/// The stance the stance buffs give after a switch to `new`: blade or wall as asked; any
/// other request leaves no blade or wall buff, which reads as the shield.
pub open spec fn stance_after(new: Stance) -> Stance {
    match new {
        Stance::Blade => Stance::Blade,
        Stance::Wall => Stance::Wall,
        _ => Stance::Shield,
    }
}

/// The buff changes a stance switch makes: the five stance buffs are removed, then the
/// new stance's buff and its hidden game buff are added for shield, blade and wall.
pub open spec fn stance_switch_changes(new: Stance) -> nat {
    match new {
        Stance::Shield | Stance::Blade | Stance::Wall => 7,
        _ => 5,
    }
}

impl Player {
    /// The selected talents.
    pub open spec fn talents(&self) -> Set<u32> {
        self.active_talents@
    }

    /// The haste rating the player was created with.
    pub open spec fn haste(&self) -> u32 {
        self.haste_level
    }

    /// Block value cap: 100, or 200 with talent 13363.
    pub open spec fn max_block_spec(&self) -> int {
        if self.talents().contains(TALENT_EXTRA_BLOCK) { 200 } else { 100 }
    }

    /// What every operation keeps.
    pub open spec fn wf(&self) -> bool {
        &&& 0 <= self.rage <= MAX_RAGE
        &&& 0 <= self.block_value <= self.max_block_spec()
        &&& counts_positive(self.buff_recipes@)
        &&& distinct_positions(self.equipped@)
        &&& self.equipped_values@ == nonzero_values(self.equipped@)
    }

    /// A fresh Fenshanjin player of version 2026.04 with full block value and no rage.
    pub fn new(haste_level: u32, talents: Vec<u32>, recipes: Vec<u32>) -> (p: Self)
        ensures
            p.wf(),
            p.mount == Mount::FenShanJin,
            p.version == GameVersion::AnYingQianJi,
            p.haste() == haste_level,
            p.talents() == talents@.to_set(),
            p.active_recipes@ == recipes@.to_set(),
            p.buff_recipes@ == Map::<u32, u32>::empty(),
            p.rage == 0,
            p.block_value == p.max_block_spec(),
            p.rage_spent_accumulator == 0,
            p.last_rage_cost == 0,
            p.equipped@.len() == 0,
            p.equip_effect_accum@ == Map::<u32, i32>::empty(),
            p.decision_generation == 7,
            p.formation_self_id is None,
            p.stance == Stance::Shield,
    {
        Self::with_mount(Mount::FenShanJin, GameVersion::AnYingQianJi, haste_level, talents, recipes)
    }

    /// A fresh player of the given mount and version, with full block value and no rage.
    pub fn with_mount(mount: Mount, version: GameVersion, haste_level: u32, talents: Vec<u32>, recipes: Vec<u32>) -> (p: Self)
        ensures
            p.wf(),
            p.mount == mount,
            p.version == version,
            p.haste() == haste_level,
            p.talents() == talents@.to_set(),
            p.active_recipes@ == recipes@.to_set(),
            p.buff_recipes@ == Map::<u32, u32>::empty(),
            p.rage == 0,
            p.block_value == p.max_block_spec(),
            p.rage_spent_accumulator == 0,
            p.last_rage_cost == 0,
            p.equipped@.len() == 0,
            p.equip_effect_accum@ == Map::<u32, i32>::empty(),
            p.decision_generation == 7,
            p.formation_self_id is None,
            p.stance == Stance::Shield,
    {
        let active_talents = set_of(&talents);
        let active_recipes = set_of(&recipes);
        let mut p = Player {
            mount,
            version,
            haste_level,
            active_talents,
            active_recipes,
            buff_recipes: HashMap::new(),
            rage: 0,
            block_value: 100,
            rage_spent_accumulator: 0,
            last_rage_cost: 0,
            equipped: Vec::new(),
            equipped_values: HashSet::new(),
            equip_effect_accum: HashMap::new(),
            decision_generation: 0,
            formation_self_id: None,
            stance: Stance::Shield,
        };
        assert(p.equipped_values@ =~= nonzero_values(p.equipped@));
        p.set_stance(Stance::Shield);
        proof {
            reveal_with_fuel(bumped, 8);
        }
        p.block_value = p.max_block_value();
        p
    }

    /// Block value cap: 100, or 200 with talent 13363.
    pub fn max_block_value(&self) -> (r: i32)
        ensures
            r == self.max_block_spec(),
    {
        if self.has_talent(TALENT_EXTRA_BLOCK) { 200 } else { 100 }
    }

    /// Whether talent `talent_id` is selected.
    pub fn has_talent(&self, talent_id: u32) -> (r: bool)
        ensures
            r == self.talents().contains(talent_id),
    {
        self.active_talents.contains(&talent_id)
    }

    /// Whether the user selected recipe `recipe_id`.
    pub fn has_recipe(&self, recipe_id: u32) -> (r: bool)
        ensures
            r == self.active_recipes@.contains(recipe_id),
    {
        self.active_recipes.contains(&recipe_id)
    }

    /// Whether recipe `recipe_id` applies: selected by the user or activated by a buff.
    pub fn recipe_active(&self, recipe_id: u32) -> (r: bool)
        ensures
            r == (self.active_recipes@.contains(recipe_id) || self.buff_recipes@.contains_key(recipe_id)),
    {
        self.active_recipes.contains(&recipe_id) || self.buff_recipes.contains_key(&recipe_id)
    }

    /// Advances the decision generation by one (wrapping).
    pub fn bump_decision_gen(&mut self)
        ensures
            *final(self) == (Player { decision_generation: old(self).decision_generation.wrapping_add(1), ..*old(self) }),
    {
        self.decision_generation = self.decision_generation.wrapping_add(1);
    }

    /// The stance the player is in.
    pub fn stance(&self) -> (r: Stance)
        ensures
            r == self.stance,
    {
        self.stance
    }

    /// Switches stance: the old stance buffs go and the new ones come, each change bumping
    /// the decision generation.
    pub fn set_stance(&mut self, new: Stance)
        ensures
            *final(self) == (Player {
                stance: stance_after(new),
                decision_generation: bumped(old(self).decision_generation, stance_switch_changes(new)),
                ..*old(self)
            }),
    {
        let changes: u32 = match new {
            Stance::Shield | Stance::Blade | Stance::Wall => 7,
            _ => 5,
        };
        let ghost start = *self;
        let mut i: u32 = 0;
        while i < changes
            invariant
                i <= changes,
                changes as nat == stance_switch_changes(new),
                *self == (Player { decision_generation: bumped(start.decision_generation, i as nat), ..start }),
            decreases changes - i,
        {
            self.bump_decision_gen();
            i = i + 1;
        }
        self.stance = match new {
            Stance::Blade => Stance::Blade,
            Stance::Wall => Stance::Wall,
            _ => Stance::Shield,
        };
    }

    /// Sets rage, clamped into `0..=100`, and bumps the decision generation.
    pub fn set_rage(&mut self, v: i32)
        requires
            old(self).wf(),
        ensures
            final(self).wf(),
            final(self).rage == clamp_spec(v as int, 0, MAX_RAGE as int),
            *final(self) == (Player {
                rage: clamp_spec(v as int, 0, MAX_RAGE as int) as i32,
                decision_generation: old(self).decision_generation.wrapping_add(1),
                ..*old(self)
            }),
    {
        self.rage = if v < 0 { 0 } else if v > MAX_RAGE { MAX_RAGE } else { v };
        self.bump_decision_gen();
    }

    /// Adds `delta` to rage, clamped into `0..=100`.
    pub fn add_rage(&mut self, delta: i32)
        requires
            old(self).wf(),
            i32::MIN <= old(self).rage + delta <= i32::MAX,
        ensures
            final(self).wf(),
            final(self).rage == clamp_spec(old(self).rage + delta, 0, MAX_RAGE as int),
            *final(self) == (Player {
                rage: clamp_spec(old(self).rage + delta, 0, MAX_RAGE as int) as i32,
                decision_generation: old(self).decision_generation.wrapping_add(1),
                ..*old(self)
            }),
    {
        let v = self.rage + delta;
        self.set_rage(v);
    }

    /// Sets block value, clamped into `0..=max_block_value()`, and bumps the decision generation.
    pub fn set_block_value(&mut self, v: i32)
        requires
            old(self).wf(),
        ensures
            final(self).wf(),
            final(self).block_value == clamp_spec(v as int, 0, old(self).max_block_spec()),
            *final(self) == (Player {
                block_value: clamp_spec(v as int, 0, old(self).max_block_spec()) as i32,
                decision_generation: old(self).decision_generation.wrapping_add(1),
                ..*old(self)
            }),
    {
        let max_bv = self.max_block_value();
        self.block_value = if v < 0 { 0 } else if v > max_bv { max_bv } else { v };
        self.bump_decision_gen();
    }

    /// Adds `delta` to block value, clamped into `0..=max_block_value()`.
    pub fn add_block_value(&mut self, delta: i32)
        requires
            old(self).wf(),
            i32::MIN <= old(self).block_value + delta <= i32::MAX,
        ensures
            final(self).wf(),
            final(self).block_value == clamp_spec(old(self).block_value + delta, 0, old(self).max_block_spec()),
            *final(self) == (Player {
                block_value: clamp_spec(old(self).block_value + delta, 0, old(self).max_block_spec()) as i32,
                decision_generation: old(self).decision_generation.wrapping_add(1),
                ..*old(self)
            }),
    {
        let v = self.block_value + delta;
        self.set_block_value(v);
    }
}

impl Player {
    /// Replaces the equipment; `equipped_values` becomes its non-zero item ids.
    pub fn set_equipped(&mut self, m: Vec<(String, u32)>)
        requires
            old(self).wf(),
            distinct_positions(m@),
        ensures
            final(self).wf(),
            final(self).equipped@ == m@,
            final(self).equipped_values@ == nonzero_values(m@),
            final(self).rage == old(self).rage,
            final(self).block_value == old(self).block_value,
            final(self).talents() == old(self).talents(),
            final(self).buff_recipes@ == old(self).buff_recipes@,
            final(self).active_recipes@ == old(self).active_recipes@,
            final(self).decision_generation == old(self).decision_generation,
    {
        let mut values: HashSet<u32> = HashSet::new();
        let mut i: usize = 0;
        while i < m.len()
            invariant
                i <= m.len(),
                values@ == nonzero_values(m@.subrange(0, i as int)),
            decreases m.len() - i,
        {
            let v = m[i].1;
            let ghost pre = m@.subrange(0, i as int);
            let ghost post = m@.subrange(0, i as int + 1);
            if v != 0 {
                values.insert(v);
            }
            assert(values@ =~= nonzero_values(post)) by {
                assert forall|x: u32| values@.contains(x) == nonzero_values(post).contains(x) by {
                    if x != 0 && x != v {
                        if exists|j: int| 0 <= j < post.len() && #[trigger] post[j].1 == x {
                            let j = choose|j: int| 0 <= j < post.len() && #[trigger] post[j].1 == x;
                            assert(pre[j].1 == x);
                        }
                        if exists|j: int| 0 <= j < pre.len() && #[trigger] pre[j].1 == x {
                            let j = choose|j: int| 0 <= j < pre.len() && #[trigger] pre[j].1 == x;
                            assert(post[j].1 == x);
                        }
                    }
                    if x == v && x != 0 {
                        assert(post[i as int].1 == x);
                    }
                }
            }
            i = i + 1;
        }
        assert(m@.subrange(0, m.len() as int) == m@);
        self.equipped_values = values;
        self.equipped = m;
    }

    /// The item equipped at `position`, 0 where nothing is.
    pub fn equip_id_at(&self, position: &str) -> (r: u32)
        requires
            self.wf(),
        ensures
            r == equip_at_spec(self.equipped@, position@),
    {
        let mut i: usize = 0;
        while i < self.equipped.len()
            invariant
                i <= self.equipped@.len(),
                distinct_positions(self.equipped@),
                forall|j: int| 0 <= j < i ==> #[trigger] self.equipped@[j].0@ != position@,
            decreases self.equipped.len() - i,
        {
            if str_eq(self.equipped[i].0.as_str(), position) {
                let ghost k = choose|k: int| 0 <= k < self.equipped@.len() && self.equipped@[k].0@ == position@;
                assert(self.equipped@[k].0@ == position@);
                assert(k == i) by {
                    if k != i {
                        assert(distinct_positions(self.equipped@));
                        if k < i {
                            assert(self.equipped@[k].0@ != self.equipped@[i as int].0@);
                        } else {
                            assert(self.equipped@[i as int].0@ != self.equipped@[k].0@);
                        }
                    }
                }
                return self.equipped[i].1;
            }
            i = i + 1;
        }
        0
    }

    /// Whether a non-zero item of `ids` is equipped at `position`.
    pub fn has_equip_in(&self, position: &str, ids: &[u32]) -> (r: bool)
        requires
            self.wf(),
        ensures
            r == (equip_at_spec(self.equipped@, position@) != 0
                && ids@.contains(equip_at_spec(self.equipped@, position@))),
    {
        let cur = self.equip_id_at(position);
        cur != 0 && slice_contains(ids, cur)
    }

    /// Number of slots whose non-zero item is one of `ids`.
    pub fn count_equip_in(&self, ids: &[u32]) -> (r: u32)
        requires
            self.wf(),
        ensures
            r == count_in_spec(self.equipped@, ids@) as u32,
    {
        let mut n: usize = 0;
        let mut i: usize = 0;
        while i < self.equipped.len()
            invariant
                i <= self.equipped@.len(),
                n == count_in_spec(self.equipped@.subrange(0, i as int), ids@),
                n <= i,
            decreases self.equipped.len() - i,
        {
            let ghost pre = self.equipped@.subrange(0, i as int);
            assert(self.equipped@.subrange(0, i as int + 1).drop_last() == pre);
            let v = self.equipped[i].1;
            if v != 0 && slice_contains(ids, v) {
                n = n + 1;
            }
            i = i + 1;
        }
        assert(self.equipped@.subrange(0, self.equipped.len() as int) == self.equipped@);
        n as u32
    }

    /// Whether item or enchant `enchant_id` is equipped anywhere.
    pub fn has_enchant(&self, enchant_id: u32) -> (r: bool)
        requires
            self.wf(),
        ensures
            r == (enchant_id != 0 && exists|i: int| 0 <= i < self.equipped@.len()
                && #[trigger] self.equipped@[i].1 == enchant_id),
    {
        self.equipped_values.contains(&enchant_id)
    }
}

impl Player {
    /// Counts one more activating buff for each recipe of `ids`, in order.
    pub fn buff_activate_recipes(&mut self, ids: &[u32])
        requires
            old(self).wf(),
            forall|k: u32| recipe_count(old(self).buff_recipes@, k) + occurrences(ids@, k) <= u32::MAX,
        ensures
            final(self).wf(),
            final(self).buff_recipes@ == activated(old(self).buff_recipes@, ids@),
            final(self).rage == old(self).rage,
            final(self).block_value == old(self).block_value,
            final(self).talents() == old(self).talents(),
            final(self).equipped@ == old(self).equipped@,
            final(self).active_recipes@ == old(self).active_recipes@,
            final(self).decision_generation == old(self).decision_generation,
    {
        let ghost m0 = self.buff_recipes@;
        let mut i: usize = 0;
        while i < ids.len()
            invariant
                i <= ids@.len(),
                self.wf(),
                self.buff_recipes@ == activated(m0, ids@.subrange(0, i as int)),
                counts_positive(m0),
                forall|k: u32| recipe_count(m0, k) + occurrences(ids@, k) <= u32::MAX,
                self.rage == old(self).rage,
                self.block_value == old(self).block_value,
                self.talents() == old(self).talents(),
                self.equipped@ == old(self).equipped@,
                self.equipped_values@ == old(self).equipped_values@,
                self.active_recipes@ == old(self).active_recipes@,
                self.decision_generation == old(self).decision_generation,
            decreases ids.len() - i,
        {
            let rid = ids[i];
            let ghost prefix = ids@.subrange(0, i as int);
            let ghost next = ids@.subrange(0, i as int + 1);
            assert(next.drop_last() == prefix);
            assert(next.last() == rid);
            proof {
                assert forall|j: u32| recipe_count(m0, j) + occurrences(prefix, j) <= u32::MAX by {
                    lemma_occurrences_prefix(ids@, i as int, j);
                }
                lemma_activated_count(m0, prefix, rid);
                lemma_occurrences_prefix(ids@, i as int + 1, rid);
                lemma_occurrences_push(prefix, rid, rid);
            }
            let c: u32 = match self.buff_recipes.get(&rid) {
                Some(c) => *c,
                None => 0,
            };
            assert(c as nat == recipe_count(self.buff_recipes@, rid));
            self.buff_recipes.insert(rid, c + 1);
            i = i + 1;
        }
        assert(ids@.subrange(0, ids.len() as int) == ids@);
    }

    /// Counts one fewer activating buff for each recipe of `ids`, in order; a recipe whose
    /// last activating buff goes is no longer buff-activated.
    pub fn buff_deactivate_recipes(&mut self, ids: &[u32])
        requires
            old(self).wf(),
        ensures
            final(self).wf(),
            final(self).buff_recipes@ == deactivated(old(self).buff_recipes@, ids@),
            final(self).rage == old(self).rage,
            final(self).block_value == old(self).block_value,
            final(self).talents() == old(self).talents(),
            final(self).equipped@ == old(self).equipped@,
            final(self).active_recipes@ == old(self).active_recipes@,
            final(self).decision_generation == old(self).decision_generation,
    {
        let ghost m0 = self.buff_recipes@;
        let mut i: usize = 0;
        while i < ids.len()
            invariant
                i <= ids@.len(),
                self.wf(),
                self.buff_recipes@ == deactivated(m0, ids@.subrange(0, i as int)),
                self.rage == old(self).rage,
                self.block_value == old(self).block_value,
                self.talents() == old(self).talents(),
                self.equipped@ == old(self).equipped@,
                self.equipped_values@ == old(self).equipped_values@,
                self.active_recipes@ == old(self).active_recipes@,
                self.decision_generation == old(self).decision_generation,
            decreases ids.len() - i,
        {
            let rid = ids[i];
            let ghost prefix = ids@.subrange(0, i as int);
            let ghost next = ids@.subrange(0, i as int + 1);
            assert(next.drop_last() == prefix);
            assert(next.last() == rid);
            match self.buff_recipes.get(&rid) {
                Some(c) => {
                    let c = *c;
                    if c > 1 {
                        self.buff_recipes.insert(rid, c - 1);
                    } else {
                        self.buff_recipes.remove(&rid);
                    }
                },
                None => {},
            }
            i = i + 1;
        }
        assert(ids@.subrange(0, ids.len() as int) == ids@);
    }
}

/// Accumulated trigger chance of skill `k` (0 when none yet).
pub open spec fn accum_value(m: Map<u32, i32>, k: u32) -> int {
    if m.contains_key(k) { m[k] as int } else { 0 }
}

/// Whether the player is a Tieguyi with talent 14840 paying a positive rage cost.
pub open spec fn converts_rage(p: &Player, eff_cost: u32) -> bool {
    eff_cost > 0 && p.mount == Mount::TieGuYi && p.talents().contains(TALENT_RAGE_TO_BLOCK)
}

/// Charges of a skill after talents: skill 13047 with talent 36058 has 999 charges in the
/// 2026.04 data and one more charge in the 2025.10 data.
pub open spec fn effective_max_charges_spec(p: &Player, skill_id: u32, max_charges: u32) -> int {
    if skill_id == SKILL_DUN_JI && p.talents().contains(TALENT_DUN_JI_CHARGES) {
        if p.version == GameVersion::AnYingQianJi || p.version == GameVersion::AnYingQianJiTest {
            999
        } else {
            max_charges + 1
        }
    } else {
        max_charges as int
    }
}

impl Player {
    /// Adds `prob` to the trigger chance accumulated for `skill_id`; when it reaches
    /// `scale` the effect triggers and `scale` is taken off.
    pub fn accum_equip_effect(&mut self, skill_id: u32, prob: i32, scale: i32) -> (r: bool)
        requires
            old(self).wf(),
            i32::MIN <= accum_value(old(self).equip_effect_accum@, skill_id) + prob <= i32::MAX,
            i32::MIN <= accum_value(old(self).equip_effect_accum@, skill_id) + prob - scale <= i32::MAX,
        ensures
            final(self).wf(),
            ({
                let v = accum_value(old(self).equip_effect_accum@, skill_id) + prob;
                &&& r == (v >= scale)
                &&& final(self).equip_effect_accum@ == old(self).equip_effect_accum@.insert(
                    skill_id,
                    (if r { v - scale } else { v }) as i32,
                )
            }),
            final(self).rage == old(self).rage,
            final(self).block_value == old(self).block_value,
            final(self).talents() == old(self).talents(),
            final(self).equipped@ == old(self).equipped@,
            final(self).buff_recipes@ == old(self).buff_recipes@,
            final(self).active_recipes@ == old(self).active_recipes@,
            final(self).decision_generation == old(self).decision_generation,
    {
        let cur: i32 = match self.equip_effect_accum.get(&skill_id) {
            Some(v) => *v,
            None => 0,
        };
        let v = cur + prob;
        if v >= scale {
            self.equip_effect_accum.insert(skill_id, v - scale);
            true
        } else {
            self.equip_effect_accum.insert(skill_id, v);
            false
        }
    }

    /// Pays a cast's rage cost and gains its rage: rage becomes `rage - eff_cost + rage_gain`
    /// clamped into `0..=100`. A Tieguyi with talent 14840 also turns each 11 rage spent into
    /// one point of block value, keeping the remainder for later.
    pub fn apply_cast_rage(&mut self, eff_cost: u32, rage_gain: u32)
        requires
            old(self).wf(),
            eff_cost <= i32::MAX,
            rage_gain <= i32::MAX,
            i32::MIN <= old(self).rage - eff_cost <= i32::MAX,
            i32::MIN <= old(self).rage - eff_cost + rage_gain <= i32::MAX,
            converts_rage(old(self), eff_cost) ==> old(self).rage_spent_accumulator + eff_cost <= u32::MAX,
        ensures
            final(self).wf(),
            final(self).last_rage_cost == eff_cost,
            final(self).rage == clamp_spec(old(self).rage - eff_cost + rage_gain, 0, MAX_RAGE as int),
            converts_rage(old(self), eff_cost) ==> {
                let spent = old(self).rage_spent_accumulator + eff_cost;
                &&& final(self).rage_spent_accumulator == spent % (RAGE_PER_BLOCK_POINT as int)
                &&& final(self).block_value == clamp_spec(
                    old(self).block_value + spent / (RAGE_PER_BLOCK_POINT as int),
                    0,
                    old(self).max_block_spec(),
                )
            },
            !converts_rage(old(self), eff_cost) ==> {
                &&& final(self).rage_spent_accumulator == old(self).rage_spent_accumulator
                &&& final(self).block_value == old(self).block_value
            },
            final(self).decision_generation == if converts_rage(old(self), eff_cost)
                && (old(self).rage_spent_accumulator + eff_cost) / (RAGE_PER_BLOCK_POINT as int) > 0 {
                old(self).decision_generation.wrapping_add(1).wrapping_add(1)
            } else {
                old(self).decision_generation.wrapping_add(1)
            },
            final(self).talents() == old(self).talents(),
            final(self).equipped@ == old(self).equipped@,
            final(self).buff_recipes@ == old(self).buff_recipes@,
            final(self).active_recipes@ == old(self).active_recipes@,
            final(self).mount == old(self).mount,
            final(self).version == old(self).version,
    {
        self.last_rage_cost = eff_cost;
        let v = self.rage - eff_cost as i32 + rage_gain as i32;
        self.set_rage(v);
        if eff_cost > 0 && self.mount == Mount::TieGuYi && self.has_talent(TALENT_RAGE_TO_BLOCK) {
            self.rage_spent_accumulator = self.rage_spent_accumulator + eff_cost;
            let blocks = self.rage_spent_accumulator / RAGE_PER_BLOCK_POINT;
            if blocks > 0 {
                self.add_block_value(blocks as i32);
                self.rage_spent_accumulator = self.rage_spent_accumulator % RAGE_PER_BLOCK_POINT;
            }
        }
    }

    /// Charges of a skill after talents.
    pub fn effective_max_charges(&self, skill_id: u32, max_charges: u32) -> (r: u32)
        requires
            skill_id == SKILL_DUN_JI && self.talents().contains(TALENT_DUN_JI_CHARGES)
                && self.version == GameVersion::ShanHaiYuanLiu ==> max_charges < u32::MAX,
        ensures
            r == effective_max_charges_spec(self, skill_id, max_charges),
    {
        let mut charges = max_charges;
        if skill_id == SKILL_DUN_JI {
            if self.has_talent(TALENT_DUN_JI_CHARGES) {
                if self.version == GameVersion::AnYingQianJi || self.version == GameVersion::AnYingQianJiTest {
                    return 999;
                }
                charges = charges + 1;
            }
        }
        charges
    }
}

/// The accumulator and the number of triggers after `n` calls of `accum_equip_effect`
/// with chance `p` and scale `s`, starting from accumulator `a0`.
pub open spec fn accum_run(a0: int, p: int, s: int, n: nat) -> (int, nat)
    decreases n,
{
    if n == 0 {
        (a0, 0)
    } else {
        let prev = accum_run(a0, p, s, (n - 1) as nat);
        let v = prev.0 + p;
        if v >= s { (v - s, prev.1 + 1) } else { (v, prev.1) }
    }
}

/// An equipment effect with trigger chance `p` out of `s` triggers exactly once per `s/p`
/// calls on average and deterministically: after `n` calls from accumulator `a0` it has
/// triggered `(a0 + n*p) / s` times and holds `(a0 + n*p) % s`.
pub proof fn law_equip_effect_rate(a0: int, p: int, s: int, n: nat)
    requires
        0 < s,
        0 <= a0 < s,
        0 <= p <= s,
    ensures
        accum_run(a0, p, s, n) == ((a0 + n * p) % s, ((a0 + n * p) / s) as nat),
        0 <= (a0 + n * p) / s,
    decreases n,
{
    if n == 0 {
        vstd::arithmetic::div_mod::lemma_fundamental_div_mod_converse(a0, s, 0, a0);
    } else {
        let m = (n - 1) as nat;
        law_equip_effect_rate(a0, p, s, m);
        let x = a0 + m * p;
        let q = x / s;
        let r = x % s;
        assert(0 <= r < s) by {
            vstd::arithmetic::div_mod::lemma_mod_bound(x, s);
        }
        assert(x == q * s + r) by {
            vstd::arithmetic::div_mod::lemma_fundamental_div_mod(x, s);
        }
        assert(a0 + n * p == x + p) by (nonlinear_arith)
            requires m == n - 1, x == a0 + m * p;
        if r + p >= s {
            assert(x + p == (q + 1) * s + (r + p - s)) by (nonlinear_arith)
                requires x == q * s + r;
            vstd::arithmetic::div_mod::lemma_fundamental_div_mod_converse(x + p, s, q + 1, r + p - s);
        } else {
            assert(x + p == q * s + (r + p)) by (nonlinear_arith)
                requires x == q * s + r;
            vstd::arithmetic::div_mod::lemma_fundamental_div_mod_converse(x + p, s, q, r + p);
        }
    }
}

/// Occurrences in a prefix extended by one element.
pub proof fn lemma_occurrences_push(s: Seq<u32>, y: u32, x: u32)
    ensures
        occurrences(s.push(y), x) == occurrences(s, x) + if y == x { 1nat } else { 0nat },
{
    assert(s.push(y).drop_last() == s);
}

/// Occurrences in a prefix are at most those in the whole sequence.
pub proof fn lemma_occurrences_prefix(s: Seq<u32>, n: int, x: u32)
    requires
        0 <= n <= s.len(),
    ensures
        occurrences(s.subrange(0, n), x) <= occurrences(s, x),
    decreases s.len(),
{
    if n < s.len() {
        assert(s.drop_last().subrange(0, n) == s.subrange(0, n));
        lemma_occurrences_prefix(s.drop_last(), n, x);
    } else {
        assert(s.subrange(0, n) == s);
    }
}

/// Activating `ids` adds, to each recipe's count, its number of occurrences in `ids`,
/// and keeps every count positive.
pub proof fn lemma_activated_count(m: Map<u32, u32>, ids: Seq<u32>, k: u32)
    requires
        counts_positive(m),
        forall|j: u32| recipe_count(m, j) + occurrences(ids, j) <= u32::MAX,
    ensures
        recipe_count(activated(m, ids), k) == recipe_count(m, k) + occurrences(ids, k),
        counts_positive(activated(m, ids)),
    decreases ids.len(),
{
    if ids.len() > 0 {
        let p = ids.drop_last();
        let y = ids.last();
        assert(ids == p.push(y));
        assert forall|j: u32| recipe_count(m, j) + occurrences(p, j) <= u32::MAX by {
            lemma_occurrences_push(p, y, j);
        }
        lemma_activated_count(m, p, k);
        lemma_activated_count(m, p, y);
        lemma_occurrences_push(p, y, k);
        lemma_occurrences_push(p, y, y);
    }
}

/// Deactivating `ids` takes, from each recipe's count, its number of occurrences in `ids`
/// (stopping at zero), and keeps every remaining count positive.
pub proof fn lemma_deactivated_count(m: Map<u32, u32>, ids: Seq<u32>, k: u32)
    requires
        counts_positive(m),
    ensures
        recipe_count(deactivated(m, ids), k) == if recipe_count(m, k) >= occurrences(ids, k) {
            (recipe_count(m, k) - occurrences(ids, k)) as nat
        } else {
            0nat
        },
        counts_positive(deactivated(m, ids)),
    decreases ids.len(),
{
    if ids.len() > 0 {
        let p = ids.drop_last();
        let y = ids.last();
        assert(ids == p.push(y));
        lemma_deactivated_count(m, p, k);
        lemma_occurrences_push(p, y, k);
    }
}

/// Two positive-count maps with the same counts are equal.
pub proof fn lemma_counts_determine_map(a: Map<u32, u32>, b: Map<u32, u32>)
    requires
        counts_positive(a),
        counts_positive(b),
        forall|k: u32| recipe_count(a, k) == recipe_count(b, k),
    ensures
        a == b,
{
    assert forall|k: u32| a.contains_key(k) == b.contains_key(k) by {
        assert(recipe_count(a, k) == recipe_count(b, k));
    }
    assert forall|k: u32| a.contains_key(k) implies a[k] == b[k] by {
        assert(recipe_count(a, k) == recipe_count(b, k));
    }
    assert(a =~= b);
}

/// A buff that activates recipes and then leaves gives back the recipe state it found:
/// deactivating `ids` after activating them restores the counts.
pub proof fn law_recipe_activation_roundtrip(m: Map<u32, u32>, ids: Seq<u32>)
    requires
        counts_positive(m),
        forall|k: u32| recipe_count(m, k) + occurrences(ids, k) <= u32::MAX,
    ensures
        deactivated(activated(m, ids), ids) == m,
{
    let a = activated(m, ids);
    lemma_activated_count(m, ids, 0);
    assert forall|k: u32| recipe_count(deactivated(a, ids), k) == recipe_count(m, k) by {
        lemma_activated_count(m, ids, k);
        lemma_deactivated_count(a, ids, k);
    }
    lemma_deactivated_count(a, ids, 0);
    lemma_counts_determine_map(deactivated(a, ids), m);
}

/// Whether `x` occurs in `s`.
pub fn slice_contains(s: &[u32], x: u32) -> (r: bool)
    ensures
        r == s@.contains(x),
{
    let mut i: usize = 0;
    while i < s.len()
        invariant
            i <= s@.len(),
            forall|j: int| 0 <= j < i ==> s@[j] != x,
        decreases s.len() - i,
    {
        if s[i] == x {
            assert(s@[i as int] == x);
            return true;
        }
        i = i + 1;
    }
    false
}

/// The set of the values of `v`.
fn set_of(v: &Vec<u32>) -> (s: HashSet<u32>)
    ensures
        s@ == v@.to_set(),
{
    let mut s: HashSet<u32> = HashSet::new();
    let mut i: usize = 0;
    while i < v.len()
        invariant
            i <= v.len(),
            s@ == v@.subrange(0, i as int).to_set(),
        decreases v.len() - i,
    {
        s.insert(v[i]);
        assert(v@.subrange(0, i as int + 1) == v@.subrange(0, i as int).push(v@[i as int]));
        proof {
            v@.subrange(0, i as int).lemma_push_to_set_commute(v@[i as int]);
        }
        i = i + 1;
    }
    assert(v@.subrange(0, v.len() as int) == v@);
    s
}

} // verus!
