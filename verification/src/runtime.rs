//! The optimizer's run bookkeeping: the single run slot, the answers about it, the GA
//! sizes a request asks for, which tunables a run searches, and the names of its files.

use vstd::prelude::*;
use vstd::string::*;
use crate::fmt::{decimal_digits, padded_digits, push_decimal, push_padded, push_signed, signed_digits};
use crate::rules::strings_view;
use crate::strings::{chars_of, push_char, string_of};

verus! {

/// The run that holds the slot.
#[derive(Debug, Clone)]
pub struct ActiveRun {
    pub run_id: String,
    pub total_gens: usize,
}

/// Answer to a status query.
#[derive(Debug, Clone)]
pub struct StatusResponse {
    pub running: bool,
    pub run_id: Option<String>,
    pub total_gens: Option<usize>,
}

/// Answer to a started run.
#[derive(Debug, Clone)]
pub struct StartResponse {
    pub run_id: String,
    pub n_params: usize,
    pub pop_size: usize,
    pub generations: usize,
    pub enabled_ids: Vec<String>,
}

/// Query of one file of a run's archive.
#[derive(Debug, Clone)]
pub struct FileQuery {
    pub path: String,
}

/// The slot that at most one optimizer run holds at a time.
#[derive(Debug, Clone)]
pub struct RunSlot {
    pub current: Option<ActiveRun>,
}

/// The id of the run in a slot, if any.
pub open spec fn slot_run_id(s: Option<ActiveRun>) -> Option<Seq<char>> {
    match s {
        Some(r) => Some(r.run_id@),
        None => None,
    }
}

impl RunSlot {
    /// An empty slot.
    pub fn new() -> (r: RunSlot)
        ensures
            r.current is None,
    {
        RunSlot { current: None }
    }

    /// Whether a run holds the slot; a start request is refused while one does.
    pub fn is_busy(&self) -> (r: bool)
        ensures
            r == self.current is Some,
    {
        self.current.is_some()
    }

    /// Takes the slot for `run` when it is free; refused (and nothing changes) when it is
    /// held.
    pub fn claim(&mut self, run: ActiveRun) -> (ok: bool)
        ensures
            ok == old(self).current is None,
            ok ==> final(self).current == Some(run),
            !ok ==> final(self).current == old(self).current,
    {
        if self.current.is_some() {
            return false;
        }
        self.current = Some(run);
        true
    }

    /// A finished run gives the slot back, but only if it still holds it.
    pub fn release(&mut self, run_id: &str)
        ensures
            slot_run_id(old(self).current) == Some(run_id@) ==> final(self).current is None,
            slot_run_id(old(self).current) != Some(run_id@) ==> final(self).current == old(self).current,
    {
        let matches = match &self.current {
            Some(r) => crate::strings::str_eq(r.run_id.as_str(), run_id),
            None => false,
        };
        if matches {
            self.current = None;
        }
    }

    /// The status answer: the running run's id and generation count, or not running.
    pub fn status(&self) -> (r: StatusResponse)
        ensures
            r.running == self.current is Some,
            match self.current {
                Some(a) => r.run_id == Some(a.run_id) && r.total_gens == Some(a.total_gens),
                None => r.run_id is None && r.total_gens is None,
            },
    {
        match &self.current {
            Some(a) => StatusResponse { running: true, run_id: Some(a.run_id.clone()), total_gens: Some(a.total_gens) },
            None => StatusResponse { running: false, run_id: None, total_gens: None },
        }
    }

    /// The run a stop request reaches: the one holding the slot, if any.
    pub fn stop_target(&self) -> (r: Option<String>)
        ensures
            match r {
                Some(id) => slot_run_id(self.current) == Some(id@),
                None => self.current is None,
            },
    {
        match &self.current {
            Some(a) => Some(a.run_id.clone()),
            None => None,
        }
    }
}

/// The GA sizes of the request, as optional fields.
#[derive(Debug, Clone, Copy, PartialEq, Eq, Structural)]
pub struct GaParamsReq {
    pub pop_size: Option<usize>,
    pub generations: Option<usize>,
    pub top_n: Option<usize>,
    pub fitness_dps_mode: bool,
}

/// The integer part of the GA parameters.
#[derive(Debug, Clone, Copy, PartialEq, Eq, Structural)]
pub struct GaSizes {
    pub pop_size: usize,
    pub generations: usize,
    pub tournament_k: usize,
    pub top_n: usize,
    pub fitness_dps_mode: bool,
}

impl GaSizes {
    /// The defaults: population 50, 500 generations, tournaments of 5, top 10, DPS mode.
    pub fn default_sizes() -> (r: GaSizes)
        ensures
            r == (GaSizes { pop_size: 50, generations: 500, tournament_k: 5, top_n: 10, fitness_dps_mode: true }),
    {
        GaSizes { pop_size: 50, generations: 500, tournament_k: 5, top_n: 10, fitness_dps_mode: true }
    }

    /// The sizes after a request: each given size replaces the default, raised to at least
    /// 8 (population) or 1 (generations, top N); the mode is the request's.
    pub fn with_request(&self, req: &Option<GaParamsReq>) -> (r: GaSizes)
        ensures
            match *req {
                None => r == *self,
                Some(q) => r == (GaSizes {
                    pop_size: match q.pop_size { Some(v) => if v > 8 { v } else { 8 }, None => self.pop_size },
                    generations: match q.generations { Some(v) => if v > 1 { v } else { 1 }, None => self.generations },
                    top_n: match q.top_n { Some(v) => if v > 1 { v } else { 1 }, None => self.top_n },
                    fitness_dps_mode: q.fitness_dps_mode,
                    ..*self
                }),
            },
    {
        match req {
            None => *self,
            Some(q) => {
                let mut r = *self;
                if let Some(v) = q.pop_size {
                    r.pop_size = if v > 8 { v } else { 8 };
                }
                if let Some(v) = q.generations {
                    r.generations = if v > 1 { v } else { 1 };
                }
                if let Some(v) = q.top_n {
                    r.top_n = if v > 1 { v } else { 1 };
                }
                r.fitness_dps_mode = q.fitness_dps_mode;
                r
            },
        }
    }
}

/// The id and switch of a tunable override.
#[derive(Debug, Clone)]
pub struct OverrideKey {
    pub id: String,
    pub enabled: bool,
}

/// What a run does with one tunable.
#[derive(Debug, Clone, Copy, PartialEq, Eq, Structural)]
pub enum TunableChoice {
    /// Left out of the search.
    Dropped,
    /// Searched with its suggested range.
    Suggested,
    /// Searched with the range of override `i`.
    Override(usize),
}

/// The last override for `id` (later overrides replace earlier ones), or -1.
pub open spec fn last_override(ovs: Seq<OverrideKey>, id: Seq<char>) -> int
    decreases ovs.len(),
{
    if ovs.len() == 0 {
        -1
    } else if ovs.last().id@ == id {
        ovs.len() - 1
    } else {
        last_override(ovs.drop_last(), id)
    }
}

/// The choice for tunable `id`: suggested with no override, dropped when its last override
/// disables it, else that override's range.
pub open spec fn choice_spec(ovs: Seq<OverrideKey>, id: Seq<char>) -> TunableChoice {
    let k = last_override(ovs, id);
    if k < 0 {
        TunableChoice::Suggested
    } else if !ovs[k].enabled {
        TunableChoice::Dropped
    } else {
        TunableChoice::Override(k as usize)
    }
}

proof fn lemma_last_override_range(ovs: Seq<OverrideKey>, id: Seq<char>)
    ensures
        -1 <= last_override(ovs, id) < ovs.len(),
        last_override(ovs, id) >= 0 ==> ovs[last_override(ovs, id)].id@ == id,
    decreases ovs.len(),
{
    if ovs.len() > 0 {
        lemma_last_override_range(ovs.drop_last(), id);
    }
}

/// The choice for one tunable under the overrides.
pub fn tunable_choice(ovs: &Vec<OverrideKey>, id: &String) -> (r: TunableChoice)
    ensures
        r == choice_spec(ovs@, id@),
{
    let mut k: usize = ovs.len();
    assert(ovs@.take(ovs@.len() as int) == ovs@);
    while k > 0
        invariant
            k <= ovs@.len(),
            last_override(ovs@, id@) == last_override(ovs@.take(k as int), id@),
        decreases k,
    {
        assert(ovs@.take(k as int).drop_last() == ovs@.take(k as int - 1));
        if ovs[k - 1].id == *id {
            proof {
                lemma_last_override_range(ovs@, id@);
            }
            if ovs[k - 1].enabled {
                return TunableChoice::Override(k - 1);
            } else {
                return TunableChoice::Dropped;
            }
        }
        k = k - 1;
    }
    TunableChoice::Suggested
}

/// The tunables a run searches among the first `n` of `ids`: the position and choice of
/// each one that its overrides do not drop, in parameter order.
pub open spec fn enabled_upto(ovs: Seq<OverrideKey>, ids: Seq<Seq<char>>, n: int) -> Seq<(usize, TunableChoice)>
    decreases n,
{
    if n <= 0 {
        Seq::empty()
    } else {
        let prev = enabled_upto(ovs, ids, n - 1);
        let c = choice_spec(ovs, ids[n - 1]);
        if c != TunableChoice::Dropped { prev.push(((n - 1) as usize, c)) } else { prev }
    }
}

/// The tunables a run searches, in parameter order, each with the range it is searched
/// with; a start request whose list is empty is refused (no tunable enabled).
pub fn enabled_tunables(ovs: &Vec<OverrideKey>, ids: &Vec<String>) -> (r: Vec<(usize, TunableChoice)>)
    ensures
        r@ == enabled_upto(ovs@, strings_view(ids@), ids@.len() as int),
{
    let mut out: Vec<(usize, TunableChoice)> = Vec::new();
    let mut i: usize = 0;
    while i < ids.len()
        invariant
            i <= ids@.len(),
            out@ == enabled_upto(ovs@, strings_view(ids@), i as int),
        decreases ids.len() - i,
    {
        let c = tunable_choice(ovs, &ids[i]);
        assert(strings_view(ids@)[i as int] == ids@[i as int]@);
        if c != TunableChoice::Dropped {
            out.push((i, c));
        }
        i = i + 1;
    }
    out
}

/// The choices for every tunable, in order.
pub fn tunable_choices(ovs: &Vec<OverrideKey>, ids: &Vec<String>) -> (r: Vec<TunableChoice>)
    ensures
        r@.len() == ids@.len(),
        forall|i: int| 0 <= i < ids@.len() ==> #[trigger] r@[i] == choice_spec(ovs@, ids@[i]@),
{
    let mut out: Vec<TunableChoice> = Vec::new();
    let mut i: usize = 0;
    while i < ids.len()
        invariant
            i <= ids@.len(),
            out@.len() == i,
            forall|k: int| 0 <= k < i ==> #[trigger] out@[k] == choice_spec(ovs@, ids@[k]@),
        decreases ids.len() - i,
    {
        out.push(tunable_choice(ovs, &ids[i]));
        i = i + 1;
    }
    out
}

/// The id of a run started at `secs`: the phase prefix, `_`, and the seconds.
pub open spec fn run_id_spec(prefix: Seq<char>, secs: u64) -> Seq<char> {
    prefix + seq!['_'] + decimal_digits(secs as nat)
}

/// The id of a run of phase `prefix` started at Unix time `secs`.
pub fn new_run_id(prefix: &str, secs: u64) -> (r: String)
    ensures
        r@ == run_id_spec(prefix@, secs),
{
    let mut v = chars_of(prefix);
    v.push('_');
    push_decimal(&mut v, secs);
    string_of(&v)
}

/// The export stamp of a configuration written at Unix time `secs`: `t` and the seconds.
pub fn time_stamp(secs: u64) -> (r: String)
    ensures
        r@ == seq!['t'] + decimal_digits(secs as nat),
{
    let mut v: Vec<char> = Vec::new();
    v.push('t');
    push_decimal(&mut v, secs);
    string_of(&v)
}

pub(crate) fn push_str(v: &mut Vec<char>, s: &str)
    ensures
        final(v)@ == old(v)@ + s@,
{
    let cs = chars_of(s);
    let mut i: usize = 0;
    let ghost start = v@;
    while i < cs.len()
        invariant
            i <= cs@.len(),
            cs@ == s@,
            v@ == start + cs@.take(i as int),
        decreases cs.len() - i,
    {
        v.push(cs[i]);
        assert(cs@.take(i as int + 1) == cs@.take(i as int).push(cs@[i as int]));
        i = i + 1;
    }
    assert(cs@.take(cs@.len() as int) == cs@);
}

/// The archive path of generation `gen`'s milestone with rounded DPS `dps`:
/// `milestones/gen_{gen:04}_dps_{dps}.json`.
pub open spec fn milestone_path_spec(gen: u64, dps: i64) -> Seq<char> {
    "milestones/gen_"@ + padded_digits(gen as nat, 4) + "_dps_"@ + signed_digits(dps as int) + ".json"@
}

/// The archive path of the top entry of rank `rank` with rounded DPS `dps`:
/// `topN/rank_{rank:02}_dps_{dps}.json`.
pub open spec fn topn_path_spec(rank: u64, dps: i64) -> Seq<char> {
    "topN/rank_"@ + padded_digits(rank as nat, 2) + "_dps_"@ + signed_digits(dps as int) + ".json"@
}

/// The archive path of a milestone.
pub fn milestone_path(gen: u64, dps: i64) -> (r: String)
    ensures
        r@ == milestone_path_spec(gen, dps),
{
    let mut v: Vec<char> = Vec::new();
    push_str(&mut v, "milestones/gen_");
    push_padded(&mut v, gen, 4);
    push_str(&mut v, "_dps_");
    push_signed(&mut v, dps);
    push_str(&mut v, ".json");
    assert(v@ =~= milestone_path_spec(gen, dps));
    string_of(&v)
}

/// The archive path of a top entry.
pub fn topn_path(rank: u64, dps: i64) -> (r: String)
    ensures
        r@ == topn_path_spec(rank, dps),
{
    let mut v: Vec<char> = Vec::new();
    push_str(&mut v, "topN/rank_");
    push_padded(&mut v, rank, 2);
    push_str(&mut v, "_dps_");
    push_signed(&mut v, dps);
    push_str(&mut v, ".json");
    assert(v@ =~= topn_path_spec(rank, dps));
    string_of(&v)
}

/// `s[i..i+2]` is `..`.
pub open spec fn dots_at(s: Seq<char>, i: int) -> bool {
    0 <= i && i + 1 < s.len() && s[i] == '.' && s[i + 1] == '.'
}

/// `s` has `..` somewhere in it.
pub open spec fn has_parent_step(s: Seq<char>) -> bool {
    exists|i: int| #[trigger] dots_at(s, i)
}

/// A path inside a run's archive may be read: no `..`, and not absolute (`/` or `\`
/// first).
pub open spec fn archive_path_ok(rel: Seq<char>) -> bool {
    !has_parent_step(rel) && !(rel.len() > 0 && (rel[0] == '/' || rel[0] == '\\'))
}

/// Whether a path inside a run's archive may be read.
pub fn is_safe_archive_path(rel: &str) -> (r: bool)
    ensures
        r == archive_path_ok(rel@),
{
    let cs = chars_of(rel);
    if cs.len() > 0 && (cs[0] == '/' || cs[0] == '\\') {
        return false;
    }
    let mut i: usize = 0;
    while i < cs.len() && cs.len() - i > 1
        invariant
            cs@ == rel@,
            i <= cs@.len(),
            forall|k: int| 0 <= k < i ==> !#[trigger] dots_at(cs@, k),
        decreases cs.len() - i,
    {
        if cs[i] == '.' && cs[i + 1] == '.' {
            assert(dots_at(rel@, i as int));
            return false;
        }
        i = i + 1;
    }
    proof {
        if has_parent_step(rel@) {
            let w = choose|w: int| #[trigger] dots_at(rel@, w);
            assert(w < i);
        }
    }
    true
}

} // verus!
