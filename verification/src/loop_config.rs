//! The loop configuration shared with the front end: talents, macro pages and the
//! hand-written cast sequence.

use vstd::prelude::*;
use vstd::string::*;
use crate::strings::{push_char, str_eq};
use crate::text::{trim, trim_spec};

verus! {

/// Talent picks: one per tier 1..=7, plus the mixed picks.
#[derive(Debug, Clone, Default)]
pub struct LoopTalents {
    pub tier1: Option<u32>,
    pub tier2: Option<u32>,
    pub tier3: Option<u32>,
    pub tier4: Option<u32>,
    pub tier5: Option<u32>,
    pub tier6: Option<u32>,
    pub tier7: Option<u32>,
    pub mixed: Vec<u32>,
}

/// The picked ids of a list of optional picks, in order.
pub open spec fn picked(s: Seq<Option<u32>>) -> Seq<u32>
    decreases s.len(),
{
    if s.len() == 0 {
        Seq::empty()
    } else {
        match s.last() {
            Some(id) => picked(s.drop_last()).push(id),
            None => picked(s.drop_last()),
        }
    }
}

/// A pick as a list: its id, or nothing.
pub open spec fn pick_list(o: Option<u32>) -> Seq<u32> {
    match o {
        Some(id) => seq![id],
        None => Seq::empty(),
    }
}

/// A pick counted: 1 when set.
pub open spec fn pick_count(o: Option<u32>) -> nat {
    if o is Some { 1 } else { 0 }
}

proof fn lemma_picked_push(s: Seq<Option<u32>>, o: Option<u32>)
    ensures
        picked(s.push(o)) == picked(s) + pick_list(o),
{
    assert(s.push(o).drop_last() == s);
    assert(s.push(o).last() == o);
    match o {
        Some(id) => {
            assert(picked(s).push(id) =~= picked(s) + seq![id]);
        },
        None => {
            assert(picked(s) =~= picked(s) + Seq::<u32>::empty());
        },
    }
}

proof fn lemma_contains_left(a: Seq<u32>, b: Seq<u32>, x: u32)
    requires
        a.contains(x),
    ensures
        (a + b).contains(x),
{
    let k = choose|k: int| 0 <= k < a.len() && a[k] == x;
    assert((a + b)[k] == x);
}

proof fn lemma_contains_right(a: Seq<u32>, b: Seq<u32>, x: u32)
    requires
        b.contains(x),
    ensures
        (a + b).contains(x),
{
    let k = choose|k: int| 0 <= k < b.len() && b[k] == x;
    assert((a + b)[a.len() + k] == x);
}

proof fn lemma_flat_ids_eq(t: LoopTalents)
    ensures
        t.flat_ids_spec() == pick_list(t.tier1) + pick_list(t.tier2) + pick_list(t.tier3) + pick_list(t.tier4)
            + pick_list(t.tier5) + pick_list(t.tier6) + pick_list(t.tier7) + t.mixed@,
{
    let e = Seq::<Option<u32>>::empty();
    let s1 = e.push(t.tier1);
    let s2 = s1.push(t.tier2);
    let s3 = s2.push(t.tier3);
    let s4 = s3.push(t.tier4);
    let s5 = s4.push(t.tier5);
    let s6 = s5.push(t.tier6);
    let s7 = s6.push(t.tier7);
    assert(t.tiers() == s7);
    assert(picked(e) == Seq::<u32>::empty());
    lemma_picked_push(e, t.tier1);
    assert(Seq::<u32>::empty() + pick_list(t.tier1) == pick_list(t.tier1));
    lemma_picked_push(s1, t.tier2);
    lemma_picked_push(s2, t.tier3);
    lemma_picked_push(s3, t.tier4);
    lemma_picked_push(s4, t.tier5);
    lemma_picked_push(s5, t.tier6);
    lemma_picked_push(s6, t.tier7);
}

proof fn lemma_pick_in(o: Option<u32>, x: u32)
    requires
        o == Some(x),
    ensures
        pick_list(o).contains(x),
{
    assert(pick_list(o)[0] == x);
}

/// The talents a loop hands a player are its seven tier picks that are set, tier 1 first,
/// then its mixed picks: every set tier's id is there, and every mixed pick.
pub proof fn law_flat_ids(t: LoopTalents)
    ensures
        t.flat_ids_spec() == pick_list(t.tier1) + pick_list(t.tier2) + pick_list(t.tier3) + pick_list(t.tier4)
            + pick_list(t.tier5) + pick_list(t.tier6) + pick_list(t.tier7) + t.mixed@,
        t.flat_ids_spec().len() == pick_count(t.tier1) + pick_count(t.tier2) + pick_count(t.tier3)
            + pick_count(t.tier4) + pick_count(t.tier5) + pick_count(t.tier6) + pick_count(t.tier7) + t.mixed@.len(),
        t.tier1 matches Some(x) ==> t.flat_ids_spec().contains(x),
        t.tier2 matches Some(x) ==> t.flat_ids_spec().contains(x),
        t.tier3 matches Some(x) ==> t.flat_ids_spec().contains(x),
        t.tier4 matches Some(x) ==> t.flat_ids_spec().contains(x),
        t.tier5 matches Some(x) ==> t.flat_ids_spec().contains(x),
        t.tier6 matches Some(x) ==> t.flat_ids_spec().contains(x),
        t.tier7 matches Some(x) ==> t.flat_ids_spec().contains(x),
        forall|x: u32| #[trigger] t.mixed@.contains(x) ==> t.flat_ids_spec().contains(x),
{
    lemma_flat_ids_eq(t);
    let p1 = pick_list(t.tier1);
    let p2 = pick_list(t.tier2);
    let p3 = pick_list(t.tier3);
    let p4 = pick_list(t.tier4);
    let p5 = pick_list(t.tier5);
    let p6 = pick_list(t.tier6);
    let p7 = pick_list(t.tier7);
    let m = t.mixed@;
    let l2 = p1 + p2;
    let l3 = l2 + p3;
    let l4 = l3 + p4;
    let l5 = l4 + p5;
    let l6 = l5 + p6;
    let l7 = l6 + p7;
    let f = l7 + m;
    assert(t.flat_ids_spec() == f);
    if let Some(x) = t.tier1 {
        lemma_pick_in(t.tier1, x);
        lemma_contains_left(p1, p2, x); lemma_contains_left(l2, p3, x); lemma_contains_left(l3, p4, x);
        lemma_contains_left(l4, p5, x); lemma_contains_left(l5, p6, x); lemma_contains_left(l6, p7, x);
        lemma_contains_left(l7, m, x);
    }
    if let Some(x) = t.tier2 {
        lemma_pick_in(t.tier2, x);
        lemma_contains_right(p1, p2, x); lemma_contains_left(l2, p3, x); lemma_contains_left(l3, p4, x);
        lemma_contains_left(l4, p5, x); lemma_contains_left(l5, p6, x); lemma_contains_left(l6, p7, x);
        lemma_contains_left(l7, m, x);
    }
    if let Some(x) = t.tier3 {
        lemma_pick_in(t.tier3, x);
        lemma_contains_right(l2, p3, x); lemma_contains_left(l3, p4, x);
        lemma_contains_left(l4, p5, x); lemma_contains_left(l5, p6, x); lemma_contains_left(l6, p7, x);
        lemma_contains_left(l7, m, x);
    }
    if let Some(x) = t.tier4 {
        lemma_pick_in(t.tier4, x);
        lemma_contains_right(l3, p4, x);
        lemma_contains_left(l4, p5, x); lemma_contains_left(l5, p6, x); lemma_contains_left(l6, p7, x);
        lemma_contains_left(l7, m, x);
    }
    if let Some(x) = t.tier5 {
        lemma_pick_in(t.tier5, x);
        lemma_contains_right(l4, p5, x); lemma_contains_left(l5, p6, x); lemma_contains_left(l6, p7, x);
        lemma_contains_left(l7, m, x);
    }
    if let Some(x) = t.tier6 {
        lemma_pick_in(t.tier6, x);
        lemma_contains_right(l5, p6, x); lemma_contains_left(l6, p7, x);
        lemma_contains_left(l7, m, x);
    }
    if let Some(x) = t.tier7 {
        lemma_pick_in(t.tier7, x);
        lemma_contains_right(l6, p7, x);
        lemma_contains_left(l7, m, x);
    }
    assert forall|x: u32| #[trigger] t.mixed@.contains(x) implies f.contains(x) by {
        lemma_contains_right(l7, m, x);
    }
}

impl LoopTalents {
    /// The seven tier picks, tier 1 first.
    pub open spec fn tiers(&self) -> Seq<Option<u32>> {
        seq![self.tier1, self.tier2, self.tier3, self.tier4, self.tier5, self.tier6, self.tier7]
    }

    /// The ids a player gets: the tier picks that are set, in tier order, then the mixed picks.
    pub open spec fn flat_ids_spec(&self) -> Seq<u32> {
        picked(self.tiers()) + self.mixed@
    }

    /// Flattens the picks into the id list handed to a player.
    pub fn flat_ids(&self) -> (r: Vec<u32>)
        ensures
            r@ == self.flat_ids_spec(),
    {
        let tiers = [
            self.tier1, self.tier2, self.tier3, self.tier4, self.tier5, self.tier6, self.tier7,
        ];
        let ghost ts = self.tiers();
        assert(tiers@ == ts);
        let mut ids: Vec<u32> = Vec::new();
        let mut k: usize = 0;
        while k < 7
            invariant
                k <= 7,
                tiers@ == ts,
                ts.len() == 7,
                ids@ == picked(ts.take(k as int)),
            decreases 7 - k,
        {
            assert(ts.take(k as int + 1).drop_last() == ts.take(k as int));
            if let Some(id) = tiers[k] {
                ids.push(id);
            }
            k = k + 1;
        }
        assert(ts.take(7) == ts);
        let ghost head = ids@;
        let mut j: usize = 0;
        while j < self.mixed.len()
            invariant
                j <= self.mixed@.len(),
                ids@ == head + self.mixed@.take(j as int),
            decreases self.mixed.len() - j,
        {
            ids.push(self.mixed[j]);
            assert(self.mixed@.take(j as int + 1) == self.mixed@.take(j as int).push(self.mixed@[j as int]));
            j = j + 1;
        }
        assert(self.mixed@.take(self.mixed@.len() as int) == self.mixed@);
        ids
    }
}

/// The macro pages of a loop: one general page, or a shield page and a blade page.
#[derive(Debug, Clone)]
pub struct LoopMacro {
    /// `"general"` or `"stance"`.
    pub mode: String,
    pub general: String,
    pub shield: String,
    pub blade: String,
}

/// The mode a loop macro has when none is given.
pub fn default_macro_mode() -> (r: String)
    ensures
        r@ == "general"@,
{
    String::from_str("general")
}

/// A `#page` section: the header line, the body and a line break; nothing for an empty body.
pub open spec fn page_section(header: Seq<char>, body: Seq<char>) -> Seq<char> {
    if body.len() == 0 {
        Seq::empty()
    } else {
        header + body + "\n"@
    }
}

impl LoopMacro {
    /// The full macro text: the trimmed general page, or the shield and blade pages under
    /// `#page` headers, trimmed.
    pub open spec fn build_text_spec(&self) -> Seq<char> {
        if self.mode@ == "general"@ {
            trim_spec(self.general@)
        } else {
            trim_spec(page_section("#page shield\n"@, self.shield@) + page_section("#page blade\n"@, self.blade@))
        }
    }

    /// Builds the full macro text.
    pub fn build_text(&self) -> (r: String)
        ensures
            r@ == self.build_text_spec(),
    {
        if str_eq(self.mode.as_str(), "general") {
            proof {
                reveal_strlit("general");
            }
            return trim(self.general.as_str());
        }
        let mut s = String::new();
        if !self.shield.as_str().is_empty() {
            s.append("#page shield\n");
            s.append(self.shield.as_str());
            push_char(&mut s, '\n');
            proof {
                reveal_strlit("\n");
            }
        }
        assert(s@ == page_section("#page shield\n"@, self.shield@));
        let ghost first = s@;
        if !self.blade.as_str().is_empty() {
            s.append("#page blade\n");
            s.append(self.blade.as_str());
            push_char(&mut s, '\n');
            proof {
                reveal_strlit("\n");
            }
        }
        assert(s@ == first + page_section("#page blade\n"@, self.blade@));
        trim(s.as_str())
    }
}

/// One entry of the hand-written cast sequence; `count` repeats it (at least once).
#[derive(Debug, Clone)]
pub enum SequenceEntry {
    Skill {
        skill: String,
        count: Option<u32>,
        channel_ticks: Option<u32>,
        /// IEEE-754 bits of the timing offset in seconds.
        offset_bits: Option<u64>,
        qijin_buff: Option<u32>,
    },
    Macro { count: Option<u32> },
    WaitStance { count: Option<u32> },
    Break { count: Option<u32> },
}

/// How many times an optional repeat count runs an entry: one when unset, at least one.
pub open spec fn repeat_of(c: Option<u32>) -> nat {
    match c {
        Some(n) => if n >= 1 { n as nat } else { 1 },
        None => 1,
    }
}

impl SequenceEntry {
    /// The entry's repeat count, as written.
    pub open spec fn count_field(&self) -> Option<u32> {
        match *self {
            SequenceEntry::Skill { count, .. } => count,
            SequenceEntry::Macro { count } => count,
            SequenceEntry::WaitStance { count } => count,
            SequenceEntry::Break { count } => count,
        }
    }

    /// How many times the entry runs.
    pub open spec fn count_spec(&self) -> nat {
        repeat_of(self.count_field())
    }

    /// The same entry with its repeat count cleared.
    pub open spec fn without_count_spec(&self) -> SequenceEntry {
        match *self {
            SequenceEntry::Skill { skill, channel_ticks, offset_bits, qijin_buff, .. } =>
                SequenceEntry::Skill { skill, count: None, channel_ticks, offset_bits, qijin_buff },
            SequenceEntry::Macro { .. } => SequenceEntry::Macro { count: None },
            SequenceEntry::WaitStance { .. } => SequenceEntry::WaitStance { count: None },
            SequenceEntry::Break { .. } => SequenceEntry::Break { count: None },
        }
    }

    /// How many times the entry runs: its count, one when unset, never less than one.
    pub fn count(&self) -> (r: u32)
        ensures
            r as nat == self.count_spec(),
            r >= 1,
    {
        let c = match self {
            SequenceEntry::Skill { count, .. } => *count,
            SequenceEntry::Macro { count } => *count,
            SequenceEntry::WaitStance { count } => *count,
            SequenceEntry::Break { count } => *count,
        };
        match c {
            Some(n) => if n >= 1 { n } else { 1 },
            None => 1,
        }
    }

    /// The entry with its repeat count cleared.
    pub fn without_count(&self) -> (r: SequenceEntry)
        ensures
            r == self.without_count_spec(),
    {
        match self {
            SequenceEntry::Skill { skill, channel_ticks, offset_bits, qijin_buff, .. } =>
                SequenceEntry::Skill {
                    skill: skill.clone(),
                    count: None,
                    channel_ticks: *channel_ticks,
                    offset_bits: *offset_bits,
                    qijin_buff: *qijin_buff,
                },
            SequenceEntry::Macro { .. } => SequenceEntry::Macro { count: None },
            SequenceEntry::WaitStance { .. } => SequenceEntry::WaitStance { count: None },
            SequenceEntry::Break { .. } => SequenceEntry::Break { count: None },
        }
    }
}

/// `entries` with every entry written out `count` times, without its count.
pub open spec fn expand_spec(entries: Seq<SequenceEntry>) -> Seq<SequenceEntry>
    decreases entries.len(),
{
    if entries.len() == 0 {
        Seq::empty()
    } else {
        let e = entries.last();
        expand_spec(entries.drop_last()) + Seq::new(e.count_spec(), |i: int| e.without_count_spec())
    }
}

/// The total number of runs of `entries`.
pub open spec fn total_count(entries: Seq<SequenceEntry>) -> nat
    decreases entries.len(),
{
    if entries.len() == 0 {
        0
    } else {
        total_count(entries.drop_last()) + entries.last().count_spec()
    }
}

/// Writes out `count: N` as N separate entries.
pub fn expand_counts(entries: &Vec<SequenceEntry>) -> (r: Vec<SequenceEntry>)
    ensures
        r@ == expand_spec(entries@),
{
    let mut out: Vec<SequenceEntry> = Vec::new();
    let mut k: usize = 0;
    while k < entries.len()
        invariant
            k <= entries@.len(),
            out@ == expand_spec(entries@.take(k as int)),
        decreases entries.len() - k,
    {
        let e = &entries[k];
        let n = e.count();
        let ghost base = out@;
        let mut t: u32 = 0;
        while t < n
            invariant
                t <= n,
                n as nat == e.count_spec(),
                out@ == base + Seq::new(t as nat, |i: int| e.without_count_spec()),
            decreases n - t,
        {
            out.push(e.without_count());
            assert(Seq::new((t + 1) as nat, |i: int| e.without_count_spec())
                == Seq::new(t as nat, |i: int| e.without_count_spec()).push(e.without_count_spec()));
            t = t + 1;
        }
        assert(entries@.take(k as int + 1).drop_last() == entries@.take(k as int));
        assert(entries@.take(k as int + 1).last() == *e);
        k = k + 1;
    }
    assert(entries@.take(entries@.len() as int) == entries@);
    out
}

/// Expanding a sequence gives as many entries as its counts add up to, none of them
/// with a count.
pub proof fn law_expand_counts_length(entries: Seq<SequenceEntry>)
    ensures
        expand_spec(entries).len() == total_count(entries),
        forall|i: int| 0 <= i < expand_spec(entries).len()
            ==> (#[trigger] expand_spec(entries)[i]).count_field() is None,
    decreases entries.len(),
{
    if entries.len() > 0 {
        law_expand_counts_length(entries.drop_last());
        let e = entries.last();
        let head = expand_spec(entries.drop_last());
        let tail = Seq::new(e.count_spec(), |i: int| e.without_count_spec());
        assert forall|i: int| 0 <= i < expand_spec(entries).len()
            implies (#[trigger] expand_spec(entries)[i]).count_field() is None by {
            if i >= head.len() {
                assert(expand_spec(entries)[i] == tail[i - head.len()]);
            } else {
                assert(expand_spec(entries)[i] == head[i]);
            }
        }
    }
}

} // verus!
