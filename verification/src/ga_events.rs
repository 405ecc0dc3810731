//! The order of the events a structure search run reports. The run's outside work (the
//! evaluations, the stop flag, the archive writes) is handed in as its outcomes.

use vstd::prelude::*;

verus! {

/// The kind of an event a run reports, with its generation or count.
#[derive(Debug, Clone, Copy, PartialEq, Eq, Structural)]
pub enum GaEventKind {
    /// The seed individual's damage.
    Baseline,
    /// A new best individual, written to the archive after the given generation
    /// (0: the starting population).
    Milestone(usize),
    /// The statistics of the given generation, before it is bred.
    Progress(usize),
    /// The final ranking, with at most the given number of entries.
    TopN(usize),
}

/// The generations a run completes: it stops before the first generation at which a stop
/// was requested, or after `generations`.
pub open spec fn gens_completed(generations: nat, stops: Seq<bool>) -> nat
    decreases generations,
{
    if generations == 0 {
        0
    } else {
        let k = gens_completed((generations - 1) as nat, stops);
        if k == generations - 1 && !stops[generations - 1] { generations } else { k }
    }
}

/// The events of the first `n` generations: each reports its progress, then a milestone
/// when it bred a better individual whose milestone was written.
pub open spec fn generation_events(milestones: Seq<bool>, n: nat) -> Seq<GaEventKind>
    decreases n,
{
    if n == 0 {
        Seq::empty()
    } else {
        let prev = generation_events(milestones, (n - 1) as nat).push(GaEventKind::Progress((n - 1) as usize));
        if milestones[n - 1] { prev.push(GaEventKind::Milestone(n as usize)) } else { prev }
    }
}

/// The events of a run: the baseline, the starting milestone when it was written, the
/// events of each completed generation, and the top-N list, capped at one more entry than
/// the completed generations.
pub open spec fn run_events(generations: nat, top_n: nat, first_milestone: bool, stops: Seq<bool>, milestones: Seq<bool>) -> Seq<GaEventKind> {
    let k = gens_completed(generations, stops);
    let cap = if top_n < k + 1 { top_n } else { k + 1 };
    seq![GaEventKind::Baseline]
        + (if first_milestone { seq![GaEventKind::Milestone(0)] } else { Seq::empty() })
        + generation_events(milestones, k)
        + seq![GaEventKind::TopN(cap as usize)]
}

proof fn lemma_gens_completed(generations: nat, stops: Seq<bool>)
    ensures
        gens_completed(generations, stops) <= generations,
        forall|j: int| 0 <= j < gens_completed(generations, stops) ==> !stops[j],
        gens_completed(generations, stops) < generations ==> stops[gens_completed(generations, stops) as int],
    decreases generations,
{
    if generations > 0 {
        lemma_gens_completed((generations - 1) as nat, stops);
    }
}

/// The events a run reports, in order. `stops[g]` says whether a stop was requested when
/// generation `g` was about to start, `milestones[g]` whether generation `g` bred a better
/// individual whose milestone was written, and `first_milestone` whether the starting
/// population's milestone was written.
pub fn run_event_order(
    generations: usize,
    top_n: usize,
    first_milestone: bool,
    stops: &Vec<bool>,
    milestones: &Vec<bool>,
) -> (r: Vec<GaEventKind>)
    requires
        stops@.len() >= generations,
        milestones@.len() >= generations,
        generations < usize::MAX,
    ensures
        r@ == run_events(generations as nat, top_n as nat, first_milestone, stops@, milestones@),
{
    let mut out: Vec<GaEventKind> = Vec::new();
    out.push(GaEventKind::Baseline);
    if first_milestone {
        out.push(GaEventKind::Milestone(0));
    }
    let ghost head = out@;
    let mut g: usize = 0;
    let mut done: usize = 0;
    while g < generations
        invariant
            g <= generations < usize::MAX,
            stops@.len() >= generations,
            milestones@.len() >= generations,
            done <= g,
            done as nat == gens_completed(g as nat, stops@),
            out@ == head + generation_events(milestones@, done as nat),
            done < g ==> done as nat == gens_completed(generations as nat, stops@),
        decreases generations - g,
    {
        proof {
            lemma_gens_completed(g as nat, stops@);
        }
        if done == g && !stops[g] {
            let ghost before = out@;
            out.push(GaEventKind::Progress(g));
            if milestones[g] {
                out.push(GaEventKind::Milestone(g + 1));
            }
            proof {
                assert(head + generation_events(milestones@, g as nat + 1)
                    =~= out@);
            }
            done = g + 1;
        } else {
            proof {
                assert(gens_completed(g as nat + 1, stops@) == done);
                lemma_gens_done(g as nat, generations as nat, stops@);
            }
        }
        g = g + 1;
    }
    let cap = if top_n < done + 1 { top_n } else { done + 1 };
    out.push(GaEventKind::TopN(cap));
    proof {
        assert(out@ =~= run_events(generations as nat, top_n as nat, first_milestone, stops@, milestones@));
    }
    out
}

proof fn lemma_gens_done(g: nat, generations: nat, stops: Seq<bool>)
    requires
        g <= generations,
        gens_completed(g + 1, stops) == gens_completed(g, stops),
        g + 1 <= generations,
    ensures
        gens_completed(generations, stops) == gens_completed(g, stops),
    decreases generations - g,
{
    if generations > g + 1 {
        lemma_gens_completed(g, stops);
        assert(gens_completed(g + 2, stops) == gens_completed(g + 1, stops));
        lemma_gens_done(g + 1, generations, stops);
    }
}

/// A run stops in time and reports in order: it completes at most `generations`
/// generations and none from the first requested stop on, it reports the baseline first
/// and the top-N list last, and the top-N list holds at most one more entry than the
/// generations it completed.
pub proof fn law_run_events(generations: nat, top_n: nat, first_milestone: bool, stops: Seq<bool>, milestones: Seq<bool>)
    ensures
        gens_completed(generations, stops) <= generations,
        forall|j: int| 0 <= j < generations && stops[j] ==> gens_completed(generations, stops) <= j,
        run_events(generations, top_n, first_milestone, stops, milestones)[0] == GaEventKind::Baseline,
        run_events(generations, top_n, first_milestone, stops, milestones).last() matches GaEventKind::TopN(c)
            && c <= gens_completed(generations, stops) + 1 && c <= top_n,
{
    lemma_gens_completed(generations, stops);
    let k = gens_completed(generations, stops);
    assert forall|j: int| 0 <= j < generations && stops[j] implies k <= j by {
        if j < k {
            assert(!stops[j]);
        }
    }
}

} // verus!
