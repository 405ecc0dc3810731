use jx3sim::ga_events::{run_event_order, GaEventKind};
use GaEventKind::{Baseline, Milestone, Progress, TopN};

#[test]
fn a_full_run_reports_every_generation() {
    let r = run_event_order(3, 5, true, &vec![false, false, false], &vec![true, false, true]);
    assert_eq!(r, vec![Baseline, Milestone(0), Progress(0), Milestone(1), Progress(1), Progress(2), Milestone(3), TopN(4)]);
}

#[test]
fn a_stop_ends_the_run_before_its_generation() {
    let r = run_event_order(3, 5, true, &vec![false, true, false], &vec![true, true, true]);
    assert_eq!(r, vec![Baseline, Milestone(0), Progress(0), Milestone(1), TopN(2)]);
    let r = run_event_order(3, 1, false, &vec![true, false, false], &vec![true, true, true]);
    assert_eq!(r, vec![Baseline, TopN(1)]);
}

#[test]
fn a_run_of_no_generations_reports_baseline_and_top_n() {
    assert_eq!(run_event_order(0, 10, false, &vec![], &vec![]), vec![Baseline, TopN(1)]);
}
