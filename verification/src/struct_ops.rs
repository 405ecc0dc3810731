//! The structure search's operators on page orders. An order is a list of
//! `(rule id, enabled)` entries; locked rules keep their place and stay enabled.

use rand::rngs::ThreadRng;
use vstd::prelude::*;
use vstd::multiset::Multiset;
use crate::macro_text::RenderResult;
use crate::random::{chance, random_below, shuffle_entries};
use crate::rules::{strings_view, locked_in, rule_of, PageTag, PoolView, RulePool, RuleSource, RuleView, lemma_rule_of};

verus! {

/// Whether an entry's rule is locked.
pub open spec fn entry_locked(pool: PoolView, e: (String, bool)) -> bool {
    locked_in(pool.rules, e.0@)
}

/// `s` with the entries at `i` and `j` exchanged.
pub open spec fn swapped<T>(s: Seq<T>, i: int, j: int) -> Seq<T> {
    s.update(i, s[j]).update(j, s[i])
}

/// `after` is `before` with two distinct unlocked entries exchanged.
pub open spec fn is_unlocked_swap(pool: PoolView, before: Seq<(String, bool)>, after: Seq<(String, bool)>, i: int, j: int) -> bool {
    &&& 0 <= i < before.len()
    &&& 0 <= j < before.len()
    &&& i != j
    &&& !entry_locked(pool, before[i])
    &&& !entry_locked(pool, before[j])
    &&& after == swapped(before, i, j)
}

fn copy_entry(e: &(String, bool)) -> (r: (String, bool))
    ensures
        r == *e,
{
    (e.0.clone(), e.1)
}

/// Exchanges the entries at `i` and `j`.
fn swap_entries(order: &mut Vec<(String, bool)>, i: usize, j: usize)
    requires
        i < old(order)@.len(),
        j < old(order)@.len(),
    ensures
        final(order)@ == swapped(old(order)@, i as int, j as int),
{
    let a = copy_entry(&order[i]);
    let b = copy_entry(&order[j]);
    order.set(i, b);
    order.set(j, a);
}

/// Exchanges the entries at `i` and `j` when neither is locked, and says whether it did.
pub fn try_swap(order: &mut Vec<(String, bool)>, pool: &RulePool, i: usize, j: usize) -> (done: bool)
    requires
        i < old(order)@.len(),
        j < old(order)@.len(),
    ensures
        done == (!entry_locked(pool@, old(order)@[i as int]) && !entry_locked(pool@, old(order)@[j as int])),
        done ==> final(order)@ == swapped(old(order)@, i as int, j as int),
        !done ==> final(order)@ == old(order)@,
{
    if pool.is_locked(order[i].0.as_str()) || pool.is_locked(order[j].0.as_str()) {
        return false;
    }
    swap_entries(order, i, j);
    true
}

/// Whether a bubble try at `i` finds a neighbour pair `i, i + 1` with no locked rule.
pub open spec fn bubble_hit(pool: PoolView, s: Seq<(String, bool)>, i: int) -> bool {
    !entry_locked(pool, s[i]) && !entry_locked(pool, s[i + 1])
}

/// The order after bubble tries at the positions `picks`, in turn: the first try that hits
/// exchanges its pair and ends the mutation; when none hits the order is unchanged.
pub open spec fn bubble_outcome(pool: PoolView, s: Seq<(String, bool)>, picks: Seq<int>) -> Seq<(String, bool)>
    decreases picks.len(),
{
    if picks.len() == 0 {
        s
    } else if bubble_hit(pool, s, picks[0]) {
        swapped(s, picks[0], picks[0] + 1)
    } else {
        bubble_outcome(pool, s, picks.drop_first())
    }
}

/// `after` is what a bubble mutation of `before` can give: `before` itself when it has
/// fewer than two entries; otherwise the outcome of `len` tries, each at a position below
/// `len - 1`.
pub open spec fn bubble_result(pool: PoolView, before: Seq<(String, bool)>, after: Seq<(String, bool)>) -> bool {
    if before.len() < 2 {
        after == before
    } else {
        exists|picks: Seq<int>|
            picks.len() == before.len()
            && (forall|k: int| 0 <= k < picks.len() ==> 0 <= #[trigger] picks[k] < before.len() - 1)
            && #[trigger] bubble_outcome(pool, before, picks) == after
    }
}

proof fn lemma_bubble_misses(pool: PoolView, s: Seq<(String, bool)>, tried: Seq<int>, rest: Seq<int>)
    requires
        forall|k: int| 0 <= k < tried.len() ==> !bubble_hit(pool, s, #[trigger] tried[k]),
    ensures
        bubble_outcome(pool, s, tried + rest) == bubble_outcome(pool, s, rest),
    decreases tried.len(),
{
    if tried.len() > 0 {
        assert((tried + rest).drop_first() == tried.drop_first() + rest);
        assert(!bubble_hit(pool, s, tried[0]));
        assert((tried + rest)[0] == tried[0]);
        lemma_bubble_misses(pool, s, tried.drop_first(), rest);
    } else {
        assert(tried + rest == rest);
    }
}

/// Whether a swap try at positions `(i, j)` finds two distinct positions with no locked rule.
pub open spec fn swap_hit(pool: PoolView, s: Seq<(String, bool)>, ij: (int, int)) -> bool {
    ij.0 != ij.1 && !entry_locked(pool, s[ij.0]) && !entry_locked(pool, s[ij.1])
}

/// The order after swap tries at the position pairs `picks`, in turn: the first try that
/// hits exchanges its pair and ends the mutation; when none hits the order is unchanged.
pub open spec fn swap_outcome(pool: PoolView, s: Seq<(String, bool)>, picks: Seq<(int, int)>) -> Seq<(String, bool)>
    decreases picks.len(),
{
    if picks.len() == 0 {
        s
    } else if swap_hit(pool, s, picks[0]) {
        swapped(s, picks[0].0, picks[0].1)
    } else {
        swap_outcome(pool, s, picks.drop_first())
    }
}

/// `after` is what a swap mutation of `before` can give: `before` itself when it has fewer
/// than two entries; otherwise the outcome of `2 * len` tries, each at a pair of positions
/// below `len`.
pub open spec fn swap_result(pool: PoolView, before: Seq<(String, bool)>, after: Seq<(String, bool)>) -> bool {
    if before.len() < 2 {
        after == before
    } else {
        exists|picks: Seq<(int, int)>|
            picks.len() == 2 * before.len()
            && (forall|k: int| 0 <= k < picks.len() ==> 0 <= (#[trigger] picks[k]).0 < before.len() && 0 <= picks[k].1 < before.len())
            && #[trigger] swap_outcome(pool, before, picks) == after
    }
}

proof fn lemma_swap_misses(pool: PoolView, s: Seq<(String, bool)>, tried: Seq<(int, int)>, rest: Seq<(int, int)>)
    requires
        forall|k: int| 0 <= k < tried.len() ==> !swap_hit(pool, s, #[trigger] tried[k]),
    ensures
        swap_outcome(pool, s, tried + rest) == swap_outcome(pool, s, rest),
    decreases tried.len(),
{
    if tried.len() > 0 {
        assert((tried + rest).drop_first() == tried.drop_first() + rest);
        assert(!swap_hit(pool, s, tried[0]));
        assert((tried + rest)[0] == tried[0]);
        lemma_swap_misses(pool, s, tried.drop_first(), rest);
    } else {
        assert(tried + rest == rest);
    }
}

/// The order after toggle tries at the positions `picks`, in turn: the first try at an
/// unlocked entry flips its enabled flag and ends the mutation; when none does the order is
/// unchanged.
pub open spec fn toggle_outcome(pool: PoolView, s: Seq<(String, bool)>, picks: Seq<int>) -> Seq<(String, bool)>
    decreases picks.len(),
{
    if picks.len() == 0 {
        s
    } else if !entry_locked(pool, s[picks[0]]) {
        s.update(picks[0], (s[picks[0]].0, !s[picks[0]].1))
    } else {
        toggle_outcome(pool, s, picks.drop_first())
    }
}

/// `after` is what a toggle mutation of `before` can give: the outcome of `len` tries, each
/// at a position below `len` (so `before` itself when it is empty).
pub open spec fn toggle_result(pool: PoolView, before: Seq<(String, bool)>, after: Seq<(String, bool)>) -> bool {
    exists|picks: Seq<int>|
        picks.len() == before.len()
        && (forall|k: int| 0 <= k < picks.len() ==> 0 <= #[trigger] picks[k] < before.len())
        && #[trigger] toggle_outcome(pool, before, picks) == after
}

proof fn lemma_toggle_misses(pool: PoolView, s: Seq<(String, bool)>, tried: Seq<int>, rest: Seq<int>)
    requires
        forall|k: int| 0 <= k < tried.len() ==> entry_locked(pool, s[#[trigger] tried[k]]),
    ensures
        toggle_outcome(pool, s, tried + rest) == toggle_outcome(pool, s, rest),
    decreases tried.len(),
{
    if tried.len() > 0 {
        assert((tried + rest).drop_first() == tried.drop_first() + rest);
        assert(entry_locked(pool, s[tried[0]]));
        assert((tried + rest)[0] == tried[0]);
        lemma_toggle_misses(pool, s, tried.drop_first(), rest);
    } else {
        assert(tried + rest == rest);
    }
}

/// Bubble mutation: up to `len` tries at a random neighbour pair; the first pair with no
/// locked rule is exchanged. Orders of fewer than two entries are left alone.
pub fn bubble_swap(order: &mut Vec<(String, bool)>, pool: &RulePool, rng: &mut ThreadRng)
    ensures
        bubble_result(pool@, old(order)@, final(order)@),
        final(order)@ == old(order)@
            || exists|i: int| #[trigger] is_unlocked_swap(pool@, old(order)@, final(order)@, i, i + 1),
{
    let n = order.len();
    if n < 2 {
        return;
    }
    let ghost start = order@;
    let ghost mut tried: Seq<int> = Seq::empty();
    let mut t: usize = 0;
    while t < n
        invariant
            t <= n,
            n == start.len(),
            n >= 2,
            start == old(order)@,
            order@ == start,
            tried.len() == t,
            forall|k: int| 0 <= k < tried.len() ==> 0 <= #[trigger] tried[k] < n - 1,
            forall|k: int| 0 <= k < tried.len() ==> !bubble_hit(pool@, start, #[trigger] tried[k]),
        decreases n - t,
    {
        let i = random_below(rng, n - 1);
        if try_swap(order, pool, i, i + 1) {
            assert(is_unlocked_swap(pool@, start, order@, i as int, i + 1));
            proof {
                let rest: Seq<int> = seq![i as int] + Seq::new((n - t - 1) as nat, |k: int| 0int);
                let picks = tried + rest;
                lemma_bubble_misses(pool@, start, tried, rest);
                assert(rest[0] == i as int);
                assert(bubble_hit(pool@, start, i as int));
                assert(bubble_outcome(pool@, start, rest) == swapped(start, i as int, i as int + 1));
                assert forall|k: int| 0 <= k < picks.len() implies 0 <= #[trigger] picks[k] < n - 1 by {
                    if k < tried.len() {
                        assert(picks[k] == tried[k]);
                    } else {
                        assert(picks[k] == rest[k - tried.len()]);
                    }
                }
                assert(bubble_outcome(pool@, start, picks) == order@);
            }
            return;
        }
        proof {
            tried = tried.push(i as int);
        }
        t = t + 1;
    }
    proof {
        lemma_bubble_misses(pool@, start, tried, Seq::empty());
        assert(tried + Seq::<int>::empty() == tried);
        assert(bubble_outcome(pool@, start, tried) == order@);
    }
}

/// Swap mutation: up to `2 * len` tries at a random pair of distinct positions; the first
/// pair with no locked rule is exchanged. Orders of fewer than two entries are left alone.
pub fn random_swap(order: &mut Vec<(String, bool)>, pool: &RulePool, rng: &mut ThreadRng)
    requires
        old(order)@.len() <= usize::MAX / 2,
    ensures
        swap_result(pool@, old(order)@, final(order)@),
        final(order)@ == old(order)@
            || exists|i: int, j: int| #[trigger] is_unlocked_swap(pool@, old(order)@, final(order)@, i, j),
{
    let n = order.len();
    if n < 2 {
        return;
    }
    let ghost start = order@;
    let ghost mut tried: Seq<(int, int)> = Seq::empty();
    let tries = n * 2;
    let mut t: usize = 0;
    while t < tries
        invariant
            t <= tries,
            tries == 2 * n,
            n == start.len(),
            n >= 2,
            start == old(order)@,
            order@ == start,
            tried.len() == t,
            forall|k: int| 0 <= k < tried.len() ==> 0 <= (#[trigger] tried[k]).0 < n && 0 <= tried[k].1 < n,
            forall|k: int| 0 <= k < tried.len() ==> !swap_hit(pool@, start, #[trigger] tried[k]),
        decreases tries - t,
    {
        let i = random_below(rng, n);
        let j = random_below(rng, n);
        if i != j {
            if try_swap(order, pool, i, j) {
                assert(is_unlocked_swap(pool@, start, order@, i as int, j as int));
                proof {
                    let rest: Seq<(int, int)> = seq![(i as int, j as int)] + Seq::new((tries - t - 1) as nat, |k: int| (0int, 0int));
                    let picks = tried + rest;
                    lemma_swap_misses(pool@, start, tried, rest);
                    assert(rest[0] == (i as int, j as int));
                    assert(swap_hit(pool@, start, (i as int, j as int)));
                    assert(swap_outcome(pool@, start, rest) == swapped(start, i as int, j as int));
                    assert forall|k: int| 0 <= k < picks.len() implies 0 <= (#[trigger] picks[k]).0 < n && 0 <= picks[k].1 < n by {
                        if k < tried.len() {
                            assert(picks[k] == tried[k]);
                        } else {
                            assert(picks[k] == rest[k - tried.len()]);
                        }
                    }
                    assert(swap_outcome(pool@, start, picks) == order@);
                }
                return;
            }
        }
        proof {
            assert(!swap_hit(pool@, start, (i as int, j as int)));
            tried = tried.push((i as int, j as int));
        }
        t = t + 1;
    }
    proof {
        lemma_swap_misses(pool@, start, tried, Seq::empty());
        assert(tried + Seq::<(int, int)>::empty() == tried);
        assert(swap_outcome(pool@, start, tried) == order@);
    }
}

/// `after` is `before` with the enabled flag of one unlocked entry flipped.
pub open spec fn is_unlocked_toggle(pool: PoolView, before: Seq<(String, bool)>, after: Seq<(String, bool)>, i: int) -> bool {
    &&& 0 <= i < before.len()
    &&& !entry_locked(pool, before[i])
    &&& after == before.update(i, (before[i].0, !before[i].1))
}

/// Toggle mutation: up to `len` tries at a random position; the first unlocked entry has
/// its enabled flag flipped.
pub fn toggle_enabled(order: &mut Vec<(String, bool)>, pool: &RulePool, rng: &mut ThreadRng)
    ensures
        toggle_result(pool@, old(order)@, final(order)@),
        final(order)@ == old(order)@
            || exists|i: int| #[trigger] is_unlocked_toggle(pool@, old(order)@, final(order)@, i),
{
    let n = order.len();
    if n == 0 {
        proof {
            assert(toggle_outcome(pool@, order@, Seq::<int>::empty()) == order@);
        }
        return;
    }
    let ghost start = order@;
    let ghost mut tried: Seq<int> = Seq::empty();
    let mut t: usize = 0;
    while t < n
        invariant
            t <= n,
            n == start.len(),
            n >= 1,
            start == old(order)@,
            order@ == start,
            tried.len() == t,
            forall|k: int| 0 <= k < tried.len() ==> 0 <= #[trigger] tried[k] < n,
            forall|k: int| 0 <= k < tried.len() ==> entry_locked(pool@, start[#[trigger] tried[k]]),
        decreases n - t,
    {
        let i = random_below(rng, n);
        if !pool.is_locked(order[i].0.as_str()) {
            let flipped = (order[i].0.clone(), !order[i].1);
            order.set(i, flipped);
            assert(is_unlocked_toggle(pool@, start, order@, i as int));
            proof {
                let rest: Seq<int> = seq![i as int] + Seq::new((n - t - 1) as nat, |k: int| 0int);
                let picks = tried + rest;
                lemma_toggle_misses(pool@, start, tried, rest);
                assert(rest[0] == i as int);
                assert(toggle_outcome(pool@, start, rest) == order@);
                assert forall|k: int| 0 <= k < picks.len() implies 0 <= #[trigger] picks[k] < n by {
                    if k < tried.len() {
                        assert(picks[k] == tried[k]);
                    } else {
                        assert(picks[k] == rest[k - tried.len()]);
                    }
                }
                assert(toggle_outcome(pool@, start, picks) == order@);
            }
            return;
        }
        proof {
            tried = tried.push(i as int);
        }
        t = t + 1;
    }
    proof {
        lemma_toggle_misses(pool@, start, tried, Seq::empty());
        assert(tried + Seq::<int>::empty() == tried);
        assert(toggle_outcome(pool@, start, tried) == order@);
    }
}

/// The positions of `s[..n]` whose rules are not locked, in increasing order.
pub open spec fn movable_positions_upto(s: Seq<(String, bool)>, pool: PoolView, n: int) -> Seq<int>
    decreases n,
{
    if n <= 0 {
        Seq::empty()
    } else {
        let p = movable_positions_upto(s, pool, n - 1);
        if !entry_locked(pool, s[n - 1]) { p.push(n - 1) } else { p }
    }
}

/// The positions of `s` whose rules are not locked, in increasing order.
pub open spec fn movable_positions(s: Seq<(String, bool)>, pool: PoolView) -> Seq<int> {
    movable_positions_upto(s, pool, s.len() as int)
}

/// The entries of `s` at the positions `p`, in that order.
pub open spec fn entries_at(s: Seq<(String, bool)>, p: Seq<int>) -> Seq<(String, bool)> {
    Seq::new(p.len(), |j: int| s[p[j]])
}

proof fn lemma_movable_positions(s: Seq<(String, bool)>, pool: PoolView, n: int)
    requires
        0 <= n <= s.len(),
    ensures
        ({
            let p = movable_positions_upto(s, pool, n);
            &&& p.len() <= n
            &&& forall|a: int| 0 <= a < p.len() ==> 0 <= #[trigger] p[a] < n && !entry_locked(pool, s[p[a]])
            &&& forall|a: int, b: int| 0 <= a < b < p.len() ==> p[a] < p[b]
        }),
    decreases n,
{
    if n > 0 {
        lemma_movable_positions(s, pool, n - 1);
    }
}

proof fn lemma_empty_multiset<A>(s: Seq<A>)
    requires
        s.len() == 0,
    ensures
        s.to_multiset() == Multiset::<A>::empty(),
{
    vstd::seq_lib::to_multiset_len(s);
    vstd::multiset::lemma_multiset_empty_len(s.to_multiset());
}

/// Shuffles an order but keeps every locked rule at its position: the unlocked entries are
/// put back into the unlocked positions in a random order.
pub fn shuffle_respecting_locks(order: &mut Vec<(String, bool)>, pool: &RulePool, rng: &mut ThreadRng)
    ensures
        final(order)@.len() == old(order)@.len(),
        forall|i: int| 0 <= i < old(order)@.len() && entry_locked(pool@, #[trigger] old(order)@[i])
            ==> final(order)@[i] == old(order)@[i],
        entries_at(final(order)@, movable_positions(old(order)@, pool@)).to_multiset()
            == entries_at(old(order)@, movable_positions(old(order)@, pool@)).to_multiset(),
        final(order)@.to_multiset() == old(order)@.to_multiset(),
{
    let ghost start = order@;
    let n = order.len();
    let mut positions: Vec<usize> = Vec::new();
    let mut movable: Vec<(String, bool)> = Vec::new();
    let mut i: usize = 0;
    while i < n
        invariant
            i <= n,
            n == start.len(),
            order@ == start,
            positions@.len() == movable@.len(),
            forall|a: int| 0 <= a < positions@.len() ==> (#[trigger] positions@[a]) as int == movable_positions_upto(start, pool@, i as int)[a],
            positions@.len() == movable_positions_upto(start, pool@, i as int).len(),
            movable@ == entries_at(start, movable_positions_upto(start, pool@, i as int)),
        decreases n - i,
    {
        if !pool.is_locked(order[i].0.as_str()) {
            positions.push(i);
            movable.push(copy_entry(&order[i]));
            assert(movable@ =~= entries_at(start, movable_positions_upto(start, pool@, i as int + 1)));
        } else {
            assert(movable@ =~= entries_at(start, movable_positions_upto(start, pool@, i as int + 1)));
        }
        i = i + 1;
    }
    let ghost pos = movable_positions(start, pool@);
    proof {
        lemma_movable_positions(start, pool@, n as int);
    }
    let ghost before = movable@;
    shuffle_entries(&mut movable, rng);
    let m = positions.len();
    let mut j: usize = 0;
    proof {
        broadcast use vstd::multiset::group_multiset_axioms;
        lemma_empty_multiset(entries_at(start, pos.take(0)));
        lemma_empty_multiset(movable@.take(0));
        assert(order@.to_multiset().add(entries_at(start, pos.take(0)).to_multiset())
            =~= start.to_multiset().add(movable@.take(0).to_multiset()));
    }
    while j < m
        invariant
            j <= m,
            m == positions@.len(),
            m == pos.len(),
            movable@.len() == m,
            n == start.len(),
            order@.len() == n,
            forall|a: int| 0 <= a < m ==> (#[trigger] positions@[a]) as int == pos[a],
            forall|a: int| 0 <= a < pos.len() ==> 0 <= #[trigger] pos[a] < n && !entry_locked(pool@, start[pos[a]]),
            forall|a: int, b: int| 0 <= a < b < pos.len() ==> pos[a] < pos[b],
            forall|a: int| 0 <= a < j ==> order@[#[trigger] pos[a]] == movable@[a],
            forall|k: int| 0 <= k < n && entry_locked(pool@, #[trigger] start[k]) ==> order@[k] == start[k],
            forall|k: int| 0 <= k < n && (forall|a: int| 0 <= a < j ==> pos[a] != k) ==> #[trigger] order@[k] == start[k],
            order@.to_multiset().add(entries_at(start, pos.take(j as int)).to_multiset())
                == start.to_multiset().add(movable@.take(j as int).to_multiset()),
        decreases m - j,
    {
        let p = positions[j];
        let e = copy_entry(&movable[j]);
        let ghost prev = order@;
        proof {
            assert forall|a: int| 0 <= a < j implies pos[a] != pos[j as int] by {
                assert(pos[a] < pos[j as int]);
            }
            assert(prev[p as int] == start[p as int]);
        }
        order.set(p, e);
        proof {
            broadcast use vstd::seq_lib::to_multiset_update, vstd::seq_lib::to_multiset_build,
                vstd::seq_lib::to_multiset_contains, vstd::multiset::group_multiset_axioms;
            assert(order@ == prev.update(p as int, movable@[j as int]));
            assert(entries_at(start, pos.take(j as int + 1)) =~= entries_at(start, pos.take(j as int)).push(start[pos[j as int]]));
            assert(movable@.take(j as int + 1) =~= movable@.take(j as int).push(movable@[j as int]));
            let x = prev[p as int];
            let y = movable@[j as int];
            let a0 = entries_at(start, pos.take(j as int));
            let m0 = movable@.take(j as int);
            assert(prev.contains(x));
            assert(prev.to_multiset().count(x) > 0);
            assert(order@.to_multiset() == prev.to_multiset().insert(y).remove(x));
            assert(entries_at(start, pos.take(j as int + 1)).to_multiset() == a0.to_multiset().insert(x));
            assert(movable@.take(j as int + 1).to_multiset() == m0.to_multiset().insert(y));
            assert forall|z| #![trigger order@.to_multiset().count(z)]
                order@.to_multiset().add(a0.to_multiset().insert(x)).count(z)
                    == start.to_multiset().add(m0.to_multiset().insert(y)).count(z) by {
                assert(prev.to_multiset().add(a0.to_multiset()).count(z) == start.to_multiset().add(m0.to_multiset()).count(z));
            }
            assert(order@.to_multiset().add(entries_at(start, pos.take(j as int + 1)).to_multiset())
                =~= start.to_multiset().add(movable@.take(j as int + 1).to_multiset()));
            assert forall|k: int| 0 <= k < n && (forall|a: int| 0 <= a < j + 1 ==> pos[a] != k) implies #[trigger] order@[k] == start[k] by {
                assert(pos[j as int] != k);
                assert(prev[k] == start[k]);
            }
            assert forall|a: int| 0 <= a < j + 1 implies order@[#[trigger] pos[a]] == movable@[a] by {
                if a < j {
                    assert(pos[a] < pos[j as int]);
                }
            }
        }
        j = j + 1;
    }
    assert(entries_at(order@, pos) =~= movable@);
    assert(entries_at(start, pos) == before);
    proof {
        broadcast use vstd::multiset::group_multiset_axioms;
        assert(pos.take(m as int) == pos);
        assert(movable@.take(m as int) == movable@);
        assert(movable@.to_multiset() == before.to_multiset());
        assert forall|z| #![trigger order@.to_multiset().count(z)]
            order@.to_multiset().count(z) == start.to_multiset().count(z) by {
            assert(order@.to_multiset().add(before.to_multiset()).count(z) == start.to_multiset().add(before.to_multiset()).count(z));
        }
        assert(order@.to_multiset() =~= start.to_multiset());
    }
}

/// The starting order of a page: its default order, each rule enabled when the pool
/// enables it by default.
pub open spec fn seed_order_spec(order: Seq<Seq<char>>, enabled: Seq<Seq<char>>) -> Seq<(Seq<char>, bool)> {
    Seq::new(order.len(), |i: int| (order[i], enabled.contains(order[i])))
}

/// The contents of an order.
pub open spec fn order_view(o: Seq<(String, bool)>) -> Seq<(Seq<char>, bool)> {
    o.map_values(|e: (String, bool)| (e.0@, e.1))
}

pub(crate) fn contains_str(v: &Vec<String>, s: &String) -> (r: bool)
    ensures
        r == strings_view(v@).contains(s@),
{
    let mut k: usize = 0;
    while k < v.len()
        invariant
            k <= v@.len(),
            forall|a: int| 0 <= a < k ==> (#[trigger] v@[a])@ != s@,
        decreases v.len() - k,
    {
        if v[k] == *s {
            assert(strings_view(v@)[k as int] == s@);
            return true;
        }
        k = k + 1;
    }
    proof {
        if strings_view(v@).contains(s@) {
            let w = choose|w: int| 0 <= w < strings_view(v@).len() && #[trigger] strings_view(v@)[w] == s@;
            assert(v@[w]@ == s@);
        }
    }
    false
}

/// The starting order of a page from its default order and default enabled set.
pub fn seed_order(order: &Vec<String>, enabled: &Vec<String>) -> (r: Vec<(String, bool)>)
    ensures
        order_view(r@) == seed_order_spec(strings_view(order@), strings_view(enabled@)),
{
    let mut out: Vec<(String, bool)> = Vec::new();
    let mut i: usize = 0;
    while i < order.len()
        invariant
            i <= order@.len(),
            order_view(out@) == seed_order_spec(strings_view(order@), strings_view(enabled@)).take(i as int),
        decreases order.len() - i,
    {
        let en = contains_str(enabled, &order[i]);
        let ghost prev = out@;
        out.push((order[i].clone(), en));
        assert(order_view(out@) =~= order_view(prev).push((order@[i as int]@, en)));
        assert(strings_view(order@)[i as int] == order@[i as int]@);
        assert(order_view(out@) =~= seed_order_spec(strings_view(order@), strings_view(enabled@)).take(i as int + 1));
        i = i + 1;
    }
    assert(seed_order_spec(strings_view(order@), strings_view(enabled@)).take(order@.len() as int)
        =~= seed_order_spec(strings_view(order@), strings_view(enabled@)));
    out
}

/// The odds `(numerator, denominator)` with which a half-random individual enables a rule:
/// a locked rule always, an original rule 9 in 10, a candidate rule 2 in 10.
pub open spec fn enable_odds_spec(source: RuleSource, locked: bool) -> (u32, u32) {
    if locked {
        (1, 1)
    } else {
        match source {
            RuleSource::Original => (9, 10),
            RuleSource::Candidate => (2, 10),
        }
    }
}

/// The odds with which a half-random individual enables a rule (see `enable_odds_spec`).
pub fn rule_enable_odds(source: RuleSource, locked: bool) -> (r: (u32, u32))
    ensures
        r == enable_odds_spec(source, locked),
{
    if locked {
        (1, 1)
    } else {
        match source {
            RuleSource::Original => (9, 10),
            RuleSource::Candidate => (2, 10),
        }
    }
}

/// The odds with which a fully random individual enables a rule: a locked rule always,
/// any other rule 1 in 2.
pub fn full_enable_odds(locked: bool) -> (r: (u32, u32))
    ensures
        r == (if locked { (1u32, 1u32) } else { (1u32, 2u32) }),
{
    if locked { (1, 1) } else { (1, 2) }
}

/// The steps of a mutation, each made with its own odds.
#[derive(Debug, Clone, Copy, PartialEq, Eq, Structural)]
pub enum MutationStep {
    BubbleSwap,
    RandomSwap,
    Toggle,
    CrossPage,
}

/// The odds `(numerator, denominator)` with which a mutation makes a step on a page:
/// bubble swap 20 in 100, random swap 25 in 100, toggle 15 in 100, cross-page move 5 in
/// 100 (once for both pages).
pub open spec fn mutation_odds_spec(step: MutationStep) -> (u32, u32) {
    match step {
        MutationStep::BubbleSwap => (20, 100),
        MutationStep::RandomSwap => (25, 100),
        MutationStep::Toggle => (15, 100),
        MutationStep::CrossPage => (5, 100),
    }
}

/// The odds with which a mutation makes a step (see `mutation_odds_spec`).
pub fn mutation_odds(step: MutationStep) -> (r: (u32, u32))
    ensures
        r == mutation_odds_spec(step),
{
    match step {
        MutationStep::BubbleSwap => (20, 100),
        MutationStep::RandomSwap => (25, 100),
        MutationStep::Toggle => (15, 100),
        MutationStep::CrossPage => (5, 100),
    }
}

/// Draws whether a mutation makes `step`, with that step's odds.
fn mutation_draw(step: MutationStep, rng: &mut ThreadRng) -> bool {
    let (num, den) = mutation_odds(step);
    chance(rng, num, den)
}

/// Random enabling of a half-random individual: an entry whose rule is unknown is left
/// alone, a locked rule is enabled, an original rule is enabled with probability 9/10 and a
/// candidate rule with 2/10.
pub fn half_random_enables(order: &mut Vec<(String, bool)>, pool: &RulePool, rng: &mut ThreadRng)
    ensures
        final(order)@.len() == old(order)@.len(),
        forall|i: int| 0 <= i < old(order)@.len() ==> (#[trigger] final(order)@[i]).0 == old(order)@[i].0,
        forall|i: int| 0 <= i < old(order)@.len() && rule_of(pool@.rules, old(order)@[i].0@) is None
            ==> #[trigger] final(order)@[i] == old(order)@[i],
        forall|i: int| 0 <= i < old(order)@.len() && entry_locked(pool@, #[trigger] old(order)@[i])
            ==> final(order)@[i].1,
{
    let ghost start = order@;
    let n = order.len();
    let mut i: usize = 0;
    while i < n
        invariant
            i <= n,
            n == start.len(),
            start == old(order)@,
            order@.len() == n,
            forall|k: int| 0 <= k < n ==> (#[trigger] order@[k]).0 == start[k].0,
            forall|k: int| i <= k < n ==> #[trigger] order@[k] == start[k],
            forall|k: int| 0 <= k < i && rule_of(pool@.rules, start[k].0@) is None ==> #[trigger] order@[k] == start[k],
            forall|k: int| 0 <= k < i && entry_locked(pool@, #[trigger] start[k]) ==> order@[k].1,
        decreases n - i,
    {
        proof {
            lemma_rule_of(pool@.rules, start[i as int].0@);
            lemma_locked_is_rule_locked(pool@.rules, start[i as int].0@);
        }
        match pool.get(order[i].0.as_str()) {
            None => {},
            Some(rule) => {
                let (num, den) = rule_enable_odds(rule.source, rule.locked);
                let en = chance(rng, num, den);
                let e = (order[i].0.clone(), en);
                order.set(i, e);
            },
        }
        i = i + 1;
    }
}

/// Random enabling of a fully random individual: a locked rule is enabled, any other entry
/// is enabled with probability 1/2.
pub fn full_random_enables(order: &mut Vec<(String, bool)>, pool: &RulePool, rng: &mut ThreadRng)
    ensures
        final(order)@.len() == old(order)@.len(),
        forall|i: int| 0 <= i < old(order)@.len() ==> (#[trigger] final(order)@[i]).0 == old(order)@[i].0,
        forall|i: int| 0 <= i < old(order)@.len() && entry_locked(pool@, #[trigger] old(order)@[i])
            ==> final(order)@[i].1,
{
    let ghost start = order@;
    let n = order.len();
    let mut i: usize = 0;
    while i < n
        invariant
            i <= n,
            n == start.len(),
            start == old(order)@,
            order@.len() == n,
            forall|k: int| 0 <= k < n ==> (#[trigger] order@[k]).0 == start[k].0,
            forall|k: int| 0 <= k < i && entry_locked(pool@, #[trigger] start[k]) ==> order@[k].1,
        decreases n - i,
    {
        let locked = pool.is_locked(order[i].0.as_str());
        let (num, den) = full_enable_odds(locked);
        let en = chance(rng, num, den);
        let e = (order[i].0.clone(), en);
        order.set(i, e);
        i = i + 1;
    }
}

/// A locked entry is one whose rule exists and is locked.
proof fn lemma_locked_is_rule_locked(rules: Seq<RuleView>, id: Seq<char>)
    ensures
        locked_in(rules, id) == (rule_of(rules, id) is Some && rule_of(rules, id)->Some_0.locked),
{
    lemma_rule_of(rules, id);
    if locked_in(rules, id) {
        let w = choose|w: int| crate::rules::first_with_id(rules, id, w) && rules[w].locked;
    }
    if rule_of(rules, id) is Some {
        let w = choose|w: int| 0 <= w < rules.len() && rules[w].id == id;
        lemma_first_exists(rules, id, w);
    }
}

/// When some rule has the id, a first one does.
proof fn lemma_first_exists(rules: Seq<RuleView>, id: Seq<char>, w: int)
    requires
        0 <= w < rules.len(),
        rules[w].id == id,
    ensures
        exists|k: int| crate::rules::first_with_id(rules, id, k),
    decreases w,
{
    if forall|j: int| 0 <= j < w ==> rules[j].id != id {
        assert(crate::rules::first_with_id(rules, id, w));
    } else {
        let j = choose|j: int| 0 <= j < w && rules[j].id == id;
        lemma_first_exists(rules, id, j);
    }
}

/// The position of the first entry of `s` for rule `id`, or -1.
pub open spec fn entry_index(s: Seq<(String, bool)>, id: Seq<char>) -> int
    decreases s.len(),
{
    if s.len() == 0 {
        -1
    } else {
        let k = entry_index(s.drop_last(), id);
        if k >= 0 { k } else if s.last().0@ == id { s.len() - 1 } else { -1 }
    }
}

proof fn lemma_entry_index(s: Seq<(String, bool)>, id: Seq<char>, k: int)
    requires
        0 <= k <= s.len(),
        forall|j: int| 0 <= j < k ==> (#[trigger] s[j]).0@ != id,
    ensures
        k < s.len() && s[k].0@ == id ==> entry_index(s, id) == k,
        k == s.len() ==> entry_index(s, id) == -1,
    decreases s.len(),
{
    if s.len() > 0 {
        if k < s.len() {
            if k < s.len() - 1 {
                lemma_entry_index(s.drop_last(), id, k);
                if s[k].0@ != id {
                    lemma_entry_index(s.drop_last(), id, k);
                }
            } else {
                lemma_entry_index(s.drop_last(), id, k);
            }
        } else {
            lemma_entry_index(s.drop_last(), id, k - 1);
        }
    }
}

/// The first-entry position of an id that no earlier entry has.
pub proof fn lemma_entry_index_pub(s: Seq<(String, bool)>, id: Seq<char>, k: int)
    requires
        0 <= k < s.len(),
        s[k].0@ == id,
        forall|j: int| 0 <= j < k ==> (#[trigger] s[j]).0@ != id,
    ensures
        entry_index(s, id) == k,
{
    lemma_entry_index(s, id, k);
}

pub(crate) fn find_entry(s: &Vec<(String, bool)>, id: &String) -> (r: Option<usize>)
    ensures
        match r {
            Some(k) => k as int == entry_index(s@, id@) && k < s@.len(),
            None => entry_index(s@, id@) == -1,
        },
{
    let mut k: usize = 0;
    while k < s.len()
        invariant
            k <= s@.len(),
            forall|j: int| 0 <= j < k ==> (#[trigger] s@[j]).0@ != id@,
        decreases s.len() - k,
    {
        if s[k].0 == *id {
            proof { lemma_entry_index(s@, id@, k as int); }
            return Some(k);
        }
        k = k + 1;
    }
    proof { lemma_entry_index(s@, id@, k as int); }
    None
}

/// The two pages after moving rule `id` across: when it is on exactly one page, its entry
/// leaves that page and is appended to the other; otherwise nothing changes.
pub open spec fn moved_across(shield: Seq<(String, bool)>, blade: Seq<(String, bool)>, id: Seq<char>) -> (Seq<(String, bool)>, Seq<(String, bool)>) {
    let a = entry_index(shield, id);
    let b = entry_index(blade, id);
    if a >= 0 && b < 0 {
        (shield.remove(a), blade.push(shield[a]))
    } else if b >= 0 && a < 0 {
        (shield.push(blade[b]), blade.remove(b))
    } else {
        (shield, blade)
    }
}

/// Moves rule `id` to the other page when it is on exactly one of them.
pub fn move_across(shield: &mut Vec<(String, bool)>, blade: &mut Vec<(String, bool)>, id: &String)
    ensures
        (final(shield)@, final(blade)@) == moved_across(old(shield)@, old(blade)@, id@),
{
    let a = find_entry(shield, id);
    let b = find_entry(blade, id);
    match (a, b) {
        (Some(pos), None) => {
            let e = shield.remove(pos);
            blade.push(e);
        },
        (None, Some(pos)) => {
            let e = blade.remove(pos);
            shield.push(e);
        },
        _ => {},
    }
}

/// A rule that the cross-page move may pick: fits either page and is not locked.
pub open spec fn movable_across(r: RuleView) -> bool {
    r.page == PageTag::Either && !r.locked
}

/// Cross-page mutation: a random unlocked either-page rule is moved to the other page
/// when it is on exactly one of them; nothing happens when the pool has no such rule.
pub fn cross_page_move(shield: &mut Vec<(String, bool)>, blade: &mut Vec<(String, bool)>, pool: &RulePool, rng: &mut ThreadRng)
    ensures
        (forall|k: int| 0 <= k < pool@.rules.len() ==> !movable_across(#[trigger] pool@.rules[k]))
            ==> final(shield)@ == old(shield)@ && final(blade)@ == old(blade)@,
        (exists|k: int| 0 <= k < pool@.rules.len() && movable_across(#[trigger] pool@.rules[k]))
            ==> exists|k: int| 0 <= k < pool@.rules.len() && movable_across(#[trigger] pool@.rules[k])
                && (final(shield)@, final(blade)@) == moved_across(old(shield)@, old(blade)@, pool@.rules[k].id),
{
    let mut either: Vec<usize> = Vec::new();
    let mut k: usize = 0;
    while k < pool.rules.len()
        invariant
            k <= pool@.rules.len(),
            forall|a: int| 0 <= a < either@.len() ==> (#[trigger] either@[a]) < pool@.rules.len() && movable_across(pool@.rules[either@[a] as int]),
            forall|a: int| 0 <= a < k && movable_across(#[trigger] pool@.rules[a]) ==> either@.len() > 0,
        decreases pool.rules.len() - k,
    {
        if pool.rules[k].page == PageTag::Either && !pool.rules[k].locked {
            either.push(k);
        }
        k = k + 1;
    }
    if either.len() == 0 {
        return;
    }
    let pick = either[random_below(rng, either.len())];
    let id = pool.rules[pick].id.clone();
    move_across(shield, blade, &id);
}

/// The difference a structure individual makes to the baseline, for the result cards.
#[derive(Debug, Clone)]
pub struct StructDiff {
    pub shield_emitted: Vec<String>,
    pub blade_emitted: Vec<String>,
    pub shield_truncated: Vec<String>,
    pub blade_truncated: Vec<String>,
    /// Candidate rules enabled and emitted.
    pub new_rules_enabled: Vec<String>,
    /// Unlocked original rules disabled.
    pub original_disabled: Vec<String>,
}

/// The enabled, emitted candidate rules among `entries`, in order.
pub open spec fn new_rules_spec(rules: Seq<RuleView>, entries: Seq<(Seq<char>, bool)>, emitted: Seq<Seq<char>>) -> Seq<Seq<char>>
    decreases entries.len(),
{
    if entries.len() == 0 {
        Seq::empty()
    } else {
        let prev = new_rules_spec(rules, entries.drop_last(), emitted);
        let (id, en) = entries.last();
        match rule_of(rules, id) {
            Some(r) => if en && emitted.contains(id) && r.source == RuleSource::Candidate { prev.push(id) } else { prev },
            None => prev,
        }
    }
}

/// The disabled, unlocked original rules among `entries`, in order.
pub open spec fn disabled_originals_spec(rules: Seq<RuleView>, entries: Seq<(Seq<char>, bool)>) -> Seq<Seq<char>>
    decreases entries.len(),
{
    if entries.len() == 0 {
        Seq::empty()
    } else {
        let prev = disabled_originals_spec(rules, entries.drop_last());
        let (id, en) = entries.last();
        match rule_of(rules, id) {
            Some(r) => if !en && r.source == RuleSource::Original && !r.locked { prev.push(id) } else { prev },
            None => prev,
        }
    }
}

fn clone_strings(v: &Vec<String>) -> (r: Vec<String>)
    ensures
        r@ == v@,
{
    let mut out: Vec<String> = Vec::new();
    let mut i: usize = 0;
    while i < v.len()
        invariant
            i <= v@.len(),
            out@ == v@.take(i as int),
        decreases v.len() - i,
    {
        out.push(v[i].clone());
        assert(v@.take(i as int + 1) == v@.take(i as int).push(v@[i as int]));
        i = i + 1;
    }
    assert(v@.take(v@.len() as int) == v@);
    out
}

fn diff_entry(
    e: &(String, bool),
    pool: &RulePool,
    emitted: &Vec<String>,
    new_rules: &mut Vec<String>,
    disabled: &mut Vec<String>,
    Ghost(before): Ghost<Seq<(Seq<char>, bool)>>,
)
    requires
        strings_view(old(new_rules)@) == new_rules_spec(pool@.rules, before, strings_view(emitted@)),
        strings_view(old(disabled)@) == disabled_originals_spec(pool@.rules, before),
    ensures
        strings_view(final(new_rules)@) == new_rules_spec(pool@.rules, before.push((e.0@, e.1)), strings_view(emitted@)),
        strings_view(final(disabled)@) == disabled_originals_spec(pool@.rules, before.push((e.0@, e.1))),
{
    let ghost after = before.push((e.0@, e.1));
    assert(after.drop_last() == before);
    match pool.get(e.0.as_str()) {
        None => {},
        Some(rule) => {
            if e.1 && contains_str(emitted, &e.0) && rule.source == RuleSource::Candidate {
                let ghost prev = new_rules@;
                new_rules.push(e.0.clone());
                assert(strings_view(new_rules@) =~= strings_view(prev).push(e.0@));
            }
            if !e.1 && rule.source == RuleSource::Original && !rule.locked {
                let ghost prev = disabled@;
                disabled.push(e.0.clone());
                assert(strings_view(disabled@) =~= strings_view(prev).push(e.0@));
            }
        },
    }
}

/// Compares an individual's page orders with what its rendering emitted: the candidate
/// rules it enabled that were emitted, and the unlocked original rules it disabled, both in
/// order over the shield page then the blade page.
pub fn compute_struct_diff(
    shield_order: &Vec<(String, bool)>,
    blade_order: &Vec<(String, bool)>,
    pool: &RulePool,
    rendered: &RenderResult,
) -> (d: StructDiff)
    ensures
        d.shield_emitted@ == rendered.shield_emitted@,
        d.blade_emitted@ == rendered.blade_emitted@,
        d.shield_truncated@ == rendered.shield_truncated@,
        d.blade_truncated@ == rendered.blade_truncated@,
        strings_view(d.new_rules_enabled@) == new_rules_spec(
            pool@.rules,
            order_view(shield_order@) + order_view(blade_order@),
            strings_view(rendered.shield_emitted@) + strings_view(rendered.blade_emitted@),
        ),
        strings_view(d.original_disabled@) == disabled_originals_spec(
            pool@.rules,
            order_view(shield_order@) + order_view(blade_order@),
        ),
{
    let shield_emitted = &rendered.shield_emitted;
    let blade_emitted = &rendered.blade_emitted;
    let shield_truncated = &rendered.shield_truncated;
    let blade_truncated = &rendered.blade_truncated;
    let mut emitted: Vec<String> = clone_strings(shield_emitted);
    let mut t: usize = 0;
    while t < blade_emitted.len()
        invariant
            t <= blade_emitted@.len(),
            emitted@ == shield_emitted@ + blade_emitted@.take(t as int),
        decreases blade_emitted.len() - t,
    {
        emitted.push(blade_emitted[t].clone());
        assert(blade_emitted@.take(t as int + 1) == blade_emitted@.take(t as int).push(blade_emitted@[t as int]));
        t = t + 1;
    }
    assert(blade_emitted@.take(blade_emitted@.len() as int) == blade_emitted@);
    assert(strings_view(emitted@) =~= strings_view(shield_emitted@) + strings_view(blade_emitted@));
    let ghost em = strings_view(emitted@);
    let mut new_rules: Vec<String> = Vec::new();
    let mut disabled: Vec<String> = Vec::new();
    let ghost sv = order_view(shield_order@);
    let ghost bv = order_view(blade_order@);
    let mut i: usize = 0;
    while i < shield_order.len()
        invariant
            i <= shield_order@.len(),
            sv == order_view(shield_order@),
            em == strings_view(emitted@),
            strings_view(new_rules@) == new_rules_spec(pool@.rules, sv.take(i as int), em),
            strings_view(disabled@) == disabled_originals_spec(pool@.rules, sv.take(i as int)),
        decreases shield_order.len() - i,
    {
        assert(sv.take(i as int + 1) == sv.take(i as int).push((shield_order@[i as int].0@, shield_order@[i as int].1)));
        diff_entry(&shield_order[i], pool, &emitted, &mut new_rules, &mut disabled, Ghost(sv.take(i as int)));
        i = i + 1;
    }
    assert(sv.take(sv.len() as int) == sv);
    let mut j: usize = 0;
    while j < blade_order.len()
        invariant
            j <= blade_order@.len(),
            sv == order_view(shield_order@),
            bv == order_view(blade_order@),
            em == strings_view(emitted@),
            strings_view(new_rules@) == new_rules_spec(pool@.rules, sv + bv.take(j as int), em),
            strings_view(disabled@) == disabled_originals_spec(pool@.rules, sv + bv.take(j as int)),
        decreases blade_order.len() - j,
    {
        assert(sv + bv.take(j as int + 1) == (sv + bv.take(j as int)).push((blade_order@[j as int].0@, blade_order@[j as int].1)));
        diff_entry(&blade_order[j], pool, &emitted, &mut new_rules, &mut disabled, Ghost(sv + bv.take(j as int)));
        j = j + 1;
    }
    assert(bv.take(bv.len() as int) == bv);
    StructDiff {
        shield_emitted: clone_strings(shield_emitted),
        blade_emitted: clone_strings(blade_emitted),
        shield_truncated: clone_strings(shield_truncated),
        blade_truncated: clone_strings(blade_truncated),
        new_rules_enabled: new_rules,
        original_disabled: disabled,
    }
}

/// The starting orders of both pages.
pub fn seed_orders(pool: &RulePool) -> (r: (Vec<(String, bool)>, Vec<(String, bool)>))
    ensures
        order_view(r.0@) == seed_order_spec(pool@.shield_order, pool@.shield_enabled),
        order_view(r.1@) == seed_order_spec(pool@.blade_order, pool@.blade_enabled),
{
    (
        seed_order(&pool.shield_default_order, &pool.shield_default_enabled),
        seed_order(&pool.blade_default_order, &pool.blade_default_enabled),
    )
}

/// Every locked rule of `order` sits where `ids` has it and is enabled, and the order has
/// as many entries as `ids`.
pub open spec fn keeps_locked_enabled(pool: PoolView, ids: Seq<Seq<char>>, order: Seq<(String, bool)>) -> bool {
    &&& order.len() == ids.len()
    &&& forall|i: int| 0 <= i < ids.len() && locked_in(pool.rules, #[trigger] ids[i]) ==> order[i].0@ == ids[i] && order[i].1
}

proof fn lemma_shuffle_keeps(pool: PoolView, ids: Seq<Seq<char>>, before: Seq<(String, bool)>, after: Seq<(String, bool)>)
    requires
        before.len() == ids.len(),
        forall|i: int| 0 <= i < ids.len() ==> (#[trigger] before[i]).0@ == ids[i],
        forall|i: int| 0 <= i < ids.len() && locked_in(pool.rules, #[trigger] ids[i]) ==> before[i].1,
        after.len() == before.len(),
        forall|i: int| 0 <= i < before.len() && entry_locked(pool, #[trigger] before[i]) ==> after[i] == before[i],
    ensures
        keeps_locked_enabled(pool, ids, after),
{
    assert forall|i: int| 0 <= i < ids.len() && locked_in(pool.rules, #[trigger] ids[i]) implies after[i].0@ == ids[i] && after[i].1 by {
        assert(before[i].0@ == ids[i]);
        assert(entry_locked(pool, before[i]));
    }
}

proof fn lemma_page_ids_multiset(a: Seq<(String, bool)>, b: Seq<(String, bool)>)
    requires
        a.to_multiset() == b.to_multiset(),
    ensures
        page_ids(a).to_multiset() == page_ids(b).to_multiset(),
    decreases a.len(),
{
    broadcast use vstd::seq_lib::to_multiset_build, vstd::seq_lib::to_multiset_remove,
        vstd::seq_lib::to_multiset_contains, vstd::multiset::group_multiset_axioms;
    vstd::seq_lib::to_multiset_len(a);
    vstd::seq_lib::to_multiset_len(b);
    if a.len() == 0 {
        lemma_empty_multiset(page_ids(a));
        lemma_empty_multiset(page_ids(b));
    } else {
        let x = a.last();
        assert(a.drop_last().push(x) == a);
        assert(a.to_multiset().count(x) > 0);
        assert(b.to_multiset().count(x) > 0);
        assert(b.contains(x));
        let i = choose|i: int| 0 <= i < b.len() && b[i] == x;
        assert(b.remove(i).to_multiset() == b.to_multiset().remove(x));
        assert(a.drop_last().to_multiset() =~= b.remove(i).to_multiset());
        lemma_page_ids_multiset(a.drop_last(), b.remove(i));
        assert(page_ids(a) =~= page_ids(a.drop_last()).push(x.0@));
        assert(page_ids(b.remove(i)) =~= page_ids(b).remove(i));
        assert(page_ids(b)[i] == x.0@);
        assert(page_ids(b).remove(i).to_multiset() == page_ids(b).to_multiset().remove(x.0@));
        assert(page_ids(b).contains(x.0@));
        assert(page_ids(b).to_multiset().count(x.0@) > 0);
        assert(page_ids(a).to_multiset() =~= page_ids(b).to_multiset());
    }
}

/// The page orders of a half-random individual: the starting orders, randomly enabled
/// (originals 9/10, candidates 2/10), then shuffled around the locked rules.
pub fn half_random_orders(pool: &RulePool, rng: &mut ThreadRng) -> (r: (Vec<(String, bool)>, Vec<(String, bool)>))
    ensures
        keeps_locked_enabled(pool@, pool@.shield_order, r.0@),
        keeps_locked_enabled(pool@, pool@.blade_order, r.1@),
        page_ids(r.0@).to_multiset() == pool@.shield_order.to_multiset(),
        page_ids(r.1@).to_multiset() == pool@.blade_order.to_multiset(),
{
    let (mut shield, mut blade) = seed_orders(pool);
    assert(order_view(shield@).len() == shield@.len());
    assert(shield@.len() == pool@.shield_order.len());
    assert(order_view(blade@).len() == blade@.len());
    assert(blade@.len() == pool@.blade_order.len());
    assert forall|i: int| 0 <= i < shield@.len() implies (#[trigger] shield@[i]).0@ == pool@.shield_order[i] by {
        assert(order_view(shield@)[i] == seed_order_spec(pool@.shield_order, pool@.shield_enabled)[i]);
    }
    assert forall|i: int| 0 <= i < blade@.len() implies (#[trigger] blade@[i]).0@ == pool@.blade_order[i] by {
        assert(order_view(blade@)[i] == seed_order_spec(pool@.blade_order, pool@.blade_enabled)[i]);
    }
    half_random_enables(&mut shield, pool, rng);
    half_random_enables(&mut blade, pool, rng);
    let ghost s1 = shield@;
    let ghost b1 = blade@;
    shuffle_respecting_locks(&mut shield, pool, rng);
    shuffle_respecting_locks(&mut blade, pool, rng);
    proof {
        lemma_shuffle_keeps(pool@, pool@.shield_order, s1, shield@);
        lemma_shuffle_keeps(pool@, pool@.blade_order, b1, blade@);
        assert(page_ids(s1) =~= pool@.shield_order);
        assert(page_ids(b1) =~= pool@.blade_order);
        lemma_page_ids_multiset(shield@, s1);
        lemma_page_ids_multiset(blade@, b1);
    }
    (shield, blade)
}

fn all_disabled(ids: &Vec<String>) -> (r: Vec<(String, bool)>)
    ensures
        r@.len() == ids@.len(),
        forall|i: int| 0 <= i < ids@.len() ==> (#[trigger] r@[i]).0@ == ids@[i]@ && !r@[i].1,
{
    let mut out: Vec<(String, bool)> = Vec::new();
    let mut i: usize = 0;
    while i < ids.len()
        invariant
            i <= ids@.len(),
            out@.len() == i,
            forall|k: int| 0 <= k < i ==> (#[trigger] out@[k]).0@ == ids@[k]@ && !out@[k].1,
        decreases ids.len() - i,
    {
        out.push((ids[i].clone(), false));
        i = i + 1;
    }
    out
}

/// The page orders of a fully random individual: the default orders, each unlocked rule
/// enabled with probability 1/2, then shuffled around the locked rules.
pub fn full_random_orders(pool: &RulePool, rng: &mut ThreadRng) -> (r: (Vec<(String, bool)>, Vec<(String, bool)>))
    ensures
        keeps_locked_enabled(pool@, pool@.shield_order, r.0@),
        keeps_locked_enabled(pool@, pool@.blade_order, r.1@),
        page_ids(r.0@).to_multiset() == pool@.shield_order.to_multiset(),
        page_ids(r.1@).to_multiset() == pool@.blade_order.to_multiset(),
{
    let mut shield = all_disabled(&pool.shield_default_order);
    let mut blade = all_disabled(&pool.blade_default_order);
    full_random_enables(&mut shield, pool, rng);
    full_random_enables(&mut blade, pool, rng);
    let ghost s1 = shield@;
    let ghost b1 = blade@;
    shuffle_respecting_locks(&mut shield, pool, rng);
    shuffle_respecting_locks(&mut blade, pool, rng);
    proof {
        lemma_shuffle_keeps(pool@, pool@.shield_order, s1, shield@);
        lemma_shuffle_keeps(pool@, pool@.blade_order, b1, blade@);
        assert(page_ids(s1) =~= pool@.shield_order);
        assert(page_ids(b1) =~= pool@.blade_order);
        lemma_page_ids_multiset(shield@, s1);
        lemma_page_ids_multiset(blade@, b1);
    }
    (shield, blade)
}

/// The rule ids of an order, in order.
pub open spec fn page_ids(o: Seq<(String, bool)>) -> Seq<Seq<char>> {
    o.map_values(|e: (String, bool)| e.0@)
}

/// Every locked rule of an order is enabled.
pub open spec fn locked_enabled(pool: PoolView, o: Seq<(String, bool)>) -> bool {
    forall|i: int| 0 <= i < o.len() && entry_locked(pool, #[trigger] o[i]) ==> o[i].1
}

/// The rules both pages hold, counted.
pub open spec fn held_rules(shield: Seq<(String, bool)>, blade: Seq<(String, bool)>) -> Multiset<Seq<char>> {
    (page_ids(shield) + page_ids(blade)).to_multiset()
}

proof fn lemma_ms_swap_back<A>(m: Multiset<A>, a: A, b: A)
    requires
        m.count(a) > 0,
    ensures
        m.insert(b).remove(a).insert(a).remove(b) =~= m,
{
    broadcast use vstd::multiset::group_multiset_axioms;
}

proof fn lemma_ms_move<A>(m1: Multiset<A>, m2: Multiset<A>, x: A)
    requires
        m1.count(x) > 0,
    ensures
        m1.remove(x).add(m2.insert(x)) =~= m1.add(m2),
{
    broadcast use vstd::multiset::group_multiset_axioms;
}

proof fn lemma_swap_keeps(pool: PoolView, before: Seq<(String, bool)>, after: Seq<(String, bool)>, i: int, j: int)
    requires
        is_unlocked_swap(pool, before, after, i, j),
    ensures
        page_ids(after).to_multiset() == page_ids(before).to_multiset(),
        locked_enabled(pool, before) ==> locked_enabled(pool, after),
{
    broadcast use vstd::seq_lib::to_multiset_update, vstd::multiset::group_multiset_axioms;
    let ids = page_ids(before);
    let mid = ids.update(i, ids[j]);
    assert(page_ids(after) =~= mid.update(j, ids[i]));
    assert(mid.to_multiset() == ids.to_multiset().insert(ids[j]).remove(ids[i]));
    assert(mid.update(j, ids[i]).to_multiset() == mid.to_multiset().insert(ids[i]).remove(mid[j]));
    assert(mid[j] == ids[j]);
    vstd::seq_lib::to_multiset_contains(ids, ids[i]);
    assert(ids.contains(ids[i]));
    lemma_ms_swap_back(ids.to_multiset(), ids[i], ids[j]);
    assert(page_ids(after).to_multiset() =~= ids.to_multiset());
    if locked_enabled(pool, before) {
        assert forall|k: int| 0 <= k < after.len() && entry_locked(pool, #[trigger] after[k]) implies after[k].1 by {
            if k == i {
                assert(after[k] == before[j]);
            } else if k == j {
                assert(after[k] == before[i]);
            } else {
                assert(after[k] == before[k]);
            }
        }
    }
}

proof fn lemma_toggle_keeps(pool: PoolView, before: Seq<(String, bool)>, after: Seq<(String, bool)>, i: int)
    requires
        is_unlocked_toggle(pool, before, after, i),
    ensures
        page_ids(after) == page_ids(before),
        locked_enabled(pool, before) ==> locked_enabled(pool, after),
{
    assert(page_ids(after) =~= page_ids(before));
    if locked_enabled(pool, before) {
        assert forall|k: int| 0 <= k < after.len() && entry_locked(pool, #[trigger] after[k]) implies after[k].1 by {
            if k != i {
                assert(after[k] == before[k]);
            }
        }
    }
}

proof fn lemma_entry_index_bound(s: Seq<(String, bool)>, id: Seq<char>)
    ensures
        -1 <= entry_index(s, id) < s.len(),
    decreases s.len(),
{
    if s.len() > 0 {
        lemma_entry_index_bound(s.drop_last(), id);
    }
}

proof fn lemma_move_keeps(pool: PoolView, shield: Seq<(String, bool)>, blade: Seq<(String, bool)>, id: Seq<char>)
    ensures
        held_rules(moved_across(shield, blade, id).0, moved_across(shield, blade, id).1) == held_rules(shield, blade),
        locked_enabled(pool, shield) && locked_enabled(pool, blade) ==> locked_enabled(pool, moved_across(shield, blade, id).0)
            && locked_enabled(pool, moved_across(shield, blade, id).1),
{
    broadcast use vstd::seq_lib::to_multiset_remove, vstd::seq_lib::to_multiset_build,
        vstd::seq_lib::lemma_multiset_commutative, vstd::multiset::group_multiset_axioms;
    lemma_entry_index_bound(shield, id);
    lemma_entry_index_bound(blade, id);
    let a = entry_index(shield, id);
    let b = entry_index(blade, id);
    let (s2, b2) = moved_across(shield, blade, id);
    if a >= 0 && b < 0 {
        assert(page_ids(s2) =~= page_ids(shield).remove(a));
        assert(page_ids(b2) =~= page_ids(blade).push(shield[a].0@));
        assert(page_ids(shield)[a] == shield[a].0@);
        vstd::seq_lib::to_multiset_contains(page_ids(shield), shield[a].0@);
        assert(page_ids(shield).contains(page_ids(shield)[a]));
        lemma_ms_move(page_ids(shield).to_multiset(), page_ids(blade).to_multiset(), shield[a].0@);
        assert(held_rules(s2, b2) =~= held_rules(shield, blade));
        if locked_enabled(pool, shield) && locked_enabled(pool, blade) {
            assert forall|k: int| 0 <= k < s2.len() && entry_locked(pool, #[trigger] s2[k]) implies s2[k].1 by {
                if k < a {
                    assert(s2[k] == shield[k]);
                } else {
                    assert(s2[k] == shield[k + 1]);
                }
            }
            assert forall|k: int| 0 <= k < b2.len() && entry_locked(pool, #[trigger] b2[k]) implies b2[k].1 by {
                if k < blade.len() {
                    assert(b2[k] == blade[k]);
                } else {
                    assert(b2[k] == shield[a]);
                }
            }
        }
    } else if b >= 0 && a < 0 {
        assert(page_ids(b2) =~= page_ids(blade).remove(b));
        assert(page_ids(s2) =~= page_ids(shield).push(blade[b].0@));
        assert(page_ids(blade)[b] == blade[b].0@);
        vstd::seq_lib::to_multiset_contains(page_ids(blade), blade[b].0@);
        assert(page_ids(blade).contains(page_ids(blade)[b]));
        lemma_ms_move(page_ids(blade).to_multiset(), page_ids(shield).to_multiset(), blade[b].0@);
        assert(page_ids(shield).push(blade[b].0@).to_multiset() =~= page_ids(shield).to_multiset().insert(blade[b].0@));
        assert(held_rules(s2, b2) =~= page_ids(shield).to_multiset().insert(blade[b].0@).add(page_ids(blade).to_multiset().remove(blade[b].0@)));
        assert(held_rules(s2, b2) =~= held_rules(shield, blade));
        if locked_enabled(pool, shield) && locked_enabled(pool, blade) {
            assert forall|k: int| 0 <= k < b2.len() && entry_locked(pool, #[trigger] b2[k]) implies b2[k].1 by {
                if k < b {
                    assert(b2[k] == blade[k]);
                } else {
                    assert(b2[k] == blade[k + 1]);
                }
            }
            assert forall|k: int| 0 <= k < s2.len() && entry_locked(pool, #[trigger] s2[k]) implies s2[k].1 by {
                if k < shield.len() {
                    assert(s2[k] == shield[k]);
                } else {
                    assert(s2[k] == blade[b]);
                }
            }
        }
    }
}

proof fn lemma_page_change_keeps(s: Seq<(String, bool)>, s2: Seq<(String, bool)>, b: Seq<(String, bool)>)
    requires
        page_ids(s2).to_multiset() == page_ids(s).to_multiset(),
    ensures
        held_rules(s2, b) == held_rules(s, b),
        held_rules(b, s2) == held_rules(b, s),
{
    broadcast use vstd::seq_lib::lemma_multiset_commutative;
}

/// `(s2, b2)` is what a cross-page move of `(s, b)` can give: the pages unchanged when the
/// pool has no unlocked either-page rule; otherwise such a rule moved across.
pub open spec fn cross_result(pool: PoolView, s: Seq<(String, bool)>, b: Seq<(String, bool)>, s2: Seq<(String, bool)>, b2: Seq<(String, bool)>) -> bool {
    &&& (forall|k: int| 0 <= k < pool.rules.len() ==> !movable_across(#[trigger] pool.rules[k])) ==> s2 == s && b2 == b
    &&& (exists|k: int| 0 <= k < pool.rules.len() && movable_across(#[trigger] pool.rules[k]))
        ==> exists|k: int| 0 <= k < pool.rules.len() && movable_across(#[trigger] pool.rules[k])
            && (s2, b2) == moved_across(s, b, pool.rules[k].id)
}

/// The stages of one mutation, through the intermediate orders: bubble swaps on the shield
/// and the blade page, then random swaps, then toggles, then a cross-page move; each step
/// either was skipped, leaving its page as it was, or was made.
pub open spec fn mutation_steps(
    pool: PoolView,
    s0: Seq<(String, bool)>, b0: Seq<(String, bool)>,
    s1: Seq<(String, bool)>, b1: Seq<(String, bool)>,
    s2: Seq<(String, bool)>, b2: Seq<(String, bool)>,
    s3: Seq<(String, bool)>, b3: Seq<(String, bool)>,
    s4: Seq<(String, bool)>, b4: Seq<(String, bool)>,
) -> bool {
    &&& s1 == s0 || bubble_result(pool, s0, s1)
    &&& b1 == b0 || bubble_result(pool, b0, b1)
    &&& s2 == s1 || swap_result(pool, s1, s2)
    &&& b2 == b1 || swap_result(pool, b1, b2)
    &&& s3 == s2 || toggle_result(pool, s2, s3)
    &&& b3 == b2 || toggle_result(pool, b2, b3)
    &&& (s4 == s3 && b4 == b3) || cross_result(pool, s3, b3, s4, b4)
}

/// `(s, b)` is what one mutation of `(s0, b0)` can give.
pub open spec fn mutation_result(pool: PoolView, s0: Seq<(String, bool)>, b0: Seq<(String, bool)>, s: Seq<(String, bool)>, b: Seq<(String, bool)>) -> bool {
    exists|s1: Seq<(String, bool)>, b1: Seq<(String, bool)>, s2: Seq<(String, bool)>, b2: Seq<(String, bool)>, s3: Seq<(String, bool)>, b3: Seq<(String, bool)>|
        #[trigger] mutation_steps(pool, s0, b0, s1, b1, s2, b2, s3, b3, s, b)
}

/// Mutates the page orders of a structure individual: a bubble swap on each page with
/// probability 20/100, a random swap on each with 25/100, a toggle on each with 15/100, and
/// a cross-page move with 5/100. The pages still hold the same rules, and a locked rule that
/// was enabled stays enabled.
pub fn mutate_orders(shield: &mut Vec<(String, bool)>, blade: &mut Vec<(String, bool)>, pool: &RulePool, rng: &mut ThreadRng)
    requires
        old(shield)@.len() <= usize::MAX / 2,
        old(blade)@.len() <= usize::MAX / 2,
    ensures
        mutation_result(pool@, old(shield)@, old(blade)@, final(shield)@, final(blade)@),
        held_rules(final(shield)@, final(blade)@) == held_rules(old(shield)@, old(blade)@),
        locked_enabled(pool@, old(shield)@) && locked_enabled(pool@, old(blade)@)
            ==> locked_enabled(pool@, final(shield)@) && locked_enabled(pool@, final(blade)@),
{
    let ghost s0 = shield@;
    let ghost b0 = blade@;
    let ghost le = locked_enabled(pool@, s0) && locked_enabled(pool@, b0);
    if mutation_draw(MutationStep::BubbleSwap, rng) {
        let ghost before = shield@;
        bubble_swap(shield, pool, rng);
        proof {
            if shield@ != before {
                let i = choose|i: int| #[trigger] is_unlocked_swap(pool@, before, shield@, i, i + 1);
                lemma_swap_keeps(pool@, before, shield@, i, i + 1);
            }
            lemma_page_change_keeps(before, shield@, blade@);
        }
    }
    if mutation_draw(MutationStep::BubbleSwap, rng) {
        let ghost before = blade@;
        bubble_swap(blade, pool, rng);
        proof {
            if blade@ != before {
                let i = choose|i: int| #[trigger] is_unlocked_swap(pool@, before, blade@, i, i + 1);
                lemma_swap_keeps(pool@, before, blade@, i, i + 1);
            }
            lemma_page_change_keeps(before, blade@, shield@);
        }
    }
    assert(held_rules(shield@, blade@) == held_rules(s0, b0));
    assert(le ==> locked_enabled(pool@, shield@) && locked_enabled(pool@, blade@));
    let ghost s1 = shield@;
    let ghost b1 = blade@;
    if mutation_draw(MutationStep::RandomSwap, rng) {
        let ghost before = shield@;
        random_swap(shield, pool, rng);
        proof {
            if shield@ != before {
                let (i, j) = choose|i: int, j: int| #[trigger] is_unlocked_swap(pool@, before, shield@, i, j);
                lemma_swap_keeps(pool@, before, shield@, i, j);
            }
            lemma_page_change_keeps(before, shield@, blade@);
        }
    }
    if mutation_draw(MutationStep::RandomSwap, rng) {
        let ghost before = blade@;
        random_swap(blade, pool, rng);
        proof {
            if blade@ != before {
                let (i, j) = choose|i: int, j: int| #[trigger] is_unlocked_swap(pool@, before, blade@, i, j);
                lemma_swap_keeps(pool@, before, blade@, i, j);
            }
            lemma_page_change_keeps(before, blade@, shield@);
        }
    }
    assert(held_rules(shield@, blade@) == held_rules(s0, b0));
    assert(le ==> locked_enabled(pool@, shield@) && locked_enabled(pool@, blade@));
    let ghost s2 = shield@;
    let ghost b2 = blade@;
    if mutation_draw(MutationStep::Toggle, rng) {
        let ghost before = shield@;
        toggle_enabled(shield, pool, rng);
        proof {
            if shield@ != before {
                let i = choose|i: int| #[trigger] is_unlocked_toggle(pool@, before, shield@, i);
                lemma_toggle_keeps(pool@, before, shield@, i);
            }
            lemma_page_change_keeps(before, shield@, blade@);
        }
    }
    if mutation_draw(MutationStep::Toggle, rng) {
        let ghost before = blade@;
        toggle_enabled(blade, pool, rng);
        proof {
            if blade@ != before {
                let i = choose|i: int| #[trigger] is_unlocked_toggle(pool@, before, blade@, i);
                lemma_toggle_keeps(pool@, before, blade@, i);
            }
            lemma_page_change_keeps(before, blade@, shield@);
        }
    }
    assert(held_rules(shield@, blade@) == held_rules(s0, b0));
    assert(le ==> locked_enabled(pool@, shield@) && locked_enabled(pool@, blade@));
    let ghost s3 = shield@;
    let ghost b3 = blade@;
    if mutation_draw(MutationStep::CrossPage, rng) {
        let ghost sb = shield@;
        let ghost bb = blade@;
        cross_page_move(shield, blade, pool, rng);
        proof {
            if shield@ != sb || blade@ != bb {
                let k = choose|k: int| 0 <= k < pool@.rules.len() && movable_across(#[trigger] pool@.rules[k])
                    && (shield@, blade@) == moved_across(sb, bb, pool@.rules[k].id);
                lemma_move_keeps(pool@, sb, bb, pool@.rules[k].id);
            }
        }
    }
    assert(mutation_steps(pool@, s0, b0, s1, b1, s2, b2, s3, b3, shield@, blade@));
}

} // verus!
