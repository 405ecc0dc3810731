//! Order crossover of two page orders. The child keeps the first parent's locked entries
//! and one random segment of it in place, and fills the other positions with the second
//! parent's remaining rules in the second parent's order.

use rand::rngs::ThreadRng;
use vstd::prelude::*;
use vstd::multiset::Multiset;
use crate::random::{chance, random_below, random_between};
use crate::rules::{PoolView, RulePool};
use crate::struct_ops::{entry_index, entry_locked, order_view};

verus! {

/// No two entries of an order are for the same rule.
pub open spec fn distinct_entry_ids(s: Seq<(String, bool)>) -> bool {
    forall|i: int, j: int| 0 <= i < s.len() && 0 <= j < s.len() && i != j ==> s[i].0@ != s[j].0@
}

/// Position `i` of the first parent is kept: its rule is locked or it lies in the
/// segment `[start, end)`.
pub open spec fn ox_kept(p1: Seq<(String, bool)>, pool: PoolView, start: int, end: int, i: int) -> bool {
    entry_locked(pool, p1[i]) || (start <= i < end)
}

/// Rule `id` sits at a kept position of the first parent.
pub open spec fn kept_id(p1: Seq<(String, bool)>, pool: PoolView, start: int, end: int, id: Seq<char>) -> bool {
    let j = entry_index(p1, id);
    j >= 0 && ox_kept(p1, pool, start, end, j)
}

/// The second parent's entries whose rules are not kept, in its order.
pub open spec fn ox_fill(p1: Seq<(String, bool)>, p2: Seq<(String, bool)>, pool: PoolView, start: int, end: int) -> Seq<(String, bool)>
    decreases p2.len(),
{
    if p2.len() == 0 {
        Seq::empty()
    } else {
        let f = ox_fill(p1, p2.drop_last(), pool, start, end);
        if !kept_id(p1, pool, start, end, p2.last().0@) { f.push(p2.last()) } else { f }
    }
}

/// The first parent's entries among its first `n` that are neither kept nor in the
/// second parent.
pub open spec fn ox_left_upto(p1: Seq<(String, bool)>, p2: Seq<(String, bool)>, pool: PoolView, start: int, end: int, n: int) -> Seq<(String, bool)>
    decreases n,
{
    if n <= 0 {
        Seq::empty()
    } else {
        let l = ox_left_upto(p1, p2, pool, start, end, n - 1);
        let e = p1[n - 1];
        if !kept_id(p1, pool, start, end, e.0@) && entry_index(p2, e.0@) < 0 { l.push(e) } else { l }
    }
}

/// The first parent's entries that are neither kept nor in the second parent, in order.
pub open spec fn ox_left(p1: Seq<(String, bool)>, p2: Seq<(String, bool)>, pool: PoolView, start: int, end: int) -> Seq<(String, bool)> {
    ox_left_upto(p1, p2, pool, start, end, p1.len() as int)
}

/// How many positions before `i` are free (not kept).
pub open spec fn free_rank(p1: Seq<(String, bool)>, pool: PoolView, start: int, end: int, i: int) -> nat
    decreases i,
{
    if i <= 0 {
        0
    } else {
        free_rank(p1, pool, start, end, i - 1) + if ox_kept(p1, pool, start, end, i - 1) { 0nat } else { 1nat }
    }
}

/// The enabled flag the first parent has for rule `id` (`false` when it has none).
pub open spec fn inherited_flag(p1: Seq<(String, bool)>, id: Seq<char>) -> bool {
    let j = entry_index(p1, id);
    if j >= 0 { p1[j].1 } else { false }
}

/// The child's entry at `i`: a kept position keeps the first parent's entry; the `r`-th
/// free position takes the `r`-th fill entry, whose flag comes from the first parent when
/// coin `r` says so and from the second otherwise; free positions beyond the fill take the
/// first parent's left-over entries, and an empty entry after those.
pub open spec fn ox_child_at(p1: Seq<(String, bool)>, p2: Seq<(String, bool)>, pool: PoolView, start: int, end: int, coins: Seq<bool>, i: int) -> (Seq<char>, bool) {
    if ox_kept(p1, pool, start, end, i) {
        (p1[i].0@, p1[i].1)
    } else {
        let r = free_rank(p1, pool, start, end, i) as int;
        let fill = ox_fill(p1, p2, pool, start, end);
        let left = ox_left(p1, p2, pool, start, end);
        if r < fill.len() {
            let id = fill[r].0@;
            (id, if coins[r] { inherited_flag(p1, id) } else { fill[r].1 })
        } else if r - fill.len() < left.len() {
            (left[r - fill.len()].0@, left[r - fill.len()].1)
        } else {
            (Seq::empty(), false)
        }
    }
}

/// The child of an order crossover with segment `[start, end)` and flag coins `coins`.
pub open spec fn ox_child(p1: Seq<(String, bool)>, p2: Seq<(String, bool)>, pool: PoolView, start: int, end: int, coins: Seq<bool>) -> Seq<(Seq<char>, bool)> {
    Seq::new(p1.len(), |i: int| ox_child_at(p1, p2, pool, start, end, coins, i))
}

/// How many flag coins a crossover draws: one per free position that the fill reaches.
pub open spec fn coins_needed(p1: Seq<(String, bool)>, p2: Seq<(String, bool)>, pool: PoolView, start: int, end: int) -> nat {
    let f = ox_fill(p1, p2, pool, start, end).len();
    let free = free_rank(p1, pool, start, end, p1.len() as int);
    if f < free { f } else { free }
}

fn copy_entry(e: &(String, bool)) -> (r: (String, bool))
    ensures
        r == *e,
{
    (e.0.clone(), e.1)
}

fn find_in(s: &Vec<(String, bool)>, id: &String) -> (r: Option<usize>)
    ensures
        match r {
            Some(k) => k as int == entry_index(s@, id@) && k < s@.len(),
            None => entry_index(s@, id@) == -1,
        },
{
    crate::struct_ops::find_entry(s, id)
}

/// The kept flags of the first parent's positions.
fn kept_flags(p1: &Vec<(String, bool)>, pool: &RulePool, start: usize, end: usize) -> (r: Vec<bool>)
    ensures
        r@.len() == p1@.len(),
        forall|i: int| 0 <= i < p1@.len() ==> #[trigger] r@[i] == ox_kept(p1@, pool@, start as int, end as int, i),
{
    let mut out: Vec<bool> = Vec::new();
    let mut i: usize = 0;
    while i < p1.len()
        invariant
            i <= p1@.len(),
            out@.len() == i,
            forall|k: int| 0 <= k < i ==> #[trigger] out@[k] == ox_kept(p1@, pool@, start as int, end as int, k),
        decreases p1.len() - i,
    {
        let k = pool.is_locked(p1[i].0.as_str()) || (start <= i && i < end);
        out.push(k);
        i = i + 1;
    }
    out
}

fn is_kept_id(p1: &Vec<(String, bool)>, kept: &Vec<bool>, id: &String, Ghost(pool): Ghost<PoolView>, Ghost(start): Ghost<int>, Ghost(end): Ghost<int>) -> (r: bool)
    requires
        kept@.len() == p1@.len(),
        forall|i: int| 0 <= i < p1@.len() ==> #[trigger] kept@[i] == ox_kept(p1@, pool, start, end, i),
    ensures
        r == kept_id(p1@, pool, start, end, id@),
{
    match find_in(p1, id) {
        Some(j) => kept[j],
        None => false,
    }
}

/// The fill list: the second parent's entries whose rules are not kept.
fn fill_list(p1: &Vec<(String, bool)>, p2: &Vec<(String, bool)>, kept: &Vec<bool>, Ghost(pool): Ghost<PoolView>, Ghost(start): Ghost<int>, Ghost(end): Ghost<int>) -> (r: Vec<(String, bool)>)
    requires
        kept@.len() == p1@.len(),
        forall|i: int| 0 <= i < p1@.len() ==> #[trigger] kept@[i] == ox_kept(p1@, pool, start, end, i),
    ensures
        r@ == ox_fill(p1@, p2@, pool, start, end),
{
    let mut out: Vec<(String, bool)> = Vec::new();
    let mut k: usize = 0;
    while k < p2.len()
        invariant
            k <= p2@.len(),
            kept@.len() == p1@.len(),
            forall|i: int| 0 <= i < p1@.len() ==> #[trigger] kept@[i] == ox_kept(p1@, pool, start, end, i),
            out@ == ox_fill(p1@, p2@.take(k as int), pool, start, end),
        decreases p2.len() - k,
    {
        proof {
            assert(p2@.take(k as int + 1).drop_last() == p2@.take(k as int));
            assert(p2@.take(k as int + 1).last() == p2@[k as int]);
        }
        if !is_kept_id(p1, kept, &p2[k].0, Ghost(pool), Ghost(start), Ghost(end)) {
            out.push(copy_entry(&p2[k]));
        }
        k = k + 1;
    }
    assert(p2@.take(p2@.len() as int) == p2@);
    out
}

/// The left-over list: the first parent's entries neither kept nor in the second parent.
fn left_list(p1: &Vec<(String, bool)>, p2: &Vec<(String, bool)>, kept: &Vec<bool>, Ghost(pool): Ghost<PoolView>, Ghost(start): Ghost<int>, Ghost(end): Ghost<int>) -> (r: Vec<(String, bool)>)
    requires
        kept@.len() == p1@.len(),
        forall|i: int| 0 <= i < p1@.len() ==> #[trigger] kept@[i] == ox_kept(p1@, pool, start, end, i),
    ensures
        r@ == ox_left(p1@, p2@, pool, start, end),
{
    let mut out: Vec<(String, bool)> = Vec::new();
    let mut k: usize = 0;
    while k < p1.len()
        invariant
            k <= p1@.len(),
            kept@.len() == p1@.len(),
            forall|i: int| 0 <= i < p1@.len() ==> #[trigger] kept@[i] == ox_kept(p1@, pool, start, end, i),
            out@ == ox_left_upto(p1@, p2@, pool, start, end, k as int),
        decreases p1.len() - k,
    {
        if !is_kept_id(p1, kept, &p1[k].0, Ghost(pool), Ghost(start), Ghost(end)) && find_in(p2, &p1[k].0).is_none() {
            out.push(copy_entry(&p1[k]));
        }
        k = k + 1;
    }
    out
}

fn flag_of(p1: &Vec<(String, bool)>, id: &String) -> (r: bool)
    ensures
        r == inherited_flag(p1@, id@),
{
    match find_in(p1, id) {
        Some(j) => p1[j].1,
        None => false,
    }
}

/// The crossover child for a given segment `[start, end)` and flag coins (`coins[r]` for
/// the `r`-th filled position: `true` takes the first parent's flag).
pub fn ox_cross_with(
    p1: &Vec<(String, bool)>,
    p2: &Vec<(String, bool)>,
    pool: &RulePool,
    start: usize,
    end: usize,
    coins: &Vec<bool>,
) -> (r: Vec<(String, bool)>)
    requires
        coins@.len() >= coins_needed(p1@, p2@, pool@, start as int, end as int),
    ensures
        order_view(r@) == ox_child(p1@, p2@, pool@, start as int, end as int, coins@),
{
    let ghost pv = pool@;
    let ghost s = start as int;
    let ghost e = end as int;
    let kept = kept_flags(p1, pool, start, end);
    let fill = fill_list(p1, p2, &kept, Ghost(pv), Ghost(s), Ghost(e));
    let left = left_list(p1, p2, &kept, Ghost(pv), Ghost(s), Ghost(e));
    let ghost target = ox_child(p1@, p2@, pv, s, e, coins@);
    let mut child: Vec<(String, bool)> = Vec::new();
    let mut rank: usize = 0;
    let mut i: usize = 0;
    while i < p1.len()
        invariant
            i <= p1@.len(),
            kept@.len() == p1@.len(),
            forall|k: int| 0 <= k < p1@.len() ==> #[trigger] kept@[k] == ox_kept(p1@, pv, s, e, k),
            fill@ == ox_fill(p1@, p2@, pv, s, e),
            left@ == ox_left(p1@, p2@, pv, s, e),
            coins@.len() >= coins_needed(p1@, p2@, pv, s, e),
            rank as nat == free_rank(p1@, pv, s, e, i as int),
            rank <= i,
            target == ox_child(p1@, p2@, pv, s, e, coins@),
            order_view(child@) == target.take(i as int),
        decreases p1.len() - i,
    {
        let ghost prev = child@;
        if kept[i] {
            child.push(copy_entry(&p1[i]));
        } else {
            proof {
                lemma_free_rank_mono(p1@, pv, s, e, i as int + 1, p1@.len() as int);
            }
            if rank < fill.len() {
                let id = fill[rank].0.clone();
                let en = if coins[rank] { flag_of(p1, &id) } else { fill[rank].1 };
                child.push((id, en));
            } else if rank - fill.len() < left.len() {
                child.push(copy_entry(&left[rank - fill.len()]));
            } else {
                child.push((String::new(), false));
            }
            rank = rank + 1;
        }
        assert(order_view(child@) =~= order_view(prev).push(target[i as int]));
        assert(target.take(i as int + 1) =~= target.take(i as int).push(target[i as int]));
        i = i + 1;
    }
    assert(target.take(p1@.len() as int) =~= target);
    child
}

proof fn lemma_free_rank_mono(p1: Seq<(String, bool)>, pool: PoolView, start: int, end: int, a: int, b: int)
    requires
        0 <= a <= b,
    ensures
        free_rank(p1, pool, start, end, a) <= free_rank(p1, pool, start, end, b),
    decreases b - a,
{
    if a < b {
        lemma_free_rank_mono(p1, pool, start, end, a, b - 1);
    }
}

/// How many flag coins the crossover with segment `[start, end)` draws.
fn count_coins(p1: &Vec<(String, bool)>, p2: &Vec<(String, bool)>, pool: &RulePool, start: usize, end: usize) -> (r: usize)
    ensures
        r as nat == coins_needed(p1@, p2@, pool@, start as int, end as int),
{
    let ghost pv = pool@;
    let kept = kept_flags(p1, pool, start, end);
    let fill = fill_list(p1, p2, &kept, Ghost(pv), Ghost(start as int), Ghost(end as int));
    let mut free: usize = 0;
    let mut i: usize = 0;
    while i < p1.len()
        invariant
            i <= p1@.len(),
            kept@.len() == p1@.len(),
            forall|k: int| 0 <= k < p1@.len() ==> #[trigger] kept@[k] == ox_kept(p1@, pv, start as int, end as int, k),
            free as nat == free_rank(p1@, pv, start as int, end as int, i as int),
            free <= i,
        decreases p1.len() - i,
    {
        if !kept[i] {
            free = free + 1;
        }
        i = i + 1;
    }
    if fill.len() < free { fill.len() } else { free }
}

/// The odds `(numerator, denominator)` with which a crossover child takes a filled rule's
/// enabled flag from the first parent rather than the second: 7 in 10.
pub fn flag_inherit_odds() -> (r: (u32, u32))
    ensures
        r == (7u32, 10u32),
{
    (7, 10)
}

/// Order crossover of two page orders. Orders of fewer than three entries are copied from
/// the first parent. Otherwise a random segment `[start, end)` of the first parent and its
/// locked entries stay in place, the other positions take the second parent's remaining
/// rules in its order (each flag from the first parent with probability 7/10, else from the
/// second), then the first parent's rules that the second lacks.
pub fn ox_cross(p1: &Vec<(String, bool)>, p2: &Vec<(String, bool)>, pool: &RulePool, rng: &mut ThreadRng) -> (r: Vec<(String, bool)>)
    ensures
        p1@.len() < 3 ==> r@ == p1@,
        p1@.len() >= 3 ==> exists|start: int, end: int, coins: Seq<bool>|
            0 <= start < end <= p1@.len()
            && coins.len() == coins_needed(p1@, p2@, pool@, start, end)
            && #[trigger] order_view(r@) == ox_child(p1@, p2@, pool@, start, end, coins),
        r@.len() == p1@.len(),
        forall|i: int| 0 <= i < p1@.len() && entry_locked(pool@, #[trigger] p1@[i]) ==> order_view(r@)[i] == (p1@[i].0@, p1@[i].1),
        distinct_entry_ids(p1@) && distinct_entry_ids(p2@) && ids_of(p1@).to_multiset() == ids_of(p2@).to_multiset()
            ==> ids_of(r@).to_multiset() == ids_of(p1@).to_multiset(),
{
    let n = p1.len();
    if n < 3 {
        let mut out: Vec<(String, bool)> = Vec::new();
        let mut i: usize = 0;
        while i < n
            invariant
                i <= n,
                n == p1@.len(),
                out@ == p1@.take(i as int),
            decreases n - i,
        {
            out.push(copy_entry(&p1[i]));
            assert(p1@.take(i as int + 1) == p1@.take(i as int).push(p1@[i as int]));
            i = i + 1;
        }
        assert(p1@.take(n as int) == p1@);
        return out;
    }
    let start = random_below(rng, n);
    let end = random_between(rng, start + 1, n);
    let needed = count_coins(p1, p2, pool, start, end);
    let mut coins: Vec<bool> = Vec::new();
    let mut k: usize = 0;
    while k < needed
        invariant
            k <= needed,
            coins@.len() == k,
        decreases needed - k,
    {
        let (num, den) = flag_inherit_odds();
        coins.push(chance(rng, num, den));
        k = k + 1;
    }
    let child = ox_cross_with(p1, p2, pool, start, end, &coins);
    assert(order_view(child@).len() == child@.len());
    assert forall|i: int| 0 <= i < p1@.len() && entry_locked(pool@, #[trigger] p1@[i]) implies order_view(child@)[i] == (p1@[i].0@, p1@[i].1) by {
        assert(ox_kept(p1@, pool@, start as int, end as int, i));
        assert(order_view(child@)[i] == ox_child(p1@, p2@, pool@, start as int, end as int, coins@)[i]);
    }
    proof {
        assert(ids_of(child@) =~= child_ids(order_view(child@)));
        if distinct_entry_ids(p1@) && distinct_entry_ids(p2@) && ids_of(p1@).to_multiset() == ids_of(p2@).to_multiset() {
            law_ox_child_is_permutation(p1@, p2@, pool@, start as int, end as int, coins@);
        }
    }
    child
}

/// The rule ids of the free positions among the first `n` of the first parent.
pub open spec fn free_ids(p1: Seq<(String, bool)>, pool: PoolView, start: int, end: int, n: int) -> Seq<Seq<char>>
    decreases n,
{
    if n <= 0 {
        Seq::empty()
    } else {
        free_ids(p1, pool, start, end, n - 1) + if !ox_kept(p1, pool, start, end, n - 1) { seq![p1[n - 1].0@] } else { Seq::empty() }
    }
}

/// The rule ids of the kept positions among the first `n` of the first parent.
pub open spec fn kept_ids(p1: Seq<(String, bool)>, pool: PoolView, start: int, end: int, n: int) -> Seq<Seq<char>>
    decreases n,
{
    if n <= 0 {
        Seq::empty()
    } else {
        kept_ids(p1, pool, start, end, n - 1) + if ox_kept(p1, pool, start, end, n - 1) { seq![p1[n - 1].0@] } else { Seq::empty() }
    }
}

/// The ids of `ids` whose rules are not kept, in order.
pub open spec fn unkept(ids: Seq<Seq<char>>, p1: Seq<(String, bool)>, pool: PoolView, start: int, end: int) -> Seq<Seq<char>>
    decreases ids.len(),
{
    if ids.len() == 0 {
        Seq::empty()
    } else {
        unkept(ids.drop_last(), p1, pool, start, end) + if !kept_id(p1, pool, start, end, ids.last()) { seq![ids.last()] } else { Seq::empty() }
    }
}

/// The rule ids of an order.
pub open spec fn ids_of(o: Seq<(String, bool)>) -> Seq<Seq<char>> {
    o.map_values(|e: (String, bool)| e.0@)
}

/// The rule ids of a child.
pub open spec fn child_ids(c: Seq<(Seq<char>, bool)>) -> Seq<Seq<char>> {
    c.map_values(|e: (Seq<char>, bool)| e.0)
}

proof fn lemma_empty_to_multiset(s: Seq<Seq<char>>)
    requires
        s.len() == 0,
    ensures
        s.to_multiset() == Multiset::<Seq<char>>::empty(),
{
    vstd::seq_lib::to_multiset_len(s);
    vstd::multiset::lemma_multiset_empty_len(s.to_multiset());
}

proof fn lemma_fill_ids(p1: Seq<(String, bool)>, p2: Seq<(String, bool)>, pool: PoolView, start: int, end: int)
    ensures
        ids_of(ox_fill(p1, p2, pool, start, end)) == unkept(ids_of(p2), p1, pool, start, end),
    decreases p2.len(),
{
    if p2.len() > 0 {
        lemma_fill_ids(p1, p2.drop_last(), pool, start, end);
        assert(ids_of(p2).drop_last() == ids_of(p2.drop_last()));
        assert(ids_of(p2).last() == p2.last().0@);
        let f = ox_fill(p1, p2.drop_last(), pool, start, end);
        if !kept_id(p1, pool, start, end, p2.last().0@) {
            assert(ids_of(f.push(p2.last())) =~= ids_of(f) + seq![p2.last().0@]);
        } else {
            assert(ids_of(f) =~= ids_of(f) + Seq::<Seq<char>>::empty());
        }
    } else {
        assert(ids_of(ox_fill(p1, p2, pool, start, end)) =~= Seq::<Seq<char>>::empty());
    }
}

proof fn lemma_free_ids_unkept(p1: Seq<(String, bool)>, pool: PoolView, start: int, end: int, n: int)
    requires
        0 <= n <= p1.len(),
        distinct_entry_ids(p1),
    ensures
        free_ids(p1, pool, start, end, n) == unkept(ids_of(p1).take(n), p1, pool, start, end),
    decreases n,
{
    if n > 0 {
        lemma_free_ids_unkept(p1, pool, start, end, n - 1);
        assert(ids_of(p1).take(n).drop_last() == ids_of(p1).take(n - 1));
        assert(ids_of(p1).take(n).last() == p1[n - 1].0@);
        crate::struct_ops::lemma_entry_index_pub(p1, p1[n - 1].0@, n - 1);
        assert(entry_index(p1, p1[n - 1].0@) == n - 1);
    } else {
        assert(ids_of(p1).take(0) =~= Seq::<Seq<char>>::empty());
    }
}

proof fn lemma_unkept_count(ids: Seq<Seq<char>>, p1: Seq<(String, bool)>, pool: PoolView, start: int, end: int, y: Seq<char>)
    ensures
        unkept(ids, p1, pool, start, end).to_multiset().count(y)
            == if !kept_id(p1, pool, start, end, y) { ids.to_multiset().count(y) } else { 0 },
    decreases ids.len(),
{
    broadcast use vstd::seq_lib::to_multiset_build, vstd::seq_lib::lemma_multiset_commutative,
        vstd::multiset::group_multiset_axioms;
    if ids.len() > 0 {
        lemma_unkept_count(ids.drop_last(), p1, pool, start, end, y);
        let x = ids.last();
        let u = unkept(ids.drop_last(), p1, pool, start, end);
        assert(ids.drop_last().push(x) == ids);
        if !kept_id(p1, pool, start, end, x) {
            assert(u + seq![x] == u.push(x));
        } else {
            assert(u + Seq::<Seq<char>>::empty() == u);
        }
    } else {
        lemma_empty_to_multiset(ids);
        lemma_empty_to_multiset(unkept(ids, p1, pool, start, end));
    }
}

proof fn lemma_free_rank_len(p1: Seq<(String, bool)>, pool: PoolView, start: int, end: int, n: int)
    requires
        0 <= n,
    ensures
        free_ids(p1, pool, start, end, n).len() == free_rank(p1, pool, start, end, n),
    decreases n,
{
    if n > 0 {
        lemma_free_rank_len(p1, pool, start, end, n - 1);
    }
}

proof fn lemma_p1_split(p1: Seq<(String, bool)>, pool: PoolView, start: int, end: int, n: int)
    requires
        0 <= n <= p1.len(),
    ensures
        ids_of(p1).take(n).to_multiset()
            == kept_ids(p1, pool, start, end, n).to_multiset().add(free_ids(p1, pool, start, end, n).to_multiset()),
    decreases n,
{
    broadcast use vstd::seq_lib::to_multiset_build, vstd::seq_lib::lemma_multiset_commutative,
        vstd::multiset::group_multiset_axioms;
    if n > 0 {
        lemma_p1_split(p1, pool, start, end, n - 1);
        assert(ids_of(p1).take(n) == ids_of(p1).take(n - 1).push(p1[n - 1].0@));
        assert(ids_of(p1).take(n).to_multiset() =~= kept_ids(p1, pool, start, end, n).to_multiset().add(
            free_ids(p1, pool, start, end, n).to_multiset()));
    } else {
        assert(ids_of(p1).take(0) =~= Seq::<Seq<char>>::empty());
        lemma_empty_to_multiset(ids_of(p1).take(0));
        lemma_empty_to_multiset(kept_ids(p1, pool, start, end, 0));
        lemma_empty_to_multiset(free_ids(p1, pool, start, end, 0));
    }
}

proof fn lemma_child_split(p1: Seq<(String, bool)>, p2: Seq<(String, bool)>, pool: PoolView, start: int, end: int, coins: Seq<bool>, n: int)
    requires
        0 <= n <= p1.len(),
        free_rank(p1, pool, start, end, p1.len() as int) <= ox_fill(p1, p2, pool, start, end).len(),
    ensures
        child_ids(ox_child(p1, p2, pool, start, end, coins)).take(n).to_multiset()
            == kept_ids(p1, pool, start, end, n).to_multiset().add(
                ids_of(ox_fill(p1, p2, pool, start, end)).take(free_rank(p1, pool, start, end, n) as int).to_multiset()),
    decreases n,
{
    broadcast use vstd::seq_lib::to_multiset_build, vstd::seq_lib::lemma_multiset_commutative,
        vstd::multiset::group_multiset_axioms;
    let c = child_ids(ox_child(p1, p2, pool, start, end, coins));
    let fill = ox_fill(p1, p2, pool, start, end);
    let fi = ids_of(fill);
    if n > 0 {
        lemma_child_split(p1, p2, pool, start, end, coins, n - 1);
        lemma_free_rank_mono(p1, pool, start, end, n, p1.len() as int);
        assert(c.take(n) == c.take(n - 1).push(c[n - 1]));
        let r = free_rank(p1, pool, start, end, n - 1) as int;
        if ox_kept(p1, pool, start, end, n - 1) {
            assert(c[n - 1] == p1[n - 1].0@);
            assert(kept_ids(p1, pool, start, end, n) == kept_ids(p1, pool, start, end, n - 1).push(p1[n - 1].0@));
            assert(free_rank(p1, pool, start, end, n) == r);
            assert(c.take(n).to_multiset() =~= kept_ids(p1, pool, start, end, n).to_multiset().add(
                fi.take(free_rank(p1, pool, start, end, n) as int).to_multiset()));
        } else {
            assert(r < fill.len());
            assert(c[n - 1] == fill[r].0@);
            assert(fi.take(r + 1) == fi.take(r).push(fi[r]));
            assert(kept_ids(p1, pool, start, end, n) == kept_ids(p1, pool, start, end, n - 1));
            assert(free_rank(p1, pool, start, end, n) == r + 1);
            assert(c.take(n).to_multiset() =~= kept_ids(p1, pool, start, end, n).to_multiset().add(
                fi.take(free_rank(p1, pool, start, end, n) as int).to_multiset()));
        }
    } else {
        assert(c.take(0) =~= Seq::<Seq<char>>::empty());
        assert(fi.take(0) =~= Seq::<Seq<char>>::empty());
        lemma_empty_to_multiset(c.take(0));
        lemma_empty_to_multiset(fi.take(0));
        lemma_empty_to_multiset(kept_ids(p1, pool, start, end, 0));
    }
}

/// When both parents hold the same rules, each once, the child holds exactly those rules:
/// the crossover only reorders.
pub proof fn law_ox_child_is_permutation(p1: Seq<(String, bool)>, p2: Seq<(String, bool)>, pool: PoolView, start: int, end: int, coins: Seq<bool>)
    requires
        distinct_entry_ids(p1),
        distinct_entry_ids(p2),
        ids_of(p1).to_multiset() == ids_of(p2).to_multiset(),
    ensures
        child_ids(ox_child(p1, p2, pool, start, end, coins)).to_multiset() == ids_of(p1).to_multiset(),
{
    broadcast use vstd::seq_lib::group_to_multiset_ensures, vstd::multiset::group_multiset_axioms;
    let n = p1.len() as int;
    let fill = ox_fill(p1, p2, pool, start, end);
    lemma_fill_ids(p1, p2, pool, start, end);
    lemma_free_ids_unkept(p1, pool, start, end, n);
    assert(ids_of(p1).take(n) == ids_of(p1));
    assert forall|y: Seq<char>| #![trigger ids_of(fill).to_multiset().count(y)]
        ids_of(fill).to_multiset().count(y) == free_ids(p1, pool, start, end, n).to_multiset().count(y) by {
        lemma_unkept_count(ids_of(p2), p1, pool, start, end, y);
        lemma_unkept_count(ids_of(p1), p1, pool, start, end, y);
    }
    assert(ids_of(fill).to_multiset() =~= free_ids(p1, pool, start, end, n).to_multiset());
    vstd::seq_lib::to_multiset_len(ids_of(fill));
    vstd::seq_lib::to_multiset_len(free_ids(p1, pool, start, end, n));
    lemma_free_rank_len(p1, pool, start, end, n);
    assert(ids_of(fill).len() == fill.len());
    lemma_child_split(p1, p2, pool, start, end, coins, n);
    lemma_p1_split(p1, pool, start, end, n);
    let c = child_ids(ox_child(p1, p2, pool, start, end, coins));
    assert(c.take(n) == c);
    assert(ids_of(fill).take(fill.len() as int) == ids_of(fill));
}

} // verus!
