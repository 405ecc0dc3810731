//! How far apart two individuals are in the rules they enable.

use vstd::prelude::*;
use crate::rules::strings_view;
use crate::struct_ops::contains_str;

verus! {

/// The rules that an order enables.
pub open spec fn enabled_in(o: Seq<(String, bool)>) -> Set<Seq<char>> {
    Set::new(|id: Seq<char>| exists|i: int| #![trigger o[i]] 0 <= i < o.len() && o[i].1 && o[i].0@ == id)
}

/// The rules that an individual enables on either page.
pub open spec fn enabled_rules(shield: Seq<(String, bool)>, blade: Seq<(String, bool)>) -> Set<Seq<char>> {
    enabled_in(shield) + enabled_in(blade)
}

/// Appends to `acc` the rules that `o` enables and `acc` lacks.
fn collect_enabled(o: &Vec<(String, bool)>, acc: &mut Vec<String>)
    requires
        strings_view(old(acc)@).no_duplicates(),
    ensures
        strings_view(final(acc)@).no_duplicates(),
        strings_view(final(acc)@).to_set() == strings_view(old(acc)@).to_set() + enabled_in(o@),
        final(acc)@.len() <= old(acc)@.len() + o@.len(),
{
    let ghost n0 = acc@.len();
    let ghost start = strings_view(acc@).to_set();
    let mut i: usize = 0;
    while i < o.len()
        invariant
            i <= o@.len(),
            strings_view(acc@).no_duplicates(),
            strings_view(acc@).to_set() == start + enabled_in(o@.take(i as int)),
            acc@.len() <= n0 + i,
        decreases o.len() - i,
    {
        let ghost before = strings_view(acc@);
        if o[i].1 && !contains_str(acc, &o[i].0) {
            acc.push(o[i].0.clone());
            proof {
                let x = o@[i as int].0@;
                assert(strings_view(acc@) == before.push(x));
                assert forall|y: Seq<char>| #![trigger strings_view(acc@).contains(y)]
                    strings_view(acc@).contains(y) == (before.contains(y) || y == x) by {
                    if before.contains(y) {
                        let k = choose|k: int| 0 <= k < before.len() && #[trigger] before[k] == y;
                        assert(strings_view(acc@)[k] == y);
                    }
                    if y == x {
                        assert(strings_view(acc@)[before.len() as int] == y);
                    }
                }
                assert forall|a: int, b: int| 0 <= a < strings_view(acc@).len() && 0 <= b < strings_view(acc@).len() && a != b
                    implies strings_view(acc@)[a] != strings_view(acc@)[b] by {
                    if a < before.len() && b < before.len() {
                    } else if a < before.len() {
                        assert(before[a] == strings_view(acc@)[a]);
                    } else if b < before.len() {
                        assert(before[b] == strings_view(acc@)[b]);
                    }
                }
            }
        }
        proof {
            assert forall|y: Seq<char>| #![trigger strings_view(acc@).contains(y)]
                strings_view(acc@).contains(y) == (before.contains(y) || (o@[i as int].1 && o@[i as int].0@ == y)) by {
            }
        }
        proof {
            let t = o@.take(i as int + 1);
            assert forall|id: Seq<char>| #![trigger enabled_in(t).contains(id)]
                enabled_in(t).contains(id) == (enabled_in(o@.take(i as int)).contains(id) || (o@[i as int].1 && o@[i as int].0@ == id)) by {
                if enabled_in(t).contains(id) {
                    let k = choose|k: int| #![trigger t[k]] 0 <= k < t.len() && t[k].1 && t[k].0@ == id;
                    if k < i {
                        assert(o@.take(i as int)[k] == t[k]);
                    }
                }
                if enabled_in(o@.take(i as int)).contains(id) {
                    let k = choose|k: int| #![trigger o@.take(i as int)[k]] 0 <= k < i && o@.take(i as int)[k].1 && o@.take(i as int)[k].0@ == id;
                    assert(t[k] == o@.take(i as int)[k]);
                }
                if o@[i as int].1 && o@[i as int].0@ == id {
                    assert(t[i as int] == o@[i as int]);
                }
            }
            assert forall|y: Seq<char>| #![trigger strings_view(acc@).to_set().contains(y)]
                strings_view(acc@).to_set().contains(y) == (start + enabled_in(t)).contains(y) by {
                assert(strings_view(acc@).contains(y) == (before.contains(y) || (o@[i as int].1 && o@[i as int].0@ == y)));
                assert(before.to_set().contains(y) == before.contains(y));
                assert(enabled_in(t).contains(y) == (enabled_in(o@.take(i as int)).contains(y) || (o@[i as int].1 && o@[i as int].0@ == y)));
            }
            assert(strings_view(acc@).to_set() =~= start + enabled_in(t));
        }
        i = i + 1;
    }
    assert(o@.take(o@.len() as int) == o@);
}

/// How many of the distinct rules `xs` are missing from `ys`.
fn count_missing(xs: &Vec<String>, ys: &Vec<String>) -> (r: usize)
    requires
        strings_view(xs@).no_duplicates(),
    ensures
        r as nat == strings_view(xs@).to_set().difference(strings_view(ys@).to_set()).len(),
        r <= xs@.len(),
{
    broadcast use vstd::seq_lib::seq_to_set_is_finite;
    let ghost xv = strings_view(xs@);
    let ghost yv = strings_view(ys@);
    let ghost mut kept: Seq<Seq<char>> = Seq::empty();
    let mut n: usize = 0;
    let mut i: usize = 0;
    while i < xs.len()
        invariant
            i <= xs@.len(),
            xv == strings_view(xs@),
            yv == strings_view(ys@),
            xv.no_duplicates(),
            kept.no_duplicates(),
            n as nat == kept.len(),
            n <= i,
            kept.to_set() == xv.take(i as int).to_set().difference(yv.to_set()),
        decreases xs.len() - i,
    {
        let ghost before = kept;
        let ghost x = xv[i as int];
        if !contains_str(ys, &xs[i]) {
            proof {
                assert(!before.contains(x)) by {
                    if before.contains(x) {
                        assert(before.to_set().contains(x));
                        let k = choose|k: int| 0 <= k < i && #[trigger] xv.take(i as int)[k] == x;
                        assert(xv[k] == xv[i as int]);
                    }
                }
                kept = before.push(x);
                assert forall|a: int, b: int| 0 <= a < kept.len() && 0 <= b < kept.len() && a != b
                    implies kept[a] != kept[b] by {
                    if a < before.len() && b < before.len() {
                    } else if a < before.len() {
                        assert(before[a] == kept[a]);
                        assert(before.contains(kept[a]));
                    } else if b < before.len() {
                        assert(before[b] == kept[b]);
                        assert(before.contains(kept[b]));
                    }
                }
            }
            n = n + 1;
        }
        proof {
            let t = xv.take(i as int + 1);
            assert(t == xv.take(i as int).push(x));
            assert forall|y: Seq<char>| #![trigger kept.to_set().contains(y)]
                kept.to_set().contains(y) == t.to_set().difference(yv.to_set()).contains(y) by {
                assert(t.contains(y) == (xv.take(i as int).contains(y) || y == x)) by {
                    if t.contains(y) {
                        let k = choose|k: int| 0 <= k < t.len() && #[trigger] t[k] == y;
                        if k < i {
                            assert(xv.take(i as int)[k] == y);
                        }
                    }
                    if xv.take(i as int).contains(y) {
                        let k = choose|k: int| 0 <= k < i && #[trigger] xv.take(i as int)[k] == y;
                        assert(t[k] == y);
                    }
                    if y == x {
                        assert(t[i as int] == y);
                    }
                }
                assert(kept.contains(y) == (before.contains(y) || (y == x && !yv.contains(x)))) by {
                    if kept.contains(y) && kept != before {
                        let k = choose|k: int| 0 <= k < kept.len() && #[trigger] kept[k] == y;
                        if k < before.len() {
                            assert(before[k] == y);
                        }
                    }
                    if before.contains(y) && kept != before {
                        let k = choose|k: int| 0 <= k < before.len() && #[trigger] before[k] == y;
                        assert(kept[k] == y);
                    }
                    if y == x && !yv.contains(x) {
                        assert(kept[before.len() as int] == y);
                    }
                }
                assert(before.to_set().contains(y) == before.contains(y));
            }
            assert(kept.to_set() =~= t.to_set().difference(yv.to_set()));
        }
        i = i + 1;
    }
    proof {
        assert(xv.take(xs@.len() as int) == xv);
        kept.unique_seq_to_set();
    }
    n
}

/// The size of a symmetric difference of two finite sets is the sum of the sizes of the
/// two one-sided differences, and their union is the first set plus what only the
/// second holds.
proof fn lemma_difference_sizes(a: Set<Seq<char>>, b: Set<Seq<char>>)
    requires
        a.finite(),
        b.finite(),
    ensures
        (a.difference(b) + b.difference(a)).len() == a.difference(b).len() + b.difference(a).len(),
        (a + b).len() == a.len() + b.difference(a).len(),
{
    vstd::set_lib::lemma_set_disjoint_lens(a.difference(b), b.difference(a));
    vstd::set_lib::lemma_set_disjoint_lens(a, b.difference(a));
    assert(a + b.difference(a) =~= a + b);
}

/// How far apart two individuals are in the rules they enable, as a fraction: the
/// numerator counts the rules that exactly one of them enables (on either page), the
/// denominator those that either enables, and at least one.
pub fn enabled_set_distance(
    a_shield: &Vec<(String, bool)>,
    a_blade: &Vec<(String, bool)>,
    b_shield: &Vec<(String, bool)>,
    b_blade: &Vec<(String, bool)>,
) -> (r: (usize, usize))
    requires
        a_shield@.len() + a_blade@.len() + b_shield@.len() + b_blade@.len() <= usize::MAX,
    ensures
        ({
            let ea = enabled_rules(a_shield@, a_blade@);
            let eb = enabled_rules(b_shield@, b_blade@);
            &&& r.0 as nat == (ea.difference(eb) + eb.difference(ea)).len()
            &&& r.1 as nat == if (ea + eb).len() == 0 { 1 } else { (ea + eb).len() }
        }),
{
    broadcast use vstd::seq_lib::seq_to_set_is_finite;
    let mut va: Vec<String> = Vec::new();
    collect_enabled(a_shield, &mut va);
    collect_enabled(a_blade, &mut va);
    let mut vb: Vec<String> = Vec::new();
    collect_enabled(b_shield, &mut vb);
    collect_enabled(b_blade, &mut vb);
    let ghost ea = enabled_rules(a_shield@, a_blade@);
    let ghost eb = enabled_rules(b_shield@, b_blade@);
    proof {
        assert(strings_view(Seq::<String>::empty()).to_set() =~= Set::<Seq<char>>::empty());
        assert(strings_view(va@).to_set() =~= ea);
        assert(strings_view(vb@).to_set() =~= eb);
        strings_view(va@).unique_seq_to_set();
        lemma_difference_sizes(ea, eb);
    }
    let only_a = count_missing(&va, &vb);
    let only_b = count_missing(&vb, &va);
    let union = va.len() + only_b;
    (only_a + only_b, if union == 0 { 1 } else { union })
}

} // verus!
