//! Rendering a structure individual into macro pages. A page holds at most 128 counted
//! characters; while it is over, its last unlocked rule is dropped.

use vstd::prelude::*;
use crate::compact::{compact_len, compact_spec};
use crate::macro_text::{clone_macro_line, line_text_spec, serialize_line, MacroConfig, MacroLine, MacroLineView, MacroPage, RenderResult};
use crate::model::Stance;
use crate::rules::{rule_of, strings_view, RuleView, RulePool};
use crate::struct_ops::{compute_struct_diff, StructDiff};

verus! {

/// Most characters the game takes on one macro page.
pub const MAX_PAGE_CHARS: usize = 128;

/// A rule staged for a page: its id, the counted characters of its line, and its lock.
#[derive(Debug, Clone)]
pub struct StagedRule {
    pub id: String,
    pub chars: usize,
    pub locked: bool,
}

/// A staged rule as a value.
pub ghost struct StagedView {
    pub id: Seq<char>,
    pub chars: nat,
    pub locked: bool,
}

impl View for StagedRule {
    type V = StagedView;

    open spec fn view(&self) -> StagedView {
        StagedView { id: self.id@, chars: self.chars as nat, locked: self.locked }
    }
}

/// The contents of staged rules.
pub open spec fn staged_view(s: Seq<StagedRule>) -> Seq<StagedView> {
    s.map_values(|r: StagedRule| r@)
}

/// The characters of the lines plus one line break after each.
pub open spec fn chars_with_breaks(s: Seq<StagedView>) -> nat
    decreases s.len(),
{
    if s.len() == 0 {
        0
    } else {
        chars_with_breaks(s.drop_last()) + s.last().chars + 1
    }
}

/// The counted characters of a page: its lines joined by line breaks.
pub open spec fn page_chars(s: Seq<StagedView>) -> nat {
    if s.len() == 0 { 0 } else { (chars_with_breaks(s) - 1) as nat }
}

/// The position of the last unlocked rule, or -1.
pub open spec fn last_unlocked(s: Seq<StagedView>) -> int
    decreases s.len(),
{
    if s.len() == 0 {
        -1
    } else if !s.last().locked {
        s.len() - 1
    } else {
        last_unlocked(s.drop_last())
    }
}

/// The page after the budget: the rules kept, and the ids dropped in the order they were
/// dropped. While the page is over the budget, its last unlocked rule is dropped; when only
/// locked rules are left the page is kept as it is.
pub open spec fn fit_page_spec(s: Seq<StagedView>) -> (Seq<StagedView>, Seq<Seq<char>>)
    decreases s.len(),
{
    if page_chars(s) <= MAX_PAGE_CHARS || last_unlocked(s) < 0 {
        (s, Seq::empty())
    } else {
        let p = last_unlocked(s);
        proof {
            lemma_last_unlocked(s);
        }
        let (kept, dropped) = fit_page_spec(s.remove(p));
        (kept, seq![s[p].id] + dropped)
    }
}

/// The ids of staged rules.
pub open spec fn staged_ids(s: Seq<StagedView>) -> Seq<Seq<char>> {
    s.map_values(|r: StagedView| r.id)
}

pub proof fn lemma_last_unlocked(s: Seq<StagedView>)
    ensures
        -1 <= last_unlocked(s) < s.len(),
        last_unlocked(s) >= 0 ==> !s[last_unlocked(s)].locked,
        last_unlocked(s) < 0 ==> forall|k: int| 0 <= k < s.len() ==> (#[trigger] s[k]).locked,
    decreases s.len(),
{
    if s.len() > 0 {
        lemma_last_unlocked(s.drop_last());
        if s.last().locked {
            assert forall|k: int| 0 <= k < s.len() && last_unlocked(s) < 0 implies (#[trigger] s[k]).locked by {
                if k < s.len() - 1 {
                    assert(s.drop_last()[k] == s[k]);
                }
            }
        }
    }
}

proof fn lemma_chars_fit(s: Seq<StagedView>, n: int)
    requires
        0 <= n <= s.len(),
    ensures
        chars_with_breaks(s.take(n)) <= chars_with_breaks(s),
    decreases s.len(),
{
    if n < s.len() {
        assert(s.drop_last().take(n) == s.take(n));
        lemma_chars_fit(s.drop_last(), n);
    } else {
        assert(s.take(n) == s);
    }
}

fn total_chars(staged: &Vec<StagedRule>) -> (t: usize)
    requires
        chars_with_breaks(staged_view(staged@)) <= usize::MAX,
    ensures
        t == page_chars(staged_view(staged@)),
{
    let ghost sv = staged_view(staged@);
    let mut sum: usize = 0;
    let mut i: usize = 0;
    while i < staged.len()
        invariant
            i <= staged@.len(),
            sv == staged_view(staged@),
            chars_with_breaks(sv) <= usize::MAX,
            sum == chars_with_breaks(sv.take(i as int)),
        decreases staged.len() - i,
    {
        proof {
            assert(sv.take(i as int + 1).drop_last() == sv.take(i as int));
            lemma_chars_fit(sv, i as int + 1);
        }
        sum = sum + staged[i].chars + 1;
        i = i + 1;
    }
    assert(sv.take(sv.len() as int) == sv);
    if sum == 0 { 0 } else { sum - 1 }
}

fn find_last_unlocked(staged: &Vec<StagedRule>) -> (r: Option<usize>)
    ensures
        match r {
            Some(p) => p as int == last_unlocked(staged_view(staged@)),
            None => last_unlocked(staged_view(staged@)) < 0,
        },
{
    let ghost sv = staged_view(staged@);
    let mut i: usize = staged.len();
    assert(sv.take(sv.len() as int) == sv);
    while i > 0
        invariant
            i <= staged@.len(),
            sv == staged_view(staged@),
            last_unlocked(sv) == last_unlocked(sv.take(i as int)),
        decreases i,
    {
        assert(sv.take(i as int).drop_last() == sv.take(i as int - 1));
        if !staged[i - 1].locked {
            return Some(i - 1);
        }
        i = i - 1;
    }
    None
}

proof fn lemma_remove_chars(s: Seq<StagedView>, p: int)
    requires
        0 <= p < s.len(),
    ensures
        chars_with_breaks(s.remove(p)) + s[p].chars + 1 == chars_with_breaks(s),
    decreases s.len(),
{
    if p < s.len() - 1 {
        assert(s.remove(p).drop_last() == s.drop_last().remove(p));
        assert(s.remove(p).last() == s.last());
        lemma_remove_chars(s.drop_last(), p);
    } else {
        assert(s.remove(p) == s.drop_last());
    }
}

/// Drops rules from a staged page until it fits: while over 128 characters, the last
/// unlocked rule goes. Returns the ids kept, in order, and the ids dropped, in the order
/// they were dropped.
pub fn fit_page(staged: Vec<StagedRule>) -> (r: (Vec<String>, Vec<String>))
    requires
        chars_with_breaks(staged_view(staged@)) <= usize::MAX,
    ensures
        r.0@.map_values(|s: String| s@) == staged_ids(fit_page_spec(staged_view(staged@)).0),
        r.1@.map_values(|s: String| s@) == fit_page_spec(staged_view(staged@)).1,
{
    let ghost orig = staged_view(staged@);
    let mut staged = staged;
    let mut dropped: Vec<String> = Vec::new();
    loop
        invariant
            chars_with_breaks(staged_view(staged@)) <= usize::MAX,
            fit_page_spec(orig).0 == fit_page_spec(staged_view(staged@)).0,
            fit_page_spec(orig).1 == dropped@.map_values(|s: String| s@) + fit_page_spec(staged_view(staged@)).1,
        ensures
            page_chars(staged_view(staged@)) <= MAX_PAGE_CHARS || last_unlocked(staged_view(staged@)) < 0,
            fit_page_spec(orig).0 == fit_page_spec(staged_view(staged@)).0,
            fit_page_spec(orig).1 == dropped@.map_values(|s: String| s@) + fit_page_spec(staged_view(staged@)).1,
        decreases staged@.len(),
    {
        let ghost sv = staged_view(staged@);
        let total = total_chars(&staged);
        if total <= MAX_PAGE_CHARS {
            break;
        }
        match find_last_unlocked(&staged) {
            None => {
                break;
            },
            Some(p) => {
                proof {
                    lemma_last_unlocked(sv);
                    lemma_remove_chars(sv, p as int);
                }
                let gone = staged.remove(p);
                assert(staged_view(staged@) =~= sv.remove(p as int));
                let ghost before = dropped@;
                dropped.push(gone.id);
                assert(dropped@.map_values(|s: String| s@) =~= before.map_values(|s: String| s@).push(sv[p as int].id));
                assert(seq![sv[p as int].id] + fit_page_spec(sv.remove(p as int)).1
                    =~= seq![sv[p as int].id] + fit_page_spec(staged_view(staged@)).1);
                assert(before.map_values(|s: String| s@) + (seq![sv[p as int].id] + fit_page_spec(staged_view(staged@)).1)
                    =~= before.map_values(|s: String| s@).push(sv[p as int].id) + fit_page_spec(staged_view(staged@)).1);
            },
        }
    }
    let ghost sv = staged_view(staged@);
    assert(fit_page_spec(sv).1 =~= Seq::<Seq<char>>::empty());
    assert(dropped@.map_values(|s: String| s@) + Seq::<Seq<char>>::empty() =~= dropped@.map_values(|s: String| s@));
    let mut kept: Vec<String> = Vec::new();
    let mut i: usize = 0;
    while i < staged.len()
        invariant
            i <= staged@.len(),
            sv == staged_view(staged@),
            kept@.map_values(|s: String| s@) == staged_ids(sv).take(i as int),
        decreases staged.len() - i,
    {
        let ghost before = kept@;
        kept.push(staged[i].id.clone());
        assert(staged_ids(sv)[i as int] == staged@[i as int].id@);
        assert(kept@.map_values(|s: String| s@) =~= before.map_values(|s: String| s@).push(staged@[i as int].id@));
        assert(staged_ids(sv).take(i as int + 1) =~= staged_ids(sv).take(i as int).push(staged_ids(sv)[i as int]));
        i = i + 1;
    }
    assert(staged_ids(sv).take(sv.len() as int) =~= staged_ids(sv));
    (kept, dropped)
}

/// The budget keeps what it must: the kept page fits, or holds only locked rules; no
/// locked rule is dropped; and every rule is either kept or dropped.
pub proof fn law_fit_page(s: Seq<StagedView>)
    ensures
        page_chars(fit_page_spec(s).0) <= MAX_PAGE_CHARS
            || forall|k: int| 0 <= k < fit_page_spec(s).0.len() ==> (#[trigger] fit_page_spec(s).0[k]).locked,
        forall|k: int| 0 <= k < s.len() && (#[trigger] s[k]).locked ==> fit_page_spec(s).0.contains(s[k]),
        fit_page_spec(s).0.len() + fit_page_spec(s).1.len() == s.len(),
    decreases s.len(),
{
    lemma_last_unlocked(s);
    if !(page_chars(s) <= MAX_PAGE_CHARS || last_unlocked(s) < 0) {
        let p = last_unlocked(s);
        let rest = s.remove(p);
        law_fit_page(rest);
        assert forall|k: int| 0 <= k < s.len() && (#[trigger] s[k]).locked implies fit_page_spec(s).0.contains(s[k]) by {
            if k < p {
                assert(rest[k] == s[k]);
            } else {
                assert(k != p);
                assert(rest[k - 1] == s[k]);
            }
        }
    } else if page_chars(s) > MAX_PAGE_CHARS {
        assert forall|k: int| 0 <= k < s.len() && (#[trigger] s[k]).locked implies fit_page_spec(s).0.contains(s[k]) by {
            assert(fit_page_spec(s).0[k] == s[k]);
        }
    } else {
        assert forall|k: int| 0 <= k < s.len() && (#[trigger] s[k]).locked implies fit_page_spec(s).0.contains(s[k]) by {
            assert(fit_page_spec(s).0[k] == s[k]);
        }
    }
}

/// The staged rules of an order: each enabled entry whose rule the pool holds, with the
/// counted characters of the rule's line and the rule's lock.
pub open spec fn staged_order(order: Seq<(String, bool)>, rules: Seq<RuleView>) -> Seq<StagedView>
    decreases order.len(),
{
    if order.len() == 0 {
        Seq::empty()
    } else {
        let prev = staged_order(order.drop_last(), rules);
        let e = order.last();
        if e.1 {
            match rule_of(rules, e.0@) {
                Some(r) => prev.push(StagedView { id: e.0@, chars: compact_spec(line_text_spec(r.parsed)).len(), locked: r.locked }),
                None => prev,
            }
        } else {
            prev
        }
    }
}

/// The line of rule `id`, or an empty cast when the pool lacks it.
pub open spec fn parsed_of(rules: Seq<RuleView>, id: Seq<char>) -> MacroLineView {
    match rule_of(rules, id) {
        Some(r) => r.parsed,
        None => MacroLineView { condition: None, fcast: false, skill: Seq::empty() },
    }
}

/// The contents of lines.
pub open spec fn line_views(lines: Seq<MacroLine>) -> Seq<MacroLineView> {
    lines.map_values(|l: MacroLine| l@)
}

/// The lines of a rendered page: the line of each kept rule, in order.
pub open spec fn rendered_lines(order: Seq<(String, bool)>, rules: Seq<RuleView>) -> Seq<MacroLineView> {
    staged_ids(fit_page_spec(staged_order(order, rules)).0).map_values(|id: Seq<char>| parsed_of(rules, id))
}

proof fn lemma_staged_has_rules(order: Seq<(String, bool)>, rules: Seq<RuleView>)
    ensures
        forall|k: int| 0 <= k < staged_order(order, rules).len()
            ==> (#[trigger] rule_of(rules, staged_order(order, rules)[k].id)) is Some,
    decreases order.len(),
{
    if order.len() > 0 {
        lemma_staged_has_rules(order.drop_last(), rules);
    }
}

proof fn lemma_kept_from(s: Seq<StagedView>)
    ensures
        forall|k: int| 0 <= k < fit_page_spec(s).0.len() ==> s.contains(#[trigger] fit_page_spec(s).0[k]),
    decreases s.len(),
{
    lemma_last_unlocked(s);
    if !(page_chars(s) <= MAX_PAGE_CHARS || last_unlocked(s) < 0) {
        let p = last_unlocked(s);
        let rest = s.remove(p);
        lemma_kept_from(rest);
        assert(fit_page_spec(s).0 == fit_page_spec(rest).0);
        assert forall|k: int| 0 <= k < fit_page_spec(s).0.len() implies s.contains(#[trigger] fit_page_spec(s).0[k]) by {
            let x = fit_page_spec(s).0[k];
            assert(x == fit_page_spec(rest).0[k]);
            assert(rest.contains(x));
            let j = choose|j: int| 0 <= j < rest.len() && rest[j] == x;
            if j < p {
                assert(s[j] == x);
            } else {
                assert(s[j + 1] == x);
            }
        }
    } else {
        assert forall|k: int| 0 <= k < fit_page_spec(s).0.len() implies s.contains(#[trigger] fit_page_spec(s).0[k]) by {
            assert(s[k] == fit_page_spec(s).0[k]);
        }
    }
}

/// Renders one page of an individual: the lines of the enabled rules of `order` that the
/// pool holds, in order, after the page budget has dropped what it must. Returns the page,
/// the ids it emitted and the ids the budget dropped, in the order they were dropped.
pub fn render_page(stance: Stance, order: &Vec<(String, bool)>, pool: &RulePool) -> (r: (MacroPage, Vec<String>, Vec<String>))
    requires
        chars_with_breaks(staged_order(order@, pool@.rules)) <= usize::MAX,
    ensures
        r.0.stance_filter == Some(stance),
        line_views(r.0.lines@) == rendered_lines(order@, pool@.rules),
        strings_view(r.1@) == staged_ids(fit_page_spec(staged_order(order@, pool@.rules)).0),
        strings_view(r.2@) == fit_page_spec(staged_order(order@, pool@.rules)).1,
{
    let ghost rules = pool@.rules;
    let mut staged: Vec<StagedRule> = Vec::new();
    let mut i: usize = 0;
    while i < order.len()
        invariant
            i <= order@.len(),
            rules == pool@.rules,
            staged_view(staged@) == staged_order(order@.take(i as int), rules),
        decreases order.len() - i,
    {
        assert(order@.take(i as int + 1).drop_last() == order@.take(i as int));
        assert(order@.take(i as int + 1).last() == order@[i as int]);
        if order[i].1 {
            match pool.get(order[i].0.as_str()) {
                Some(rule) => {
                    let text = serialize_line(&rule.parsed);
                    let n = compact_len(text.as_str());
                    let ghost before = staged@;
                    staged.push(StagedRule { id: order[i].0.clone(), chars: n, locked: rule.locked });
                    assert(staged_view(staged@) =~= staged_view(before).push(staged@[before.len() as int]@));
                },
                None => {},
            }
        }
        i = i + 1;
    }
    assert(order@.take(order@.len() as int) == order@);
    let ghost sv = staged_view(staged@);
    let (kept, dropped) = fit_page(staged);
    proof {
        lemma_staged_has_rules(order@, rules);
        lemma_kept_from(sv);
    }
    let ghost kept_ids = staged_ids(fit_page_spec(sv).0);
    let mut lines: Vec<MacroLine> = Vec::new();
    let mut k: usize = 0;
    while k < kept.len()
        invariant
            k <= kept@.len(),
            rules == pool@.rules,
            strings_view(kept@) == kept_ids,
            kept_ids == staged_ids(fit_page_spec(sv).0),
            sv == staged_order(order@, rules),
            forall|a: int| 0 <= a < fit_page_spec(sv).0.len() ==> sv.contains(#[trigger] fit_page_spec(sv).0[a]),
            forall|a: int| 0 <= a < sv.len() ==> (#[trigger] rule_of(rules, sv[a].id)) is Some,
            line_views(lines@) == kept_ids.take(k as int).map_values(|id: Seq<char>| parsed_of(rules, id)),
        decreases kept.len() - k,
    {
        let ghost id = kept_ids[k as int];
        assert(kept@[k as int]@ == id);
        proof {
            assert(strings_view(kept@).len() == kept@.len());
            assert(kept_ids.len() == fit_page_spec(sv).0.len());
            let x = fit_page_spec(sv).0[k as int];
            assert(kept_ids[k as int] == x.id);
            assert(sv.contains(x));
            let j = choose|j: int| 0 <= j < sv.len() && sv[j] == x;
            assert(rule_of(rules, sv[j].id) is Some);
        }
        match pool.get(kept[k].as_str()) {
            Some(rule) => {
                let ghost before = lines@;
                lines.push(clone_macro_line(&rule.parsed));
                assert(line_views(lines@) =~= line_views(before).push(parsed_of(rules, id)));
                assert(kept_ids.take(k as int + 1) =~= kept_ids.take(k as int).push(id));
                assert(kept_ids.take(k as int + 1).map_values(|id: Seq<char>| parsed_of(rules, id))
                    =~= kept_ids.take(k as int).map_values(|id: Seq<char>| parsed_of(rules, id)).push(parsed_of(rules, id)));
            },
            None => {
                assert(false);
            },
        }
        k = k + 1;
    }
    assert(kept_ids.take(kept@.len() as int) == kept_ids);
    (MacroPage { stance_filter: Some(stance), lines }, kept, dropped)
}

/// Renders an individual: its shield page, then its blade page, with what each emitted
/// and what the page budget dropped from each.
pub fn render_individual(pool: &RulePool, shield_order: &Vec<(String, bool)>, blade_order: &Vec<(String, bool)>) -> (r: RenderResult)
    requires
        chars_with_breaks(staged_order(shield_order@, pool@.rules)) <= usize::MAX,
        chars_with_breaks(staged_order(blade_order@, pool@.rules)) <= usize::MAX,
    ensures
        r.config.pages@.len() == 2,
        r.config.pages@[0].stance_filter == Some(Stance::Shield),
        line_views(r.config.pages@[0].lines@) == rendered_lines(shield_order@, pool@.rules),
        r.config.pages@[1].stance_filter == Some(Stance::Blade),
        line_views(r.config.pages@[1].lines@) == rendered_lines(blade_order@, pool@.rules),
        strings_view(r.shield_emitted@) == staged_ids(fit_page_spec(staged_order(shield_order@, pool@.rules)).0),
        strings_view(r.blade_emitted@) == staged_ids(fit_page_spec(staged_order(blade_order@, pool@.rules)).0),
        strings_view(r.shield_truncated@) == fit_page_spec(staged_order(shield_order@, pool@.rules)).1,
        strings_view(r.blade_truncated@) == fit_page_spec(staged_order(blade_order@, pool@.rules)).1,
{
    let (shield_page, shield_emitted, shield_truncated) = render_page(Stance::Shield, shield_order, pool);
    let (blade_page, blade_emitted, blade_truncated) = render_page(Stance::Blade, blade_order, pool);
    let mut pages: Vec<MacroPage> = Vec::new();
    pages.push(shield_page);
    pages.push(blade_page);
    RenderResult { config: MacroConfig { pages }, shield_emitted, blade_emitted, shield_truncated, blade_truncated }
}

/// Renders an individual and sets out how its rendering differs from the pool's baseline.
pub fn render_and_diff(pool: &RulePool, shield_order: &Vec<(String, bool)>, blade_order: &Vec<(String, bool)>) -> (r: (RenderResult, StructDiff))
    requires
        chars_with_breaks(staged_order(shield_order@, pool@.rules)) <= usize::MAX,
        chars_with_breaks(staged_order(blade_order@, pool@.rules)) <= usize::MAX,
    ensures
        r.0.config.pages@.len() == 2,
        line_views(r.0.config.pages@[0].lines@) == rendered_lines(shield_order@, pool@.rules),
        line_views(r.0.config.pages@[1].lines@) == rendered_lines(blade_order@, pool@.rules),
        strings_view(r.0.shield_emitted@) == staged_ids(fit_page_spec(staged_order(shield_order@, pool@.rules)).0),
        strings_view(r.0.blade_emitted@) == staged_ids(fit_page_spec(staged_order(blade_order@, pool@.rules)).0),
        r.1.shield_emitted@ == r.0.shield_emitted@,
        r.1.blade_emitted@ == r.0.blade_emitted@,
        r.1.shield_truncated@ == r.0.shield_truncated@,
        r.1.blade_truncated@ == r.0.blade_truncated@,
        strings_view(r.1.new_rules_enabled@) == crate::struct_ops::new_rules_spec(
            pool@.rules,
            crate::struct_ops::order_view(shield_order@) + crate::struct_ops::order_view(blade_order@),
            strings_view(r.0.shield_emitted@) + strings_view(r.0.blade_emitted@),
        ),
        strings_view(r.1.original_disabled@) == crate::struct_ops::disabled_originals_spec(
            pool@.rules,
            crate::struct_ops::order_view(shield_order@) + crate::struct_ops::order_view(blade_order@),
        ),
{
    let rendered = render_individual(pool, shield_order, blade_order);
    let diff = compute_struct_diff(shield_order, blade_order, pool, &rendered);
    (rendered, diff)
}

} // verus!
