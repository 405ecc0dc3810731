//! The rule pool of the structure search: every line of the baseline macro and every
//! candidate line becomes a rule with an id, a page, a source and a lock, and the pool
//! keeps each page's default order and default enabled set.

use vstd::prelude::*;
use vstd::string::*;
use crate::fmt::{decimal_digits, push_decimal};
use crate::model::Stance;
use crate::strings::string_of;
use crate::macro_text::{clone_macro_line, line_text_spec, rule_display_name, serialize_line, MacroConfig, MacroLine, MacroLineView, MacroPage};

verus! {

/// The page a rule belongs to.
#[derive(Debug, Clone, Copy, PartialEq, Eq, Structural, Hash)]
pub enum PageTag {
    Shield,
    Blade,
    /// Fits either page.
    Either,
}

/// Where a rule comes from.
#[derive(Debug, Clone, Copy, PartialEq, Eq, Structural)]
pub enum RuleSource {
    /// A line of the baseline macro.
    Original,
    /// A line proposed by the user.
    Candidate,
}

/// The name of a page tag.
pub open spec fn page_tag_name_spec(p: PageTag) -> Seq<char> {
    match p {
        PageTag::Shield => "shield"@,
        PageTag::Blade => "blade"@,
        PageTag::Either => "either"@,
    }
}

/// The name of a page tag, as tunable ids and page labels use it.
pub fn page_tag_name(p: PageTag) -> (r: &'static str)
    ensures
        r@ == page_tag_name_spec(p),
{
    match p {
        PageTag::Shield => {
            proof { reveal_strlit("shield"); }
            "shield"
        },
        PageTag::Blade => {
            proof { reveal_strlit("blade"); }
            "blade"
        },
        PageTag::Either => {
            proof { reveal_strlit("either"); }
            "either"
        },
    }
}

/// One rule: a macro line with its id, display name, page, source and lock.
#[derive(Debug, Clone)]
pub struct Rule {
    pub id: String,
    pub name: String,
    pub page: PageTag,
    pub source: RuleSource,
    /// A locked rule is always enabled and never moves.
    pub locked: bool,
    /// The macro line, serialised.
    pub line_text: String,
    /// The macro line itself.
    pub parsed: MacroLine,
}

/// A rule as a value.
pub ghost struct RuleView {
    pub id: Seq<char>,
    pub name: Seq<char>,
    pub page: PageTag,
    pub source: RuleSource,
    pub locked: bool,
    pub line_text: Seq<char>,
    pub parsed: MacroLineView,
}

impl View for Rule {
    type V = RuleView;

    open spec fn view(&self) -> RuleView {
        RuleView {
            id: self.id@,
            name: self.name@,
            page: self.page,
            source: self.source,
            locked: self.locked,
            line_text: self.line_text@,
            parsed: self.parsed@,
        }
    }
}

/// The pool: the rules in the order they were added, and per page the default order and
/// the default enabled rules.
#[derive(Debug, Clone)]
pub struct RulePool {
    pub rules: Vec<Rule>,
    pub shield_default_order: Vec<String>,
    pub blade_default_order: Vec<String>,
    pub shield_default_enabled: Vec<String>,
    pub blade_default_enabled: Vec<String>,
}

/// The pool as a value.
pub ghost struct PoolView {
    pub rules: Seq<RuleView>,
    pub shield_order: Seq<Seq<char>>,
    pub blade_order: Seq<Seq<char>>,
    pub shield_enabled: Seq<Seq<char>>,
    pub blade_enabled: Seq<Seq<char>>,
}

/// The contents of a list of strings.
pub open spec fn strings_view(v: Seq<String>) -> Seq<Seq<char>> {
    v.map_values(|s: String| s@)
}

impl View for RulePool {
    type V = PoolView;

    open spec fn view(&self) -> PoolView {
        PoolView {
            rules: self.rules@.map_values(|r: Rule| r@),
            shield_order: strings_view(self.shield_default_order@),
            blade_order: strings_view(self.blade_default_order@),
            shield_enabled: strings_view(self.shield_default_enabled@),
            blade_enabled: strings_view(self.blade_default_enabled@),
        }
    }
}

/// `k` is the first rule with id `id`.
pub open spec fn first_with_id(rules: Seq<RuleView>, id: Seq<char>, k: int) -> bool {
    &&& 0 <= k < rules.len()
    &&& rules[k].id == id
    &&& forall|j: int| 0 <= j < k ==> rules[j].id != id
}

/// Some rule has id `id`.
pub open spec fn has_rule_id(rules: Seq<RuleView>, id: Seq<char>) -> bool {
    exists|k: int| 0 <= k < rules.len() && rules[k].id == id
}

/// The rule with id `id` is locked (an unknown id is not).
pub open spec fn locked_in(rules: Seq<RuleView>, id: Seq<char>) -> bool {
    exists|k: int| first_with_id(rules, id, k) && rules[k].locked
}

/// No two rules share an id.
pub open spec fn distinct_ids(rules: Seq<RuleView>) -> bool {
    forall|i: int, j: int| 0 <= i < rules.len() && 0 <= j < rules.len() && i != j ==> rules[i].id != rules[j].id
}

/// There is at most one first rule with a given id.
pub proof fn lemma_first_unique(rules: Seq<RuleView>, id: Seq<char>, a: int, b: int)
    requires
        first_with_id(rules, id, a),
        first_with_id(rules, id, b),
    ensures
        a == b,
{
    if a < b {
        assert(rules[a].id != id);
    } else if b < a {
        assert(rules[b].id != id);
    }
}

impl RulePool {
    /// The index of the rule with id `id`.
    pub fn find(&self, id: &str) -> (r: Option<usize>)
        ensures
            match r {
                Some(k) => first_with_id(self@.rules, id@, k as int),
                None => !has_rule_id(self@.rules, id@),
            },
    {
        let mut k: usize = 0;
        while k < self.rules.len()
            invariant
                k <= self.rules@.len(),
                forall|j: int| 0 <= j < k ==> (#[trigger] self@.rules[j]).id != id@,
            decreases self.rules.len() - k,
        {
            if crate::strings::str_eq(self.rules[k].id.as_str(), id) {
                assert(self@.rules[k as int].id == id@);
                return Some(k);
            }
            assert(self@.rules[k as int].id != id@);
            k = k + 1;
        }
        assert forall|j: int| 0 <= j < self@.rules.len() implies self@.rules[j].id != id@ by {
            assert(self@.rules[j].id != id@);
        }
        None
    }

    /// Whether the rule with id `id` is locked; an unknown id is not.
    pub fn is_locked(&self, id: &str) -> (r: bool)
        ensures
            r == locked_in(self@.rules, id@),
    {
        match self.find(id) {
            Some(k) => {
                proof {
                    if locked_in(self@.rules, id@) {
                        let w = choose|w: int| first_with_id(self@.rules, id@, w) && self@.rules[w].locked;
                        lemma_first_unique(self@.rules, id@, w, k as int);
                    }
                }
                self.rules[k].locked
            },
            None => {
                proof {
                    if locked_in(self@.rules, id@) {
                        let w = choose|w: int| first_with_id(self@.rules, id@, w) && self@.rules[w].locked;
                        assert(self@.rules[w].id == id@);
                    }
                }
                false
            },
        }
    }
}

/// The rule with id `id`: the first one that has it.
pub open spec fn rule_of(rules: Seq<RuleView>, id: Seq<char>) -> Option<RuleView>
    decreases rules.len(),
{
    if rules.len() == 0 {
        None
    } else {
        match rule_of(rules.drop_last(), id) {
            Some(r) => Some(r),
            None => if rules.last().id == id { Some(rules.last()) } else { None },
        }
    }
}

/// `rule_of` is the first rule with the id, and nothing when no rule has it.
pub proof fn lemma_rule_of(rules: Seq<RuleView>, id: Seq<char>)
    ensures
        forall|k: int| first_with_id(rules, id, k) ==> rule_of(rules, id) == Some(rules[k]),
        !has_rule_id(rules, id) ==> rule_of(rules, id) is None,
        rule_of(rules, id) is Some ==> has_rule_id(rules, id),
    decreases rules.len(),
{
    if rules.len() > 0 {
        let init = rules.drop_last();
        lemma_rule_of(init, id);
        assert forall|k: int| first_with_id(rules, id, k) implies rule_of(rules, id) == Some(rules[k]) by {
            if k < rules.len() - 1 {
                assert(first_with_id(init, id, k));
            } else {
                if has_rule_id(init, id) {
                    let w = choose|w: int| 0 <= w < init.len() && init[w].id == id;
                    assert(rules[w].id == id);
                }
            }
        }
        if !has_rule_id(rules, id) {
            assert(!has_rule_id(init, id)) by {
                if has_rule_id(init, id) {
                    let w = choose|w: int| 0 <= w < init.len() && init[w].id == id;
                    assert(rules[w].id == id);
                }
            }
            assert(rules.last().id != id) by {
                if rules.last().id == id {
                    assert(rules[rules.len() - 1].id == id);
                }
            }
        }
        if rule_of(rules, id) is Some {
            if rule_of(init, id) is Some {
                let w = choose|w: int| 0 <= w < init.len() && init[w].id == id;
                assert(rules[w].id == id);
            } else {
                assert(rules[rules.len() - 1].id == id);
            }
        }
    }
}

impl RulePool {
    /// The rule with id `id`.
    pub fn get(&self, id: &str) -> (r: Option<&Rule>)
        ensures
            match r {
                Some(x) => rule_of(self@.rules, id@) == Some(x@),
                None => rule_of(self@.rules, id@) is None,
            },
    {
        proof {
            lemma_rule_of(self@.rules, id@);
        }
        match self.find(id) {
            Some(k) => Some(&self.rules[k]),
            None => None,
        }
    }
}

/// What parsing a candidate's line text gave.
#[derive(Debug, Clone)]
pub enum CandidateParse {
    /// The parser refused the text, with its message.
    Failed(String),
    /// The text has no page.
    NoPages,
    /// The first page has no line.
    NoLines,
    /// The first line of the first page.
    Line(MacroLine),
}

/// A candidate rule sent by the front end.
#[derive(Debug, Clone)]
pub struct CandidateRuleInput {
    /// The id to use; `C{n}` (n counting candidates from 1) when unset.
    pub id: Option<String>,
    pub name: String,
    pub page: PageTag,
    pub line_text: String,
    pub locked: bool,
    pub initial_enabled: bool,
}

/// Why a pool could not be built.
#[derive(Debug, Clone)]
pub enum PoolError {
    /// A candidate's id is already taken.
    DuplicateId(String),
    /// A candidate's text does not parse.
    ParseFailed { id: String, message: String },
    /// A candidate's text has no page.
    EmptyCandidate(String),
    /// A candidate's text has no line.
    NoLine(String),
}

/// A pool error as a value.
pub ghost enum PoolErrorView {
    DuplicateId(Seq<char>),
    ParseFailed(Seq<char>, Seq<char>),
    EmptyCandidate(Seq<char>),
    NoLine(Seq<char>),
}

impl View for PoolError {
    type V = PoolErrorView;

    open spec fn view(&self) -> PoolErrorView {
        match self {
            PoolError::DuplicateId(id) => PoolErrorView::DuplicateId(id@),
            PoolError::ParseFailed { id, message } => PoolErrorView::ParseFailed(id@, message@),
            PoolError::EmptyCandidate(id) => PoolErrorView::EmptyCandidate(id@),
            PoolError::NoLine(id) => PoolErrorView::NoLine(id@),
        }
    }
}

/// The message shown for a pool error.
pub open spec fn pool_error_message(e: PoolErrorView) -> Seq<char> {
    match e {
        PoolErrorView::DuplicateId(id) => "候选规则 id 冲突: "@ + id,
        PoolErrorView::ParseFailed(id, m) => "候选规则 "@ + id + " 解析失败: "@ + m,
        PoolErrorView::EmptyCandidate(id) => "候选规则 "@ + id + " 空"@,
        PoolErrorView::NoLine(id) => "候选规则 "@ + id + " 无有效行"@,
    }
}

impl PoolError {
    /// The message shown for the error.
    pub fn message(&self) -> (r: String)
        ensures
            r@ == pool_error_message(self@),
    {
        match self {
            PoolError::DuplicateId(id) => {
                let mut s = String::from_str("候选规则 id 冲突: ");
                s.append(id.as_str());
                s
            },
            PoolError::ParseFailed { id, message } => {
                let mut s = String::from_str("候选规则 ");
                s.append(id.as_str());
                s.append(" 解析失败: ");
                s.append(message.as_str());
                s
            },
            PoolError::EmptyCandidate(id) => {
                let mut s = String::from_str("候选规则 ");
                s.append(id.as_str());
                s.append(" 空");
                s
            },
            PoolError::NoLine(id) => {
                let mut s = String::from_str("候选规则 ");
                s.append(id.as_str());
                s.append(" 无有效行");
                s
            },
        }
    }
}

/// The page a baseline page's lines go to: blade pages to the blade page, every other
/// page (general, wall, any) to the shield page.
pub open spec fn page_of_stance(s: Option<Stance>) -> PageTag {
    match s {
        Some(Stance::Blade) => PageTag::Blade,
        _ => PageTag::Shield,
    }
}

/// The baseline lines, page after page, each with the page it goes to.
pub open spec fn baseline_lines(pages: Seq<MacroPage>) -> Seq<(PageTag, MacroLine)>
    decreases pages.len(),
{
    if pages.len() == 0 {
        Seq::empty()
    } else {
        let p = pages.last();
        baseline_lines(pages.drop_last()) + p.lines@.map_values(|l: MacroLine| (page_of_stance(p.stance_filter), l))
    }
}

/// The empty pool.
pub open spec fn empty_pool() -> PoolView {
    PoolView {
        rules: Seq::empty(),
        shield_order: Seq::empty(),
        blade_order: Seq::empty(),
        shield_enabled: Seq::empty(),
        blade_enabled: Seq::empty(),
    }
}

/// The id `tag` followed by `n` in decimal (`S3`, `B1`, `C2`).
pub open spec fn tagged_id(tag: char, n: nat) -> Seq<char> {
    seq![tag] + decimal_digits(n)
}

/// The pool after adding one baseline line: ids count per page from 1 (`S1`, `S2`, ... on
/// the shield page, `B1`, ... on the blade page); the line is enabled; it is locked when
/// locking is asked and it is its page's first line.
pub open spec fn add_original(p: PoolView, page: PageTag, line: MacroLine, lock_first: bool) -> PoolView {
    if page == PageTag::Blade {
        let n = p.blade_order.len();
        let id = tagged_id('B', n + 1);
        PoolView {
            rules: p.rules.push(RuleView {
                id,
                name: line@.skill,
                page: PageTag::Blade,
                source: RuleSource::Original,
                locked: lock_first && n == 0,
                line_text: line_text_spec(line@),
                parsed: line@,
            }),
            blade_order: p.blade_order.push(id),
            blade_enabled: p.blade_enabled.push(id),
            ..p
        }
    } else {
        let n = p.shield_order.len();
        let id = tagged_id('S', n + 1);
        PoolView {
            rules: p.rules.push(RuleView {
                id,
                name: line@.skill,
                page: PageTag::Shield,
                source: RuleSource::Original,
                locked: lock_first && n == 0,
                line_text: line_text_spec(line@),
                parsed: line@,
            }),
            shield_order: p.shield_order.push(id),
            shield_enabled: p.shield_enabled.push(id),
            ..p
        }
    }
}

/// The pool of the baseline lines.
pub open spec fn baseline_pool(lines: Seq<(PageTag, MacroLine)>, lock_first: bool) -> PoolView
    decreases lines.len(),
{
    if lines.len() == 0 {
        empty_pool()
    } else {
        add_original(baseline_pool(lines.drop_last(), lock_first), lines.last().0, lines.last().1, lock_first)
    }
}

/// The id candidate number `i` (from 0) gets.
pub open spec fn candidate_id(c: CandidateRuleInput, i: nat) -> Seq<char> {
    match c.id {
        Some(s) => s@,
        None => tagged_id('C', i + 1),
    }
}

/// The pool after adding candidate number `i`: refused when its id is taken or its text
/// gave no line; otherwise a candidate rule with the candidate's name, page and lock and
/// the parsed line's text, appended to its page's order (an either-page rule to the shield
/// page) and enabled there when the candidate asks.
pub open spec fn add_candidate(p: PoolView, c: CandidateRuleInput, parse: CandidateParse, i: nat) -> Result<PoolView, PoolErrorView> {
    let id = candidate_id(c, i);
    if has_rule_id(p.rules, id) {
        Err(PoolErrorView::DuplicateId(id))
    } else {
        match parse {
            CandidateParse::Failed(m) => Err(PoolErrorView::ParseFailed(id, m@)),
            CandidateParse::NoPages => Err(PoolErrorView::EmptyCandidate(id)),
            CandidateParse::NoLines => Err(PoolErrorView::NoLine(id)),
            CandidateParse::Line(line) => {
                let rules = p.rules.push(RuleView {
                    id,
                    name: c.name@,
                    page: c.page,
                    source: RuleSource::Candidate,
                    locked: c.locked,
                    line_text: line_text_spec(line@),
                parsed: line@,
                });
                if c.page == PageTag::Blade {
                    Ok(PoolView {
                        rules,
                        blade_order: p.blade_order.push(id),
                        blade_enabled: if c.initial_enabled { p.blade_enabled.push(id) } else { p.blade_enabled },
                        ..p
                    })
                } else {
                    Ok(PoolView {
                        rules,
                        shield_order: p.shield_order.push(id),
                        shield_enabled: if c.initial_enabled { p.shield_enabled.push(id) } else { p.shield_enabled },
                        ..p
                    })
                }
            },
        }
    }
}

/// The pool after adding the candidates one by one, stopping at the first refusal.
pub open spec fn with_candidates(base: PoolView, cands: Seq<CandidateRuleInput>, parses: Seq<CandidateParse>) -> Result<PoolView, PoolErrorView>
    decreases cands.len(),
{
    if cands.len() == 0 {
        Ok(base)
    } else {
        match with_candidates(base, cands.drop_last(), parses) {
            Ok(p) => add_candidate(p, cands.last(), parses[cands.len() - 1], (cands.len() - 1) as nat),
            Err(e) => Err(e),
        }
    }
}

/// The pool of a baseline macro and candidates.
pub open spec fn build_pool_spec(pages: Seq<MacroPage>, cands: Seq<CandidateRuleInput>, parses: Seq<CandidateParse>, lock_first: bool) -> Result<PoolView, PoolErrorView> {
    with_candidates(baseline_pool(baseline_lines(pages), lock_first), cands, parses)
}

fn tagged_string(tag: char, n: u64) -> (r: String)
    ensures
        r@ == tagged_id(tag, n as nat),
{
    let mut v: Vec<char> = Vec::new();
    v.push(tag);
    push_decimal(&mut v, n);
    assert(v@ == seq![tag] + decimal_digits(n as nat));
    string_of(&v)
}

fn page_of(s: Option<Stance>) -> (r: PageTag)
    ensures
        r == page_of_stance(s),
{
    match s {
        Some(Stance::Blade) => PageTag::Blade,
        _ => PageTag::Shield,
    }
}

impl RulePool {
    fn empty() -> (r: RulePool)
        ensures
            r@ == empty_pool(),
    {
        let r = RulePool {
            rules: Vec::new(),
            shield_default_order: Vec::new(),
            blade_default_order: Vec::new(),
            shield_default_enabled: Vec::new(),
            blade_default_enabled: Vec::new(),
        };
        assert(r@.rules =~= Seq::<RuleView>::empty());
        assert(r@.shield_order =~= Seq::<Seq<char>>::empty());
        assert(r@.blade_order =~= Seq::<Seq<char>>::empty());
        assert(r@.shield_enabled =~= Seq::<Seq<char>>::empty());
        assert(r@.blade_enabled =~= Seq::<Seq<char>>::empty());
        r
    }

    fn push_rule(&mut self, rule: Rule)
        ensures
            final(self)@ == (PoolView { rules: old(self)@.rules.push(rule@), ..old(self)@ }),
    {
        self.rules.push(rule);
        assert(self@.rules =~= old(self)@.rules.push(rule@));
    }

    fn push_shield(&mut self, id: String, enabled: bool)
        ensures
            final(self)@ == (PoolView {
                shield_order: old(self)@.shield_order.push(id@),
                shield_enabled: if enabled { old(self)@.shield_enabled.push(id@) } else { old(self)@.shield_enabled },
                ..old(self)@
            }),
    {
        self.shield_default_order.push(id.clone());
        assert(self@.shield_order =~= old(self)@.shield_order.push(id@));
        if enabled {
            self.shield_default_enabled.push(id);
            assert(self@.shield_enabled =~= old(self)@.shield_enabled.push(id@));
        }
    }

    fn push_blade(&mut self, id: String, enabled: bool)
        ensures
            final(self)@ == (PoolView {
                blade_order: old(self)@.blade_order.push(id@),
                blade_enabled: if enabled { old(self)@.blade_enabled.push(id@) } else { old(self)@.blade_enabled },
                ..old(self)@
            }),
    {
        self.blade_default_order.push(id.clone());
        assert(self@.blade_order =~= old(self)@.blade_order.push(id@));
        if enabled {
            self.blade_default_enabled.push(id);
            assert(self@.blade_enabled =~= old(self)@.blade_enabled.push(id@));
        }
    }

    /// Adds one baseline line.
    fn add_original_line(&mut self, page: PageTag, line: &MacroLine, lock_first: bool)
        requires
            page != PageTag::Either,
            old(self)@.shield_order.len() < u64::MAX,
            old(self)@.blade_order.len() < u64::MAX,
        ensures
            final(self)@ == add_original(old(self)@, page, *line, lock_first),
    {
        if page == PageTag::Blade {
            let n = self.blade_default_order.len();
            let id = tagged_string('B', n as u64 + 1);
            let rule = Rule {
                id: id.clone(),
                name: rule_display_name(line),
                page: PageTag::Blade,
                source: RuleSource::Original,
                locked: lock_first && n == 0,
                line_text: serialize_line(line),
                parsed: clone_macro_line(line),
            };
            self.push_rule(rule);
            self.push_blade(id, true);
        } else {
            let n = self.shield_default_order.len();
            let id = tagged_string('S', n as u64 + 1);
            let rule = Rule {
                id: id.clone(),
                name: rule_display_name(line),
                page: PageTag::Shield,
                source: RuleSource::Original,
                locked: lock_first && n == 0,
                line_text: serialize_line(line),
                parsed: clone_macro_line(line),
            };
            self.push_rule(rule);
            self.push_shield(id, true);
        }
    }
}

/// Builds the rule pool from the parsed baseline macro and the candidates with their
/// parsed texts (`parses[i]` is what candidate `i`'s text gave): every baseline line is an
/// enabled original rule (the first of each page locked when `lock_first`), then each
/// candidate is added, stopping at the first whose id is taken or whose text gave no line.
pub fn build_pool(
    baseline: &MacroConfig,
    candidates: &Vec<CandidateRuleInput>,
    parses: &Vec<CandidateParse>,
    lock_first: bool,
) -> (r: Result<RulePool, PoolError>)
    requires
        parses@.len() == candidates@.len(),
        baseline_lines(baseline.pages@).len() + candidates@.len() < u64::MAX,
    ensures
        match r {
            Ok(pool) => build_pool_spec(baseline.pages@, candidates@, parses@, lock_first) == Ok::<PoolView, PoolErrorView>(pool@),
            Err(e) => build_pool_spec(baseline.pages@, candidates@, parses@, lock_first) == Err::<PoolView, PoolErrorView>(e@),
        },
{
    let pages = &baseline.pages;
    let mut pool = RulePool::empty();
    let mut pi: usize = 0;
    assert(pages@.take(0) =~= Seq::<MacroPage>::empty());
    while pi < pages.len()
        invariant
            pi <= pages@.len(),
            pool@ == baseline_pool(baseline_lines(pages@.take(pi as int)), lock_first),
            pool@.shield_order.len() + pool@.blade_order.len() == baseline_lines(pages@.take(pi as int)).len(),
            baseline_lines(pages@).len() + candidates@.len() < u64::MAX,
        decreases pages.len() - pi,
    {
        let page = &pages[pi];
        let tag = page_of(page.stance_filter);
        let ghost done = baseline_lines(pages@.take(pi as int));
        proof {
            assert(pages@.take(pi as int + 1).drop_last() == pages@.take(pi as int));
            lemma_baseline_lines_prefix(pages@, pi as int + 1);
        }
        let mut li: usize = 0;
        while li < page.lines.len()
            invariant
                li <= page.lines@.len(),
                tag == page_of_stance(page.stance_filter),
                pool@ == baseline_pool(done + page.lines@.take(li as int).map_values(|l: MacroLine| (tag, l)), lock_first),
                pool@.shield_order.len() + pool@.blade_order.len() == done.len() + li,
                done.len() + page.lines@.len() <= baseline_lines(pages@).len(),
                baseline_lines(pages@).len() + candidates@.len() < u64::MAX,
            decreases page.lines.len() - li,
        {
            let ghost before = done + page.lines@.take(li as int).map_values(|l: MacroLine| (tag, l));
            let ghost after = done + page.lines@.take(li as int + 1).map_values(|l: MacroLine| (tag, l));
            proof {
                assert(after.drop_last() =~= before);
                assert(after.last() == (tag, page.lines@[li as int]));
            }
            pool.add_original_line(tag, &page.lines[li], lock_first);
            li = li + 1;
        }
        proof {
            assert(page.lines@.take(page.lines@.len() as int) == page.lines@);
            assert(baseline_lines(pages@.take(pi as int + 1)) == done + page.lines@.map_values(|l: MacroLine| (tag, l)));
        }
        pi = pi + 1;
    }
    assert(pages@.take(pages@.len() as int) == pages@);
    let ghost base = pool@;
    let mut ci: usize = 0;
    while ci < candidates.len()
        invariant
            ci <= candidates@.len(),
            parses@.len() == candidates@.len(),
            base == baseline_pool(baseline_lines(pages@), lock_first),
            pages@ == baseline.pages@,
            with_candidates(base, candidates@.take(ci as int), parses@) == Ok::<PoolView, PoolErrorView>(pool@),
            pool@.shield_order.len() + pool@.blade_order.len() <= baseline_lines(pages@).len() + ci,
            baseline_lines(pages@).len() + candidates@.len() < u64::MAX,
        decreases candidates.len() - ci,
    {
        let c = &candidates[ci];
        proof {
            assert(candidates@.take(ci as int + 1).drop_last() == candidates@.take(ci as int));
            assert(candidates@.take(ci as int + 1).last() == *c);
        }
        let id = match &c.id {
            Some(s) => s.clone(),
            None => tagged_string('C', ci as u64 + 1),
        };
        assert(id@ == candidate_id(*c, ci as nat));
        if pool.find(id.as_str()).is_some() {
            proof {
                lemma_with_candidates_stop(base, candidates@, parses@, ci as int + 1);
            }
            return Err(PoolError::DuplicateId(id));
        }
        match &parses[ci] {
            CandidateParse::Failed(m) => {
                proof { lemma_with_candidates_stop(base, candidates@, parses@, ci as int + 1); }
                return Err(PoolError::ParseFailed { id, message: m.clone() });
            },
            CandidateParse::NoPages => {
                proof { lemma_with_candidates_stop(base, candidates@, parses@, ci as int + 1); }
                return Err(PoolError::EmptyCandidate(id));
            },
            CandidateParse::NoLines => {
                proof { lemma_with_candidates_stop(base, candidates@, parses@, ci as int + 1); }
                return Err(PoolError::NoLine(id));
            },
            CandidateParse::Line(line) => {
                let rule = Rule {
                    id: id.clone(),
                    name: c.name.clone(),
                    page: c.page,
                    source: RuleSource::Candidate,
                    locked: c.locked,
                    line_text: serialize_line(line),
                parsed: clone_macro_line(line),
                };
                pool.push_rule(rule);
                if c.page == PageTag::Blade {
                    pool.push_blade(id, c.initial_enabled);
                } else {
                    pool.push_shield(id, c.initial_enabled);
                }
            },
        }
        ci = ci + 1;
    }
    assert(candidates@.take(candidates@.len() as int) == candidates@);
    Ok(pool)
}

/// The baseline lines of a prefix of the pages are a prefix of all baseline lines.
proof fn lemma_baseline_lines_prefix(pages: Seq<MacroPage>, n: int)
    requires
        0 <= n <= pages.len(),
    ensures
        baseline_lines(pages.take(n)).len() <= baseline_lines(pages).len(),
    decreases pages.len(),
{
    if n < pages.len() {
        assert(pages.drop_last().take(n) == pages.take(n));
        lemma_baseline_lines_prefix(pages.drop_last(), n);
    } else {
        assert(pages.take(n) == pages);
    }
}

/// Once a candidate is refused, the whole build is refused with that error.
proof fn lemma_with_candidates_stop(base: PoolView, cands: Seq<CandidateRuleInput>, parses: Seq<CandidateParse>, n: int)
    requires
        0 < n <= cands.len(),
        with_candidates(base, cands.take(n), parses) is Err,
    ensures
        with_candidates(base, cands, parses) == with_candidates(base, cands.take(n), parses),
    decreases cands.len(),
{
    if n < cands.len() {
        assert(cands.drop_last().take(n) == cands.take(n));
        lemma_with_candidates_stop(base, cands.drop_last(), parses, n);
    } else {
        assert(cands.take(n) == cands);
    }
}

/// The number a tagged id carries.
pub open spec fn id_number(id: Seq<char>) -> nat {
    crate::text::decimal_value(id.drop_first())
}

proof fn lemma_tagged_id(tag: char, n: nat)
    ensures
        tagged_id(tag, n).len() >= 2,
        tagged_id(tag, n)[0] == tag,
        id_number(tagged_id(tag, n)) == n,
{
    crate::fmt::lemma_decimal_digits_are_digits(n);
    crate::fmt::law_decimal_roundtrip(n);
    assert(tagged_id(tag, n).drop_first() == decimal_digits(n));
}

/// What holds of the baseline pool at every step: the orders are `S1, S2, ...` and
/// `B1, B2, ...`, everything is enabled, and each rule is an original rule whose id is
/// tagged with its page and numbered within its page's order.
pub open spec fn baseline_shape(p: PoolView, lock_first: bool) -> bool {
    &&& p.rules.len() == p.shield_order.len() + p.blade_order.len()
    &&& p.shield_enabled == p.shield_order
    &&& p.blade_enabled == p.blade_order
    &&& forall|j: int| 0 <= j < p.shield_order.len() ==> #[trigger] p.shield_order[j] == tagged_id('S', (j + 1) as nat)
    &&& forall|j: int| 0 <= j < p.blade_order.len() ==> #[trigger] p.blade_order[j] == tagged_id('B', (j + 1) as nat)
    &&& forall|k: int| 0 <= k < p.rules.len() ==> {
        let r = #[trigger] p.rules[k];
        &&& r.source == RuleSource::Original
        &&& r.id.len() >= 2
        &&& (r.id[0] == 'S' || r.id[0] == 'B')
        &&& r.id[0] == 'S' ==> r.page == PageTag::Shield && 1 <= id_number(r.id) <= p.shield_order.len()
        &&& r.id[0] == 'B' ==> r.page == PageTag::Blade && 1 <= id_number(r.id) <= p.blade_order.len()
        &&& r.locked == (lock_first && id_number(r.id) == 1)
    }
    &&& distinct_ids(p.rules)
}

proof fn lemma_baseline_shape(lines: Seq<(PageTag, MacroLine)>, lock_first: bool)
    ensures
        baseline_shape(baseline_pool(lines, lock_first), lock_first),
    decreases lines.len(),
{
    if lines.len() == 0 {
        assert(empty_pool().shield_order =~= empty_pool().shield_enabled);
        assert(empty_pool().blade_order =~= empty_pool().blade_enabled);
    } else {
        lemma_baseline_shape(lines.drop_last(), lock_first);
        let p = baseline_pool(lines.drop_last(), lock_first);
        let q = baseline_pool(lines, lock_first);
        if lines.last().0 == PageTag::Blade {
            let n = p.blade_order.len();
            lemma_tagged_id('B', n + 1);
            assert forall|k: int| 0 <= k < q.rules.len() && k != p.rules.len() implies q.rules[k].id != tagged_id('B', n + 1) by {
                assert(q.rules[k] == p.rules[k]);
                if p.rules[k].id[0] == 'B' {
                    assert(id_number(p.rules[k].id) <= n);
                }
            }
        } else {
            let n = p.shield_order.len();
            lemma_tagged_id('S', n + 1);
            assert forall|k: int| 0 <= k < q.rules.len() && k != p.rules.len() implies q.rules[k].id != tagged_id('S', n + 1) by {
                assert(q.rules[k] == p.rules[k]);
                if p.rules[k].id[0] == 'S' {
                    assert(id_number(p.rules[k].id) <= n);
                }
            }
        }
    }
}

/// Adding candidates keeps ids distinct.
proof fn lemma_candidates_distinct(base: PoolView, cands: Seq<CandidateRuleInput>, parses: Seq<CandidateParse>)
    requires
        distinct_ids(base.rules),
    ensures
        with_candidates(base, cands, parses) is Ok ==> distinct_ids(with_candidates(base, cands, parses)->Ok_0.rules),
    decreases cands.len(),
{
    if cands.len() > 0 {
        lemma_candidates_distinct(base, cands.drop_last(), parses);
        match with_candidates(base, cands.drop_last(), parses) {
            Ok(p) => {
                let id = candidate_id(cands.last(), (cands.len() - 1) as nat);
                if !has_rule_id(p.rules, id) {
                    assert forall|k: int| 0 <= k < p.rules.len() implies p.rules[k].id != id by {}
                }
            },
            Err(_) => {},
        }
    }
}

/// The pool's ids are unique: baseline lines are numbered per page, and a candidate whose
/// id is taken is refused.
pub proof fn law_pool_ids_unique(pages: Seq<MacroPage>, cands: Seq<CandidateRuleInput>, parses: Seq<CandidateParse>, lock_first: bool)
    ensures
        build_pool_spec(pages, cands, parses, lock_first) is Ok
            ==> distinct_ids(build_pool_spec(pages, cands, parses, lock_first)->Ok_0.rules),
{
    lemma_baseline_shape(baseline_lines(pages), lock_first);
    lemma_candidates_distinct(baseline_pool(baseline_lines(pages), lock_first), cands, parses);
}

/// Every baseline line becomes an enabled original rule, numbered within its page
/// (`S1, S2, ...`, `B1, B2, ...`), and with `lock_first` exactly the first rule of each
/// page is locked (without it, none is).
pub proof fn law_baseline_first_rule_locked(pages: Seq<MacroPage>, lock_first: bool)
    ensures
        ({
            let p = baseline_pool(baseline_lines(pages), lock_first);
            &&& p.shield_enabled == p.shield_order
            &&& p.blade_enabled == p.blade_order
            &&& forall|j: int| 0 <= j < p.shield_order.len() ==> #[trigger] p.shield_order[j] == tagged_id('S', (j + 1) as nat)
            &&& forall|j: int| 0 <= j < p.blade_order.len() ==> #[trigger] p.blade_order[j] == tagged_id('B', (j + 1) as nat)
            &&& forall|k: int| 0 <= k < p.rules.len() ==> (#[trigger] p.rules[k]).source == RuleSource::Original
                && p.rules[k].locked == (lock_first && id_number(p.rules[k].id) == 1)
        }),
{
    lemma_baseline_shape(baseline_lines(pages), lock_first);
}

/// The position of the first rule with id `id`, or -1.
pub open spec fn rule_pos(rules: Seq<RuleView>, id: Seq<char>) -> int
    decreases rules.len(),
{
    if rules.len() == 0 {
        -1
    } else {
        let k = rule_pos(rules.drop_last(), id);
        if k >= 0 { k } else if rules.last().id == id { rules.len() - 1 } else { -1 }
    }
}

proof fn lemma_rule_pos(rules: Seq<RuleView>, id: Seq<char>, k: int)
    requires
        first_with_id(rules, id, k),
    ensures
        rule_pos(rules, id) == k,
    decreases rules.len(),
{
    if k < rules.len() - 1 {
        lemma_rule_pos(rules.drop_last(), id, k);
    } else {
        lemma_rule_pos_absent(rules.drop_last(), id);
    }
}

proof fn lemma_rule_pos_absent(rules: Seq<RuleView>, id: Seq<char>)
    requires
        forall|j: int| 0 <= j < rules.len() ==> rules[j].id != id,
    ensures
        rule_pos(rules, id) == -1,
    decreases rules.len(),
{
    if rules.len() > 0 {
        lemma_rule_pos_absent(rules.drop_last(), id);
    }
}

/// `ids` with every id after its first occurrence left out.
pub open spec fn first_occurrences(ids: Seq<Seq<char>>) -> Seq<Seq<char>>
    decreases ids.len(),
{
    if ids.len() == 0 {
        Seq::empty()
    } else {
        let prev = first_occurrences(ids.drop_last());
        if prev.contains(ids.last()) { prev } else { prev.push(ids.last()) }
    }
}

/// The parameter keys of the rules `ids`, in order: `(id, 0), (id, 1), ...` for each
/// tunable of the id's rule; an id without a rule has none.
pub open spec fn keys_for(rules: Seq<RuleView>, counts: Seq<usize>, ids: Seq<Seq<char>>) -> Seq<(Seq<char>, usize)>
    decreases ids.len(),
{
    if ids.len() == 0 {
        Seq::empty()
    } else {
        let id = ids.last();
        let k = rule_pos(rules, id);
        keys_for(rules, counts, ids.drop_last()) + if k >= 0 {
            Seq::new(counts[k] as nat, |v: int| (id, v as usize))
        } else {
            Seq::empty()
        }
    }
}

/// The ids the parameter table walks: the shield order, the blade order, then every rule.
pub open spec fn param_walk(p: PoolView) -> Seq<Seq<char>> {
    p.shield_order + p.blade_order + p.rules.map_values(|r: RuleView| r.id)
}

/// The contents of a parameter key list.
pub open spec fn keys_view(v: Seq<(String, usize)>) -> Seq<(Seq<char>, usize)> {
    v.map_values(|e: (String, usize)| (e.0@, e.1))
}

fn contains_string(v: &Vec<String>, s: &String) -> (r: bool)
    ensures
        r == strings_view(v@).contains(s@),
{
    let mut k: usize = 0;
    while k < v.len()
        invariant
            k <= v@.len(),
            forall|a: int| 0 <= a < k ==> (#[trigger] v@[a])@ != s@,
        decreases v.len() - k,
    {
        if v[k] == *s {
            assert(strings_view(v@)[k as int] == s@);
            return true;
        }
        k = k + 1;
    }
    proof {
        if strings_view(v@).contains(s@) {
            let w = choose|w: int| 0 <= w < strings_view(v@).len() && #[trigger] strings_view(v@)[w] == s@;
            assert(v@[w]@ == s@);
        }
    }
    false
}

impl RulePool {
    /// Adds the keys of rule `id` unless it was seen.
    fn add_param_keys(
        &self,
        id: &String,
        counts: &Vec<usize>,
        seen: &mut Vec<String>,
        keys: &mut Vec<(String, usize)>,
        Ghost(done): Ghost<Seq<Seq<char>>>,
    )
        requires
            counts@.len() == self@.rules.len(),
            strings_view(old(seen)@) == first_occurrences(done),
            keys_view(old(keys)@) == keys_for(self@.rules, counts@, first_occurrences(done)),
        ensures
            strings_view(final(seen)@) == first_occurrences(done.push(id@)),
            keys_view(final(keys)@) == keys_for(self@.rules, counts@, first_occurrences(done.push(id@))),
    {
        assert(done.push(id@).drop_last() == done);
        if contains_string(seen, id) {
            return;
        }
        let ghost prev_seen = seen@;
        seen.push(id.clone());
        assert(strings_view(seen@) =~= strings_view(prev_seen).push(id@));
        let ghost fo = first_occurrences(done.push(id@));
        assert(fo.drop_last() == first_occurrences(done));
        assert(fo.last() == id@);
        match self.find(id.as_str()) {
            Some(k) => {
                proof {
                    lemma_rule_pos(self@.rules, id@, k as int);
                }
                let n = counts[k];
                let ghost base = keys@;
                let mut v: usize = 0;
                while v < n
                    invariant
                        v <= n,
                        keys_view(keys@) == keys_view(base) + Seq::new(v as nat, |t: int| (id@, t as usize)),
                    decreases n - v,
                {
                    let ghost prevk = keys@;
                    keys.push((id.clone(), v));
                    assert(keys_view(keys@) =~= keys_view(prevk).push((id@, v)));
                    assert(Seq::new((v + 1) as nat, |t: int| (id@, t as usize))
                        =~= Seq::new(v as nat, |t: int| (id@, t as usize)).push((id@, v)));
                    assert(keys_view(keys@) =~= keys_view(base) + Seq::new((v + 1) as nat, |t: int| (id@, t as usize)));
                    v = v + 1;
                }
            },
            None => {
                proof {
                    assert forall|j: int| 0 <= j < self@.rules.len() implies self@.rules[j].id != id@ by {
                        assert(!has_rule_id(self@.rules, id@));
                    }
                    lemma_rule_pos_absent(self@.rules, id@);
                }
                assert(keys_view(keys@) =~= keys_view(keys@) + Seq::<(Seq<char>, usize)>::empty());
            },
        }
    }

    /// The parameter keys `(rule id, tunable number)` of the optimizer's value vector, where
    /// `counts[k]` is the number of tunables of rule `k`: the rules of the shield order, then
    /// of the blade order, then the rest, each rule once.
    pub fn build_param_keys(&self, counts: &Vec<usize>) -> (r: Vec<(String, usize)>)
        requires
            counts@.len() == self@.rules.len(),
        ensures
            keys_view(r@) == keys_for(self@.rules, counts@, first_occurrences(param_walk(self@))),
    {
        let mut seen: Vec<String> = Vec::new();
        let mut keys: Vec<(String, usize)> = Vec::new();
        let ghost mut done: Seq<Seq<char>> = Seq::empty();
        assert(strings_view(seen@) =~= first_occurrences(done));
        assert(keys_view(keys@) =~= keys_for(self@.rules, counts@, first_occurrences(done)));
        let mut i: usize = 0;
        while i < self.shield_default_order.len()
            invariant
                i <= self@.shield_order.len(),
                counts@.len() == self@.rules.len(),
                done == self@.shield_order.take(i as int),
                strings_view(seen@) == first_occurrences(done),
                keys_view(keys@) == keys_for(self@.rules, counts@, first_occurrences(done)),
            decreases self.shield_default_order.len() - i,
        {
            self.add_param_keys(&self.shield_default_order[i], counts, &mut seen, &mut keys, Ghost(done));
            proof {
                assert(self@.shield_order.take(i as int + 1) == done.push(self.shield_default_order@[i as int]@));
                done = done.push(self.shield_default_order@[i as int]@);
            }
            i = i + 1;
        }
        assert(done == self@.shield_order);
        let mut j: usize = 0;
        while j < self.blade_default_order.len()
            invariant
                j <= self@.blade_order.len(),
                counts@.len() == self@.rules.len(),
                done == self@.shield_order + self@.blade_order.take(j as int),
                strings_view(seen@) == first_occurrences(done),
                keys_view(keys@) == keys_for(self@.rules, counts@, first_occurrences(done)),
            decreases self.blade_default_order.len() - j,
        {
            self.add_param_keys(&self.blade_default_order[j], counts, &mut seen, &mut keys, Ghost(done));
            proof {
                assert(self@.shield_order + self@.blade_order.take(j as int + 1) == done.push(self.blade_default_order@[j as int]@));
                done = done.push(self.blade_default_order@[j as int]@);
            }
            j = j + 1;
        }
        assert(done == self@.shield_order + self@.blade_order);
        let ghost ids = self@.rules.map_values(|r: RuleView| r.id);
        let mut k: usize = 0;
        while k < self.rules.len()
            invariant
                k <= self@.rules.len(),
                counts@.len() == self@.rules.len(),
                ids == self@.rules.map_values(|r: RuleView| r.id),
                done == self@.shield_order + self@.blade_order + ids.take(k as int),
                strings_view(seen@) == first_occurrences(done),
                keys_view(keys@) == keys_for(self@.rules, counts@, first_occurrences(done)),
            decreases self.rules.len() - k,
        {
            self.add_param_keys(&self.rules[k].id, counts, &mut seen, &mut keys, Ghost(done));
            proof {
                assert(ids[k as int] == self.rules@[k as int].id@);
                assert(self@.shield_order + self@.blade_order + ids.take(k as int + 1) == done.push(self.rules@[k as int].id@));
                done = done.push(self.rules@[k as int].id@);
            }
            k = k + 1;
        }
        assert(ids.take(ids.len() as int) == ids);
        keys
    }
}

} // verus!
