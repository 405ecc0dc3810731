//! Macro lines and pages as text: how a parsed line is written back, how pages are joined,
//! and how a macro configuration becomes the macro pages of a loop.

use vstd::prelude::*;
use vstd::string::*;
use crate::compact::{compact_from, compact_spec, dot_zero_tail_at, format_macro_compact};
use crate::loop_config::LoopMacro;
use crate::model::Stance;
use crate::runtime::push_str;
use crate::strings::{chars_of, string_of};
use crate::text::{trim, trim_by, trim_end_by, trim_spec, trim_start_by, ws, char_is_whitespace};

verus! {

/// The action of a macro line: `/cast` or `/fcast` of a skill.
#[derive(Debug, Clone)]
pub enum MacroAction {
    Cast(String),
    FCast(String),
}

/// A parsed macro line: its condition, in the form the condition is displayed, and its
/// action.
#[derive(Debug, Clone)]
pub struct MacroLine {
    pub condition: Option<String>,
    pub action: MacroAction,
}

/// A macro page: its stance filter and its lines.
#[derive(Debug, Clone)]
pub struct MacroPage {
    pub stance_filter: Option<Stance>,
    pub lines: Vec<MacroLine>,
}

/// A parsed macro: its pages.
#[derive(Debug, Clone)]
pub struct MacroConfig {
    pub pages: Vec<MacroPage>,
}

/// A macro line as a value.
pub ghost struct MacroLineView {
    pub condition: Option<Seq<char>>,
    pub fcast: bool,
    pub skill: Seq<char>,
}

impl View for MacroLine {
    type V = MacroLineView;

    open spec fn view(&self) -> MacroLineView {
        MacroLineView {
            condition: match self.condition {
                Some(c) => Some(c@),
                None => None,
            },
            fcast: self.action is FCast,
            skill: match self.action {
                MacroAction::Cast(n) => n@,
                MacroAction::FCast(n) => n@,
            },
        }
    }
}

impl MacroAction {
    /// Whether the action is `/fcast`.
    pub fn is_fcast(&self) -> (r: bool)
        ensures
            r == self is FCast,
    {
        match self {
            MacroAction::Cast(_) => false,
            MacroAction::FCast(_) => true,
        }
    }

    /// The skill the action casts.
    pub fn skill_name(&self) -> (r: &str)
        ensures
            r@ == (match *self {
                MacroAction::Cast(n) => n@,
                MacroAction::FCast(n) => n@,
            }),
    {
        match self {
            MacroAction::Cast(n) => n.as_str(),
            MacroAction::FCast(n) => n.as_str(),
        }
    }
}

/// A line written back: `/cast` or `/fcast`, the condition in brackets if any, a space, and
/// the skill.
pub open spec fn line_text_spec(l: MacroLineView) -> Seq<char> {
    (if l.fcast { "/fcast"@ } else { "/cast"@ }) + (match l.condition {
        Some(c) => " ["@ + c + "]"@,
        None => Seq::empty(),
    }) + " "@ + l.skill
}

/// Writes a line back as macro text.
pub fn serialize_line(line: &MacroLine) -> (r: String)
    ensures
        r@ == line_text_spec(line@),
{
    let mut v: Vec<char> = Vec::new();
    if line.action.is_fcast() {
        push_str(&mut v, "/fcast");
    } else {
        push_str(&mut v, "/cast");
    }
    match &line.condition {
        Some(c) => {
            push_str(&mut v, " [");
            push_str(&mut v, c.as_str());
            push_str(&mut v, "]");
        },
        None => {},
    }
    push_str(&mut v, " ");
    push_str(&mut v, line.action.skill_name());
    assert(v@ =~= line_text_spec(line@));
    string_of(&v)
}

/// Writes a line back as macro text, for the tunable preview.
pub fn format_line(line: &MacroLine) -> (r: String)
    ensures
        r@ == line_text_spec(line@),
{
    serialize_line(line)
}

/// The display name of a line's rule: its skill.
pub fn rule_display_name(line: &MacroLine) -> (r: String)
    ensures
        r@ == line@.skill,
{
    String::from_str(line.action.skill_name())
}

/// A copy of a line.
pub fn clone_macro_line(l: &MacroLine) -> (r: MacroLine)
    ensures
        r@ == l@,
{
    MacroLine {
        condition: match &l.condition {
            Some(c) => Some(c.clone()),
            None => None,
        },
        action: match &l.action {
            MacroAction::Cast(n) => MacroAction::Cast(n.clone()),
            MacroAction::FCast(n) => MacroAction::FCast(n.clone()),
        },
    }
}

/// Texts joined by line breaks.
pub open spec fn join_lines(ts: Seq<Seq<char>>) -> Seq<char>
    decreases ts.len(),
{
    if ts.len() == 0 {
        Seq::empty()
    } else if ts.len() == 1 {
        ts[0]
    } else {
        join_lines(ts.drop_last()) + "\n"@ + ts.last()
    }
}

/// The texts of a page's lines.
pub open spec fn line_texts(lines: Seq<MacroLine>) -> Seq<Seq<char>> {
    lines.map_values(|l: MacroLine| line_text_spec(l@))
}

/// A page's lines as text, one per row.
pub open spec fn page_text(lines: Seq<MacroLine>) -> Seq<char> {
    join_lines(line_texts(lines))
}

/// Writes a page's lines back, one per row.
pub fn serialize_lines(lines: &Vec<MacroLine>) -> (r: String)
    ensures
        r@ == page_text(lines@),
{
    let ghost ts = line_texts(lines@);
    let mut v: Vec<char> = Vec::new();
    let mut i: usize = 0;
    while i < lines.len()
        invariant
            i <= lines@.len(),
            ts == line_texts(lines@),
            v@ == join_lines(ts.take(i as int)),
        decreases lines.len() - i,
    {
        let t = serialize_line(&lines[i]);
        let ghost before = v@;
        if i > 0 {
            push_str(&mut v, "\n");
        }
        push_str(&mut v, t.as_str());
        proof {
            assert(ts.take(i as int + 1).drop_last() == ts.take(i as int));
            assert(ts.take(i as int + 1).last() == ts[i as int]);
            assert(ts[i as int] == t@);
            if i == 0 {
                assert(before =~= Seq::<char>::empty());
                assert(v@ =~= t@);
            }
        }
        i = i + 1;
    }
    assert(ts.take(ts.len() as int) == ts);
    string_of(&v)
}

/// Whether some page has a stance filter.
pub open spec fn any_stance(pages: Seq<MacroPage>) -> bool {
    exists|i: int| 0 <= i < pages.len() && (#[trigger] pages[i]).stance_filter is Some
}

/// The text of the last page with stance filter `s`, or empty.
pub open spec fn stance_page_text(pages: Seq<MacroPage>, s: Stance) -> Seq<char>
    decreases pages.len(),
{
    if pages.len() == 0 {
        Seq::empty()
    } else if pages.last().stance_filter == Some(s) {
        page_text(pages.last().lines@)
    } else {
        stance_page_text(pages.drop_last(), s)
    }
}

/// The text of the first page with stance filter `s`, or empty.
pub open spec fn first_stance_page_text(pages: Seq<MacroPage>, s: Stance) -> Seq<char>
    decreases pages.len(),
{
    if pages.len() == 0 {
        Seq::empty()
    } else if pages[0].stance_filter == Some(s) {
        page_text(pages[0].lines@)
    } else {
        first_stance_page_text(pages.drop_first(), s)
    }
}

/// The loop macro pages of a macro: a single general page when no page has a stance filter
/// (its first page, or empty), else the shield and blade pages.
pub open spec fn config_loop_macro_spec(pages: Seq<MacroPage>) -> (Seq<char>, Seq<char>, Seq<char>, Seq<char>) {
    if !any_stance(pages) {
        ("general"@, if pages.len() == 0 { Seq::empty() } else { page_text(pages[0].lines@) }, Seq::empty(), Seq::empty())
    } else {
        ("stance"@, Seq::empty(), stance_page_text(pages, Stance::Shield), stance_page_text(pages, Stance::Blade))
    }
}

/// The contents of a loop macro: mode, general, shield, blade.
pub open spec fn loop_macro_view(m: LoopMacro) -> (Seq<char>, Seq<char>, Seq<char>, Seq<char>) {
    (m.mode@, m.general@, m.shield@, m.blade@)
}

/// The texts of the last shield page and the last blade page.
fn stance_texts(cfg: &MacroConfig) -> (r: (String, String))
    ensures
        r.0@ == stance_page_text(cfg.pages@, Stance::Shield),
        r.1@ == stance_page_text(cfg.pages@, Stance::Blade),
{
    let mut shield = String::new();
    let mut blade = String::new();
    let mut i: usize = 0;
    assert(cfg.pages@.take(0) =~= Seq::<MacroPage>::empty());
    while i < cfg.pages.len()
        invariant
            i <= cfg.pages@.len(),
            shield@ == stance_page_text(cfg.pages@.take(i as int), Stance::Shield),
            blade@ == stance_page_text(cfg.pages@.take(i as int), Stance::Blade),
        decreases cfg.pages.len() - i,
    {
        let p = &cfg.pages[i];
        proof {
            assert(cfg.pages@.take(i as int + 1).drop_last() == cfg.pages@.take(i as int));
            assert(cfg.pages@.take(i as int + 1).last() == *p);
        }
        match p.stance_filter {
            Some(Stance::Shield) => {
                shield = serialize_lines(&p.lines);
            },
            Some(Stance::Blade) => {
                blade = serialize_lines(&p.lines);
            },
            _ => {},
        }
        i = i + 1;
    }
    assert(cfg.pages@.take(cfg.pages@.len() as int) == cfg.pages@);
    (shield, blade)
}

fn has_stance_page(cfg: &MacroConfig) -> (r: bool)
    ensures
        r == any_stance(cfg.pages@),
{
    let mut i: usize = 0;
    while i < cfg.pages.len()
        invariant
            i <= cfg.pages@.len(),
            forall|k: int| 0 <= k < i ==> (#[trigger] cfg.pages@[k]).stance_filter is None,
        decreases cfg.pages.len() - i,
    {
        if cfg.pages[i].stance_filter.is_some() {
            assert(cfg.pages@[i as int].stance_filter is Some);
            return true;
        }
        i = i + 1;
    }
    false
}

/// The loop macro pages of a macro: one general page when no page has a stance filter,
/// else the shield and blade pages.
pub fn macro_config_to_loop_macro(cfg: &MacroConfig) -> (r: LoopMacro)
    ensures
        loop_macro_view(r) == config_loop_macro_spec(cfg.pages@),
{
    if !has_stance_page(cfg) {
        let text = if cfg.pages.len() == 0 { String::new() } else { serialize_lines(&cfg.pages[0].lines) };
        return LoopMacro { mode: String::from_str("general"), general: text, shield: String::new(), blade: String::new() };
    }
    let (shield, blade) = stance_texts(cfg);
    LoopMacro { mode: String::from_str("stance"), general: String::new(), shield, blade }
}

/// The loop macro pages of a rendered structure individual: always the stance mode, with
/// the texts of its shield and blade pages.
pub fn render_to_loop_macro(cfg: &MacroConfig) -> (r: LoopMacro)
    ensures
        loop_macro_view(r) == ("stance"@, Seq::<char>::empty(), stance_page_text(cfg.pages@, Stance::Shield),
            stance_page_text(cfg.pages@, Stance::Blade)),
{
    let (shield, blade) = stance_texts(cfg);
    LoopMacro { mode: String::from_str("stance"), general: String::new(), shield, blade }
}

/// A rendered structure individual: its two pages, the rules each page emitted, and the
/// rules the page budget dropped.
#[derive(Debug, Clone)]
pub struct RenderResult {
    pub config: MacroConfig,
    pub shield_emitted: Vec<String>,
    pub blade_emitted: Vec<String>,
    pub shield_truncated: Vec<String>,
    pub blade_truncated: Vec<String>,
}

fn first_text(cfg: &MacroConfig, s: Stance) -> (r: String)
    ensures
        r@ == first_stance_page_text(cfg.pages@, s),
{
    let mut i: usize = 0;
    assert(cfg.pages@.skip(0) == cfg.pages@);
    while i < cfg.pages.len()
        invariant
            i <= cfg.pages@.len(),
            first_stance_page_text(cfg.pages@, s) == first_stance_page_text(cfg.pages@.skip(i as int), s),
        decreases cfg.pages.len() - i,
    {
        assert(cfg.pages@.skip(i as int).drop_first() == cfg.pages@.skip(i as int + 1));
        assert(cfg.pages@.skip(i as int)[0] == cfg.pages@[i as int]);
        if cfg.pages[i].stance_filter == Some(s) {
            return serialize_lines(&cfg.pages[i].lines);
        }
        i = i + 1;
    }
    String::new()
}

/// The macro text of a structure individual before compaction: a `#page shield` section
/// when its shield page has text, then a `#page blade` section when its blade page has.
pub open spec fn struct_text_spec(shield: Seq<char>, blade: Seq<char>) -> Seq<char> {
    (if shield.len() > 0 { "#page shield\n"@ + shield + "\n"@ } else { Seq::empty() })
        + (if blade.len() > 0 { "#page blade\n"@ + blade } else { Seq::empty() })
}

/// The compact macro text of a rendered structure individual.
pub fn build_macro_text_struct(rendered: &RenderResult) -> (r: String)
    ensures
        r@ == compact_spec(struct_text_spec(
            first_stance_page_text(rendered.config.pages@, Stance::Shield),
            first_stance_page_text(rendered.config.pages@, Stance::Blade),
        )),
{
    let shield = first_text(&rendered.config, Stance::Shield);
    let blade = first_text(&rendered.config, Stance::Blade);
    let mut v: Vec<char> = Vec::new();
    if shield.as_str().is_empty() == false {
        push_str(&mut v, "#page shield\n");
        push_str(&mut v, shield.as_str());
        push_str(&mut v, "\n");
    }
    let ghost mid = v@;
    if blade.as_str().is_empty() == false {
        push_str(&mut v, "#page blade\n");
        push_str(&mut v, blade.as_str());
    }
    assert(v@ =~= struct_text_spec(shield@, blade@));
    let out = string_of(&v);
    format_macro_compact(out.as_str())
}

/// The `#page` tag of a stance filter: shield, blade and wall pages have one.
pub open spec fn page_tag_text(s: Option<Stance>) -> Option<Seq<char>> {
    match s {
        Some(Stance::Shield) => Some("shield"@),
        Some(Stance::Blade) => Some("blade"@),
        Some(Stance::Wall) => Some("wall"@),
        _ => None,
    }
}

/// The pages written one after the other: a tagged page starts with its `#page` line (on
/// a new line when text came before), and every page's lines end with a line break.
pub open spec fn pages_text(pages: Seq<MacroPage>) -> Seq<char>
    decreases pages.len(),
{
    if pages.len() == 0 {
        Seq::empty()
    } else {
        let out = pages_text(pages.drop_last());
        let p = pages.last();
        let head = match page_tag_text(p.stance_filter) {
            Some(t) => (if out.len() > 0 { out + "\n"@ } else { out }) + "#page "@ + t + "\n"@,
            None => out,
        };
        head + page_text(p.lines@) + "\n"@
    }
}

/// The full macro text of a macro: its first page's lines when no page has a stance
/// filter, else every page with its `#page` tag, trimmed; then compacted.
pub open spec fn macro_text_spec(pages: Seq<MacroPage>) -> Seq<char> {
    compact_spec(
        if !any_stance(pages) {
            if pages.len() == 0 { Seq::empty() } else { page_text(pages[0].lines@) }
        } else {
            trim_spec(pages_text(pages))
        },
    )
}

fn tag_of(s: Option<Stance>) -> (r: Option<&'static str>)
    ensures
        match r {
            Some(t) => page_tag_text(s) == Some(t@),
            None => page_tag_text(s) is None,
        },
{
    match s {
        Some(Stance::Shield) => {
            proof { reveal_strlit("shield"); }
            Some("shield")
        },
        Some(Stance::Blade) => {
            proof { reveal_strlit("blade"); }
            Some("blade")
        },
        Some(Stance::Wall) => {
            proof { reveal_strlit("wall"); }
            Some("wall")
        },
        _ => None,
    }
}

/// The compact full macro text of a macro, as the optimizer shows and copies it.
pub fn build_macro_text(cfg: &MacroConfig) -> (r: String)
    ensures
        r@ == macro_text_spec(cfg.pages@),
{
    if !has_stance_page(cfg) {
        let raw = if cfg.pages.len() == 0 { String::new() } else { serialize_lines(&cfg.pages[0].lines) };
        return format_macro_compact(raw.as_str());
    }
    let mut v: Vec<char> = Vec::new();
    let mut i: usize = 0;
    assert(cfg.pages@.take(0) =~= Seq::<MacroPage>::empty());
    while i < cfg.pages.len()
        invariant
            i <= cfg.pages@.len(),
            v@ == pages_text(cfg.pages@.take(i as int)),
        decreases cfg.pages.len() - i,
    {
        let p = &cfg.pages[i];
        proof {
            assert(cfg.pages@.take(i as int + 1).drop_last() == cfg.pages@.take(i as int));
            assert(cfg.pages@.take(i as int + 1).last() == *p);
        }
        match tag_of(p.stance_filter) {
            Some(t) => {
                if v.len() > 0 {
                    push_str(&mut v, "\n");
                }
                push_str(&mut v, "#page ");
                push_str(&mut v, t);
                push_str(&mut v, "\n");
            },
            None => {},
        }
        let text = serialize_lines(&p.lines);
        push_str(&mut v, text.as_str());
        push_str(&mut v, "\n");
        i = i + 1;
    }
    assert(cfg.pages@.take(cfg.pages@.len() as int) == cfg.pages@);
    let raw = string_of(&v);
    let t = trim(raw.as_str());
    format_macro_compact(t.as_str())
}

/// `w` occurs in `s` as a contiguous piece.
pub open spec fn has_sub(s: Seq<char>, w: Seq<char>) -> bool {
    exists|i: int| 0 <= i && i + w.len() <= s.len() && #[trigger] s.subrange(i, i + w.len()) == w
}

proof fn lemma_sub_in_prefix(a: Seq<char>, b: Seq<char>, w: Seq<char>)
    requires
        has_sub(a, w),
    ensures
        has_sub(a + b, w),
{
    let i = choose|i: int| 0 <= i && i + w.len() <= a.len() && #[trigger] a.subrange(i, i + w.len()) == w;
    assert((a + b).subrange(i, i + w.len()) =~= a.subrange(i, i + w.len()));
}

proof fn lemma_sub_in_suffix(a: Seq<char>, b: Seq<char>, w: Seq<char>)
    requires
        has_sub(b, w),
    ensures
        has_sub(a + b, w),
{
    let i = choose|i: int| 0 <= i && i + w.len() <= b.len() && #[trigger] b.subrange(i, i + w.len()) == w;
    assert((a + b).subrange(a.len() + i, a.len() + i + w.len()) =~= b.subrange(i, i + w.len()));
}

proof fn lemma_trim_start_keeps(s: Seq<char>, w: Seq<char>, p: spec_fn(char) -> bool)
    requires
        has_sub(s, w),
        w.len() > 0,
        !p(w[0]),
    ensures
        has_sub(trim_start_by(s, p), w),
    decreases s.len(),
{
    if s.len() > 0 && p(s[0]) {
        let i = choose|i: int| 0 <= i && i + w.len() <= s.len() && #[trigger] s.subrange(i, i + w.len()) == w;
        assert(s[i] == s.subrange(i, i + w.len())[0]);
        assert(i != 0);
        assert(s.drop_first().subrange(i - 1, i - 1 + w.len()) =~= s.subrange(i, i + w.len()));
        lemma_trim_start_keeps(s.drop_first(), w, p);
    }
}

proof fn lemma_trim_end_keeps(s: Seq<char>, w: Seq<char>, p: spec_fn(char) -> bool)
    requires
        has_sub(s, w),
        w.len() > 0,
        !p(w[w.len() - 1]),
    ensures
        has_sub(trim_end_by(s, p), w),
    decreases s.len(),
{
    if s.len() > 0 && p(s.last()) {
        let i = choose|i: int| 0 <= i && i + w.len() <= s.len() && #[trigger] s.subrange(i, i + w.len()) == w;
        assert(s[i + w.len() - 1] == s.subrange(i, i + w.len())[w.len() - 1]);
        assert(i + w.len() < s.len());
        assert(s.drop_last().subrange(i, i + w.len()) =~= s.subrange(i, i + w.len()));
        lemma_trim_end_keeps(s.drop_last(), w, p);
    }
}

/// A piece that starts and ends with a non-space character survives trimming.
proof fn lemma_trim_keeps(s: Seq<char>, w: Seq<char>)
    requires
        has_sub(s, w),
        w.len() > 0,
        !char_is_whitespace(w[0]),
        !char_is_whitespace(w[w.len() - 1]),
    ensures
        has_sub(trim_spec(s), w),
{
    lemma_trim_start_keeps(s, w, ws());
    lemma_trim_end_keeps(trim_start_by(s, ws()), w, ws());
}

/// Piece characters that compaction never drops or swallows.
pub open spec fn compact_safe(w: Seq<char>) -> bool {
    &&& w.len() > 0
    &&& w[0] != '0'
    &&& forall|k: int| 0 <= k < w.len() ==> #[trigger] w[k] != '[' && w[k] != ']' && w[k] != '.'
}

proof fn lemma_compact_passes(s: Seq<char>, w: Seq<char>, i: int, m: int)
    requires
        0 <= i,
        i + w.len() <= s.len(),
        s.subrange(i, i + w.len()) == w,
        compact_safe(w),
        0 <= m <= w.len(),
    ensures
        compact_from(s, i) == w.take(m) + compact_from(s, i + m),
    decreases m,
{
    if m > 0 {
        lemma_compact_passes(s, w, i, m - 1);
        let j = i + m - 1;
        assert(s[j] == s.subrange(i, i + w.len())[m - 1]);
        assert(s[j] == w[m - 1]);
        assert(!dot_zero_tail_at(s, j));
        assert(compact_from(s, j) == seq![s[j]] + compact_from(s, j + 1));
        assert(w.take(m) =~= w.take(m - 1) + seq![w[m - 1]]);
    } else {
        assert(w.take(0) =~= Seq::<char>::empty());
    }
}

proof fn lemma_compact_keeps_from(s: Seq<char>, w: Seq<char>, i: int, j: int)
    requires
        0 <= j <= i,
        i + w.len() <= s.len(),
        s.subrange(i, i + w.len()) == w,
        compact_safe(w),
    ensures
        has_sub(compact_from(s, j), w),
    decreases i - j,
{
    if j == i {
        lemma_compact_passes(s, w, i, w.len() as int);
        assert(w.take(w.len() as int) == w);
        let c = compact_from(s, i);
        assert(c.subrange(0int, 0int + w.len()) =~= w);
        assert(has_sub(c, w));
    } else if s[j] == '[' || s[j] == ']' {
        lemma_compact_keeps_from(s, w, i, j + 1);
        assert(compact_from(s, j) == compact_from(s, j + 1));
    } else if dot_zero_tail_at(s, j) {
        assert(s[i] == s.subrange(i, i + w.len())[0]);
        assert(j + 1 != i);
        lemma_compact_keeps_from(s, w, i, j + 2);
        assert(compact_from(s, j) == compact_from(s, j + 2));
    } else {
        lemma_compact_keeps_from(s, w, i, j + 1);
        lemma_sub_in_suffix(seq![s[j]], compact_from(s, j + 1), w);
        assert(compact_from(s, j) == seq![s[j]] + compact_from(s, j + 1));
    }
}

/// A piece with no bracket, no dot and no leading zero survives compaction.
proof fn lemma_compact_keeps(s: Seq<char>, w: Seq<char>)
    requires
        has_sub(s, w),
        compact_safe(w),
    ensures
        has_sub(compact_spec(s), w),
{
    let i = choose|i: int| 0 <= i && i + w.len() <= s.len() && #[trigger] s.subrange(i, i + w.len()) == w;
    lemma_compact_keeps_from(s, w, i, 0);
}

proof fn lemma_pages_text_tag(pages: Seq<MacroPage>, k: int, t: Seq<char>)
    requires
        0 <= k < pages.len(),
        page_tag_text(pages[k].stance_filter) == Some(t),
    ensures
        has_sub(pages_text(pages), "#page "@ + t),
    decreases pages.len(),
{
    let out = pages_text(pages.drop_last());
    let p = pages.last();
    let w = "#page "@ + t;
    if k == pages.len() - 1 {
        let x = if out.len() > 0 { out + "\n"@ } else { out };
        let head = x + "#page "@ + t + "\n"@;
        assert(pages_text(pages) == head + page_text(p.lines@) + "\n"@);
        assert(head.subrange(x.len() as int, (x.len() + w.len()) as int) =~= w);
        assert(has_sub(head, w));
        lemma_sub_in_prefix(head, page_text(p.lines@) + "\n"@, w);
        assert(head + (page_text(p.lines@) + "\n"@) =~= head + page_text(p.lines@) + "\n"@);
    } else {
        assert(pages.drop_last()[k] == pages[k]);
        lemma_pages_text_tag(pages.drop_last(), k, t);
        let rest_after = match page_tag_text(p.stance_filter) {
            Some(u) => (if out.len() > 0 { "\n"@ } else { Seq::empty() }) + "#page "@ + u + "\n"@ + page_text(p.lines@) + "\n"@,
            None => page_text(p.lines@) + "\n"@,
        };
        lemma_sub_in_prefix(out, rest_after, w);
        assert(pages_text(pages) =~= out + rest_after);
    }
}

proof fn lemma_tag_survives(pages: Seq<MacroPage>, k: int, t: Seq<char>)
    requires
        0 <= k < pages.len(),
        page_tag_text(pages[k].stance_filter) == Some(t),
        compact_safe("#page "@ + t),
        !char_is_whitespace(("#page "@ + t)[0]),
        !char_is_whitespace(("#page "@ + t).last()),
    ensures
        has_sub(macro_text_spec(pages), "#page "@ + t),
{
    assert(pages[k].stance_filter is Some);
    assert(any_stance(pages));
    lemma_pages_text_tag(pages, k, t);
    let w = "#page "@ + t;
    assert(w[w.len() - 1] == w.last());
    lemma_trim_keeps(pages_text(pages), w);
    lemma_compact_keeps(trim_spec(pages_text(pages)), w);
}

/// In the full macro text every shield, blade and wall page is introduced by its
/// `#page shield`, `#page blade` or `#page wall` line, so no page's lines fall into
/// another's.
pub proof fn law_macro_text_page_tags(pages: Seq<MacroPage>)
    ensures
        (exists|k: int| 0 <= k < pages.len() && #[trigger] pages[k].stance_filter == Some(Stance::Shield))
            ==> has_sub(macro_text_spec(pages), "#page shield"@),
        (exists|k: int| 0 <= k < pages.len() && #[trigger] pages[k].stance_filter == Some(Stance::Blade))
            ==> has_sub(macro_text_spec(pages), "#page blade"@),
        (exists|k: int| 0 <= k < pages.len() && #[trigger] pages[k].stance_filter == Some(Stance::Wall))
            ==> has_sub(macro_text_spec(pages), "#page wall"@),
{
    reveal_strlit("#page ");
    reveal_strlit("shield");
    reveal_strlit("blade");
    reveal_strlit("wall");
    reveal_strlit("#page shield");
    reveal_strlit("#page blade");
    reveal_strlit("#page wall");
    assert("#page "@ + "shield"@ =~= "#page shield"@);
    assert("#page "@ + "blade"@ =~= "#page blade"@);
    assert("#page "@ + "wall"@ =~= "#page wall"@);
    if exists|k: int| 0 <= k < pages.len() && #[trigger] pages[k].stance_filter == Some(Stance::Shield) {
        let k = choose|k: int| 0 <= k < pages.len() && #[trigger] pages[k].stance_filter == Some(Stance::Shield);
        lemma_tag_survives(pages, k, "shield"@);
    }
    if exists|k: int| 0 <= k < pages.len() && #[trigger] pages[k].stance_filter == Some(Stance::Blade) {
        let k = choose|k: int| 0 <= k < pages.len() && #[trigger] pages[k].stance_filter == Some(Stance::Blade);
        lemma_tag_survives(pages, k, "blade"@);
    }
    if exists|k: int| 0 <= k < pages.len() && #[trigger] pages[k].stance_filter == Some(Stance::Wall) {
        let k = choose|k: int| 0 <= k < pages.len() && #[trigger] pages[k].stance_filter == Some(Stance::Wall);
        lemma_tag_survives(pages, k, "wall"@);
    }
}

} // verus!
