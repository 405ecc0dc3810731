//! Text rules: trimming, file-name sanitising, secret-looking setting keys, icon URLs,
//! and the compact form in which a macro is pasted into the game.

use vstd::prelude::*;
use vstd::string::*;

use crate::strings::{chars_of, string_of};

verus! {

/// Whether `c` has the Unicode White_Space property: the controls U+0009 to U+000D,
/// space, U+0085, no-break space, U+1680, U+2000 to U+200A, the line and paragraph
/// separators, U+202F, U+205F and U+3000.
pub open spec fn char_is_whitespace(c: char) -> bool {
    let u = c as u32;
    ||| 0x09 <= u <= 0x0D
    ||| u == 0x20 || u == 0x85 || u == 0xA0 || u == 0x1680
    ||| 0x2000 <= u <= 0x200A
    ||| u == 0x2028 || u == 0x2029 || u == 0x202F || u == 0x205F || u == 0x3000
}

/// Whether `c` is Unicode Alphabetic or Numeric (what `char::is_alphanumeric` returns).
pub uninterp spec fn char_is_alphanumeric(c: char) -> bool;

/// Whether `c` is white space (what `char::is_whitespace` answers).
pub(crate) fn is_whitespace(c: char) -> (r: bool)
    ensures
        r == char_is_whitespace(c),
{
    let u = c as u32;
    (0x09 <= u && u <= 0x0D) || u == 0x20 || u == 0x85 || u == 0xA0 || u == 0x1680
        || (0x2000 <= u && u <= 0x200A) || u == 0x2028 || u == 0x2029 || u == 0x202F
        || u == 0x205F || u == 0x3000
}

/// `char::is_alphanumeric`; std's result depends on the character alone.
#[verifier::external_body]
pub(crate) fn is_alphanumeric(c: char) -> (r: bool)
    ensures
        r == char_is_alphanumeric(c),
{
    c.is_alphanumeric()
}

/// `s` without its leading characters satisfying `p`.
pub open spec fn trim_start_by(s: Seq<char>, p: spec_fn(char) -> bool) -> Seq<char>
    decreases s.len(),
{
    if s.len() > 0 && p(s[0]) { trim_start_by(s.drop_first(), p) } else { s }
}

/// `s` without its trailing characters satisfying `p`.
pub open spec fn trim_end_by(s: Seq<char>, p: spec_fn(char) -> bool) -> Seq<char>
    decreases s.len(),
{
    if s.len() > 0 && p(s.last()) { trim_end_by(s.drop_last(), p) } else { s }
}

/// `s` without its leading and trailing characters satisfying `p`.
pub open spec fn trim_by(s: Seq<char>, p: spec_fn(char) -> bool) -> Seq<char> {
    trim_end_by(trim_start_by(s, p), p)
}

/// White space, as `str::trim` removes it.
pub open spec fn ws() -> spec_fn(char) -> bool {
    |c: char| char_is_whitespace(c)
}

/// The dot, as `trim_matches('.')` removes it.
pub open spec fn dot() -> spec_fn(char) -> bool {
    |c: char| c == '.'
}

/// What `str::trim` returns.
pub open spec fn trim_spec(s: Seq<char>) -> Seq<char> {
    trim_by(s, ws())
}

fn is_trim_char(c: char, dots: bool) -> (r: bool)
    ensures
        r == (if dots { dot() } else { ws() })(c),
{
    if dots { c == '.' } else { is_whitespace(c) }
}

/// `cs` without leading and trailing white space (or dots, where `dots`).
pub fn trim_chars(cs: &Vec<char>, dots: bool) -> (r: Vec<char>)
    ensures
        r@ == trim_by(cs@, if dots { dot() } else { ws() }),
{
    let ghost p = if dots { dot() } else { ws() };
    let n = cs.len();
    let mut lo: usize = 0;
    assert(cs@.subrange(0, n as int) == cs@);
    while lo < n && is_trim_char(cs[lo], dots)
        invariant
            lo <= n == cs@.len(),
            p == (if dots { dot() } else { ws() }),
            trim_start_by(cs@, p) == trim_start_by(cs@.subrange(lo as int, n as int), p),
        decreases n - lo,
    {
        assert(cs@.subrange(lo as int, n as int).drop_first() == cs@.subrange(lo as int + 1, n as int));
        lo = lo + 1;
    }
    assert(trim_start_by(cs@, p) == cs@.subrange(lo as int, n as int));
    let mut hi: usize = n;
    while hi > lo && is_trim_char(cs[hi - 1], dots)
        invariant
            lo <= hi <= n == cs@.len(),
            p == (if dots { dot() } else { ws() }),
            trim_end_by(cs@.subrange(lo as int, n as int), p)
                == trim_end_by(cs@.subrange(lo as int, hi as int), p),
        decreases hi - lo,
    {
        assert(cs@.subrange(lo as int, hi as int).drop_last() == cs@.subrange(lo as int, hi as int - 1));
        hi = hi - 1;
    }
    assert(trim_end_by(cs@.subrange(lo as int, hi as int), p) == cs@.subrange(lo as int, hi as int));
    let mut out: Vec<char> = Vec::new();
    let mut i: usize = lo;
    while i < hi
        invariant
            lo <= i <= hi <= n == cs@.len(),
            out@ == cs@.subrange(lo as int, i as int),
        decreases hi - i,
    {
        out.push(cs[i]);
        assert(cs@.subrange(lo as int, i as int + 1) == cs@.subrange(lo as int, i as int).push(cs@[i as int]));
        i = i + 1;
    }
    out
}

/// `str::trim`: `s` without leading and trailing white space.
pub fn trim(s: &str) -> (r: String)
    ensures
        r@ == trim_spec(s@),
{
    let cs = chars_of(s);
    let t = trim_chars(&cs, false);
    string_of(&t)
}


/// Whether `c` is one of the CJK unified ideographs `U+4E00..=U+9FFF`.
pub open spec fn is_cjk(c: char) -> bool {
    '\u{4e00}' <= c <= '\u{9fff}'
}

/// Characters kept in a profile name (and, with `allow_dot`, in a loop name), where `alnum`
/// says which characters are letters or digits.
pub open spec fn keep_name_char_by(c: char, allow_dot: bool, alnum: spec_fn(char) -> bool) -> bool {
    alnum(c) || c == '_' || c == '-' || c == ' ' || (allow_dot && c == '.') || is_cjk(c)
}

/// `keep_name_char_by` as a predicate.
pub open spec fn name_pred_by(allow_dot: bool, alnum: spec_fn(char) -> bool) -> spec_fn(char) -> bool {
    |c: char| keep_name_char_by(c, allow_dot, alnum)
}

/// Unicode letters and digits, as `char::is_alphanumeric` tells them.
pub open spec fn alnum_pred() -> spec_fn(char) -> bool {
    |c: char| char_is_alphanumeric(c)
}

/// The characters listed in `v`.
pub open spec fn listed(v: Seq<char>) -> spec_fn(char) -> bool {
    |c: char| v.contains(c)
}

/// Characters kept in a profile name (and, with `allow_dot`, in a loop name).
pub open spec fn keep_name_char(c: char, allow_dot: bool) -> bool {
    keep_name_char_by(c, allow_dot, alnum_pred())
}

/// `keep_name_char` as a predicate.
pub open spec fn name_pred(allow_dot: bool) -> spec_fn(char) -> bool {
    name_pred_by(allow_dot, alnum_pred())
}

/// Whether `s` holds two dots in a row.
pub open spec fn has_double_dot(s: Seq<char>) -> bool {
    exists|i: int| 0 <= i < s.len() - 1 && s[i] == '.' && #[trigger] s[i + 1] == '.'
}

/// The safe form of a profile name, with `alnum` telling letters and digits: trimmed,
/// reduced to letters, digits, `_`, `-`, space and CJK ideographs, trimmed again; `None`
/// when nothing usable is left.
pub open spec fn sanitize_profile_by(s: Seq<char>, alnum: spec_fn(char) -> bool) -> Option<Seq<char>> {
    let t = trim_spec(s);
    if t.len() == 0 {
        None
    } else {
        let o = trim_spec(t.filter(name_pred_by(false, alnum)));
        if o.len() == 0 || has_double_dot(o) { None } else { Some(o) }
    }
}

/// The safe form of a profile name (Unicode letters and digits).
pub open spec fn sanitize_profile_spec(s: Seq<char>) -> Option<Seq<char>> {
    sanitize_profile_by(s, alnum_pred())
}

/// The safe form of a loop name, with `alnum` telling letters and digits: reduced to
/// letters, digits, `-`, `_`, `.`, space and CJK ideographs, trimmed of white space and
/// then of dots; `loop` when nothing is left.
pub open spec fn sanitize_loop_by(s: Seq<char>, alnum: spec_fn(char) -> bool) -> Seq<char> {
    let o = trim_by(trim_spec(s.filter(name_pred_by(true, alnum))), dot());
    if o.len() == 0 { "loop"@ } else { o }
}

/// The safe form of a loop name (Unicode letters and digits).
pub open spec fn sanitize_loop_spec(s: Seq<char>) -> Seq<char> {
    sanitize_loop_by(s, alnum_pred())
}

proof fn lemma_trim_start_within(s: Seq<char>, p: spec_fn(char) -> bool)
    ensures
        forall|c: char| trim_start_by(s, p).contains(c) ==> s.contains(c),
    decreases s.len(),
{
    if s.len() > 0 && p(s[0]) {
        lemma_trim_start_within(s.drop_first(), p);
        assert forall|c: char| s.drop_first().contains(c) implies s.contains(c) by {
            let k = choose|k: int| 0 <= k < s.drop_first().len() && s.drop_first()[k] == c;
            assert(s[k + 1] == c);
        }
    }
}

proof fn lemma_trim_end_within(s: Seq<char>, p: spec_fn(char) -> bool)
    ensures
        forall|c: char| trim_end_by(s, p).contains(c) ==> s.contains(c),
    decreases s.len(),
{
    if s.len() > 0 && p(s.last()) {
        lemma_trim_end_within(s.drop_last(), p);
        assert forall|c: char| s.drop_last().contains(c) implies s.contains(c) by {
            let k = choose|k: int| 0 <= k < s.drop_last().len() && s.drop_last()[k] == c;
            assert(s[k] == c);
        }
    }
}

proof fn lemma_trim_within(s: Seq<char>, p: spec_fn(char) -> bool)
    ensures
        forall|c: char| trim_by(s, p).contains(c) ==> s.contains(c),
{
    lemma_trim_start_within(s, p);
    lemma_trim_end_within(trim_start_by(s, p), p);
}

proof fn lemma_filter_agree(s: Seq<char>, p: spec_fn(char) -> bool, q: spec_fn(char) -> bool)
    requires
        forall|c: char| s.contains(c) ==> p(c) == q(c),
    ensures
        s.filter(p) == s.filter(q),
    decreases s.len(),
{
    reveal(Seq::filter);
    if s.len() > 0 {
        assert forall|c: char| s.drop_last().contains(c) implies p(c) == q(c) by {
            let k = choose|k: int| 0 <= k < s.drop_last().len() && s.drop_last()[k] == c;
            assert(s[k] == c);
            assert(s.contains(c));
        }
        lemma_filter_agree(s.drop_last(), p, q);
        assert(s[s.len() - 1] == s.last());
        assert(s.contains(s.last()));
        assert(p(s.last()) == q(s.last()));
    }
}

/// The sanitised names depend on the letter-and-digit test only through the characters
/// the name holds.
proof fn lemma_sanitize_agree(s: Seq<char>, p: spec_fn(char) -> bool, q: spec_fn(char) -> bool)
    requires
        forall|c: char| s.contains(c) ==> p(c) == q(c),
    ensures
        sanitize_profile_by(s, p) == sanitize_profile_by(s, q),
        sanitize_loop_by(s, p) == sanitize_loop_by(s, q),
{
    let t = trim_spec(s);
    lemma_trim_within(s, ws());
    assert forall|c: char| t.contains(c) implies name_pred_by(false, p)(c) == name_pred_by(false, q)(c) by {
        assert(s.contains(c));
    }
    lemma_filter_agree(t, name_pred_by(false, p), name_pred_by(false, q));
    assert forall|c: char| s.contains(c) implies name_pred_by(true, p)(c) == name_pred_by(true, q)(c) by {
        assert(p(c) == q(c));
    }
    lemma_filter_agree(s, name_pred_by(true, p), name_pred_by(true, q));
}

fn listed_contains(v: &Vec<char>, c: char) -> (r: bool)
    ensures
        r == v@.contains(c),
{
    let mut i: usize = 0;
    while i < v.len()
        invariant
            i <= v@.len(),
            forall|k: int| 0 <= k < i ==> v@[k] != c,
        decreases v.len() - i,
    {
        if v[i] == c {
            return true;
        }
        i = i + 1;
    }
    false
}

/// The characters of `cs` that may stand in a name, with the letters and digits those
/// listed in `alnum`.
fn filter_name_chars(cs: &Vec<char>, allow_dot: bool, alnum: &Vec<char>) -> (r: Vec<char>)
    ensures
        r@ == cs@.filter(name_pred_by(allow_dot, listed(alnum@))),
{
    let ghost pred = name_pred_by(allow_dot, listed(alnum@));
    let mut out: Vec<char> = Vec::new();
    let mut i: usize = 0;
    while i < cs.len()
        invariant
            i <= cs@.len(),
            pred == name_pred_by(allow_dot, listed(alnum@)),
            out@ == cs@.take(i as int).filter(pred),
        decreases cs.len() - i,
    {
        let c = cs[i];
        proof {
            assert(cs@.take(i as int + 1) == cs@.take(i as int).push(c));
            cs@.take(i as int).lemma_filter_push(c, pred);
        }
        if listed_contains(alnum, c) || c == '_' || c == '-' || c == ' ' || (allow_dot && c == '.')
            || ('\u{4e00}' <= c && c <= '\u{9fff}') {
            out.push(c);
        }
        i = i + 1;
    }
    assert(cs@.take(cs.len() as int) == cs@);
    out
}

/// The letters and digits among `cs`, as `char::is_alphanumeric` tells them.
fn alnum_chars(cs: &Vec<char>) -> (r: Vec<char>)
    ensures
        forall|c: char| cs@.contains(c) ==> (r@.contains(c) == char_is_alphanumeric(c)),
{
    let mut out: Vec<char> = Vec::new();
    let mut i: usize = 0;
    while i < cs.len()
        invariant
            i <= cs@.len(),
            forall|c: char| out@.contains(c) ==> char_is_alphanumeric(c),
            forall|k: int| 0 <= k < i && char_is_alphanumeric(#[trigger] cs@[k]) ==> out@.contains(cs@[k]),
        decreases cs.len() - i,
    {
        let c = cs[i];
        if is_alphanumeric(c) {
            let ghost before = out@;
            out.push(c);
            proof {
                assert(out@[before.len() as int] == c);
                assert forall|d: char| out@.contains(d) implies char_is_alphanumeric(d) by {
                    let k = choose|k: int| 0 <= k < out@.len() && out@[k] == d;
                    if k < before.len() {
                        assert(before[k] == d);
                    }
                }
                assert forall|k: int| 0 <= k < i + 1 && char_is_alphanumeric(#[trigger] cs@[k]) implies out@.contains(cs@[k]) by {
                    if k < i {
                        let j = choose|j: int| 0 <= j < before.len() && before[j] == cs@[k];
                        assert(out@[j] == cs@[k]);
                    }
                }
            }
        }
        i = i + 1;
    }
    proof {
        assert forall|c: char| cs@.contains(c) implies (out@.contains(c) == char_is_alphanumeric(c)) by {
            if cs@.contains(c) {
                let k = choose|k: int| 0 <= k < cs@.len() && cs@[k] == c;
                assert(char_is_alphanumeric(cs@[k]) ==> out@.contains(cs@[k]));
            }
        }
    }
    out
}

fn has_double_dot_exec(cs: &Vec<char>) -> (r: bool)
    ensures
        r == has_double_dot(cs@),
{
    let mut i: usize = 0;
    while i < cs.len() && i + 1 < cs.len()
        invariant
            i <= cs@.len(),
            forall|j: int| 0 <= j < i && j < cs@.len() - 1 ==> !(cs@[j] == '.' && #[trigger] cs@[j + 1] == '.'),
        decreases cs.len() - i,
    {
        if cs[i] == '.' && cs[i + 1] == '.' {
            return true;
        }
        i = i + 1;
    }
    false
}

/// The safe form of a profile name, with the letters and digits those listed in `alnum`;
/// `None` when nothing usable is left.
pub fn sanitize_profile_name_with(s: &str, alnum: &Vec<char>) -> (r: Option<String>)
    ensures
        match r {
            Some(o) => sanitize_profile_by(s@, listed(alnum@)) == Some(o@),
            None => sanitize_profile_by(s@, listed(alnum@)).is_none(),
        },
{
    let cs = chars_of(s);
    let t = trim_chars(&cs, false);
    if t.len() == 0 {
        return None;
    }
    let kept = filter_name_chars(&t, false, alnum);
    let o = trim_chars(&kept, false);
    if o.len() == 0 || has_double_dot_exec(&o) {
        None
    } else {
        Some(string_of(&o))
    }
}

/// The safe form of a profile name, or `None` when nothing usable is left.
pub fn sanitize_profile_name(s: &str) -> (r: Option<String>)
    ensures
        match r {
            Some(o) => sanitize_profile_spec(s@) == Some(o@),
            None => sanitize_profile_spec(s@).is_none(),
        },
{
    let cs = chars_of(s);
    let alnum = alnum_chars(&cs);
    proof {
        lemma_sanitize_agree(s@, listed(alnum@), alnum_pred());
    }
    sanitize_profile_name_with(s, &alnum)
}

/// The safe form of a loop name, with the letters and digits those listed in `alnum`;
/// `loop` when nothing is left.
pub fn sanitize_loop_name_with(s: &str, alnum: &Vec<char>) -> (r: String)
    ensures
        r@ == sanitize_loop_by(s@, listed(alnum@)),
{
    let cs = chars_of(s);
    let kept = filter_name_chars(&cs, true, alnum);
    let t = trim_chars(&kept, false);
    let o = trim_chars(&t, true);
    if o.len() == 0 {
        String::from_str("loop")
    } else {
        string_of(&o)
    }
}

/// The safe form of a loop name; `loop` when nothing is left.
pub fn sanitize_loop_name(s: &str) -> (r: String)
    ensures
        r@ == sanitize_loop_spec(s@),
{
    let cs = chars_of(s);
    let alnum = alnum_chars(&cs);
    proof {
        lemma_sanitize_agree(s@, listed(alnum@), alnum_pred());
    }
    sanitize_loop_name_with(s, &alnum)
}


/// ASCII letter or digit.
pub open spec fn is_ascii_alnum(c: char) -> bool {
    ('0' <= c <= '9') || ('a' <= c <= 'z') || ('A' <= c <= 'Z')
}

/// ASCII lower case of `c` (other characters unchanged).
pub open spec fn ascii_lower(c: char) -> char {
    if 'A' <= c <= 'Z' { ((c as u32) + 32) as char } else { c }
}

/// A setting key reduced to its ASCII letters and digits, lower-cased.
pub open spec fn normalized_key(s: Seq<char>) -> Seq<char> {
    s.filter(|c: char| is_ascii_alnum(c)).map_values(|c: char| ascii_lower(c))
}

/// Whether `needle` occurs in `hay` as a contiguous run.
pub open spec fn contains_seq(hay: Seq<char>, needle: Seq<char>) -> bool {
    exists|i: int| 0 <= i && i + needle.len() <= hay.len() && #[trigger] hay.subrange(i, i + needle.len()) == needle
}

/// Markers of a setting that holds a secret.
pub open spec fn sensitive_markers() -> Seq<Seq<char>> {
    seq!["apikey"@, "authorization"@, "credential"@, "password"@, "accesstoken"@,
        "refreshtoken"@, "bearertoken"@, "clientsecret"@, "secret"@, "token"@]
}

/// A setting key is sensitive when its normalized form contains one of the markers.
pub open spec fn is_sensitive_spec(key: Seq<char>) -> bool {
    exists|m: int| 0 <= m < sensitive_markers().len() && #[trigger] contains_seq(normalized_key(key), sensitive_markers()[m])
}

fn normalize_key_chars(cs: &Vec<char>) -> (r: Vec<char>)
    ensures
        r@ == normalized_key(cs@),
{
    let ghost pred = |c: char| is_ascii_alnum(c);
    let ghost low = |c: char| ascii_lower(c);
    let mut out: Vec<char> = Vec::new();
    let mut i: usize = 0;
    while i < cs.len()
        invariant
            i <= cs@.len(),
            pred == (|c: char| is_ascii_alnum(c)),
            low == (|c: char| ascii_lower(c)),
            out@ == cs@.take(i as int).filter(pred).map_values(low),
        decreases cs.len() - i,
    {
        let c = cs[i];
        proof {
            assert(cs@.take(i as int + 1) == cs@.take(i as int).push(c));
            cs@.take(i as int).lemma_filter_push(c, pred);
        }
        let keep = ('0' <= c && c <= '9') || ('a' <= c && c <= 'z') || ('A' <= c && c <= 'Z');
        if keep {
            let l = if 'A' <= c && c <= 'Z' { ((c as u8) + 32) as char } else { c };
            assert(l == ascii_lower(c));
            out.push(l);
            assert(out@ =~= cs@.take(i as int + 1).filter(pred).map_values(low));
        } else {
            assert(out@ =~= cs@.take(i as int + 1).filter(pred).map_values(low));
        }
        i = i + 1;
    }
    assert(cs@.take(cs.len() as int) == cs@);
    out
}

/// Whether `needle` occurs in `hay` as a contiguous run.
pub fn contains_chars(hay: &Vec<char>, needle: &Vec<char>) -> (r: bool)
    ensures
        r == contains_seq(hay@, needle@),
{
    if needle.len() > hay.len() {
        return false;
    }
    if needle.len() == 0 {
        assert(hay@.subrange(0, 0 + needle@.len() as int) =~= needle@);
        return true;
    }
    let m = needle.len();
    let n = hay.len();
    let last = n - m;
    let mut i: usize = 0;
    while i <= last
        invariant
            m == needle@.len(),
            m > 0,
            n == hay@.len(),
            last + m == n,
            forall|k: int| 0 <= k < i && k <= last ==> #[trigger] hay@.subrange(k, k + m) != needle@,
        decreases last + 1 - i,
    {
        let mut j: usize = 0;
        while j < m && hay[i + j] == needle[j]
            invariant
                i <= last,
                i + m <= n,
                n == hay@.len(),
                m == needle@.len(),
                last + m == hay@.len(),
                j <= m,
                forall|t: int| 0 <= t < j ==> hay@[i + t] == needle@[t],
            decreases m - j,
        {
            j = j + 1;
        }
        if j == m {
            assert(hay@.subrange(i as int, i + m) =~= needle@);
            return true;
        }
        assert(hay@.subrange(i as int, i + m)[j as int] != needle@[j as int]);
        i = i + 1;
    }
    false
}

/// Whether a user setting looks like a secret (keys, tokens, passwords) and must not be
/// stored: its ASCII letters and digits, lower-cased, contain one of the markers.
pub fn is_sensitive_setting_key(key: &str) -> (r: bool)
    ensures
        r == is_sensitive_spec(key@),
{
    let norm = normalize_key_chars(&chars_of(key));
    let markers: [&str; 10] = ["apikey", "authorization", "credential", "password", "accesstoken",
        "refreshtoken", "bearertoken", "clientsecret", "secret", "token"];
    let ghost ms = sensitive_markers();
    let mut k: usize = 0;
    while k < 10
        invariant
            k <= 10,
            norm@ == normalized_key(key@),
            ms == sensitive_markers(),
            forall|t: int| 0 <= t < 10 ==> #[trigger] markers@[t]@ == ms[t],
            forall|t: int| 0 <= t < k ==> !#[trigger] contains_seq(norm@, ms[t]),
        decreases 10 - k,
    {
        if contains_chars(&norm, &chars_of(markers[k])) {
            return true;
        }
        k = k + 1;
    }
    false
}


/// The settings whose keys are not sensitive, in order.
pub open spec fn kept_settings<T>(s: Seq<(String, T)>) -> Seq<(String, T)>
    decreases s.len(),
{
    if s.len() == 0 {
        Seq::empty()
    } else {
        let k = kept_settings(s.drop_last());
        if is_sensitive_spec(s.last().0@) { k } else { k.push(s.last()) }
    }
}

/// Removes the settings that hold secrets, keeping the others and their order.
pub fn filter_sensitive_settings<T>(settings: Vec<(String, T)>) -> (r: Vec<(String, T)>)
    ensures
        r@ == kept_settings(settings@),
{
    let ghost all = settings@;
    let mut rest = settings;
    assert(all.take(all.len() as int) == all);
    let mut rev_kept: Vec<(String, T)> = Vec::new();
    assert(rev_kept@.reverse() =~= Seq::<(String, T)>::empty());
    assert(kept_settings(rest@) + Seq::<(String, T)>::empty() =~= kept_settings(rest@));
    while rest.len() > 0
        invariant
            kept_settings(all) == kept_settings(rest@) + rev_kept@.reverse(),
            rest@.len() <= all.len(),
            rest@ == all.take(rest@.len() as int),
        decreases rest@.len(),
    {
        let ghost before = rest@;
        let e = rest.pop().unwrap();
        assert(before.drop_last() == rest@);
        assert(all.take(before.len() as int).drop_last() =~= all.take(before.len() - 1));
        assert(before.last() == e);
        if !is_sensitive_setting_key(e.0.as_str()) {
            let ghost rk = rev_kept@;
            rev_kept.push(e);
            assert(rev_kept@.reverse() =~= seq![e] + rk.reverse());
            assert(kept_settings(before) == kept_settings(rest@).push(e));
            assert(kept_settings(rest@).push(e) + rk.reverse() =~= kept_settings(rest@) + (seq![e] + rk.reverse()));
        }
    }
    let mut out: Vec<(String, T)> = Vec::new();
    while rev_kept.len() > 0
        invariant
            kept_settings(all) == out@ + rev_kept@.reverse(),
        decreases rev_kept@.len(),
    {
        let ghost rk = rev_kept@;
        let e = rev_kept.pop().unwrap();
        assert(rk.reverse() =~= seq![e] + rev_kept@.reverse());
        let ghost o = out@;
        out.push(e);
        assert(o + (seq![e] + rev_kept@.reverse()) =~= out@ + rev_kept@.reverse());
    }
    assert(rev_kept@.reverse() =~= Seq::<(String, T)>::empty());
    assert(out@ + Seq::<(String, T)>::empty() =~= out@);
    out
}


/// ASCII decimal digit.
pub open spec fn is_digit(c: char) -> bool {
    '0' <= c <= '9'
}

/// Value of a run of decimal digits.
pub open spec fn decimal_value(s: Seq<char>) -> nat
    decreases s.len(),
{
    if s.len() == 0 {
        0
    } else {
        decimal_value(s.drop_last()) * 10 + ((s.last() as u32) - ('0' as u32)) as nat
    }
}

/// `s` without one leading `+`.
pub open spec fn sign_stripped(s: Seq<char>) -> Seq<char> {
    if s.len() > 0 && s[0] == '+' { s.drop_first() } else { s }
}

/// Every character of `s` is an ASCII digit.
pub open spec fn all_digits(s: Seq<char>) -> bool {
    forall|i: int| 0 <= i < s.len() ==> is_digit(#[trigger] s[i])
}

/// What `str::parse::<u32>` returns: an optional `+`, then one or more ASCII digits whose
/// value fits in `u32`; anything else is refused.
pub open spec fn parse_u32_spec(s: Seq<char>) -> Option<u32> {
    let digits = sign_stripped(s);
    if digits.len() == 0 {
        None
    } else if all_digits(digits) && decimal_value(digits) <= u32::MAX {
        Some(decimal_value(digits) as u32)
    } else {
        None
    }
}

/// Adding digits never lowers the value.
proof fn lemma_decimal_value_prefix(s: Seq<char>, n: int)
    requires
        0 <= n <= s.len(),
        forall|i: int| 0 <= i < s.len() ==> is_digit(#[trigger] s[i]),
    ensures
        decimal_value(s.take(n)) <= decimal_value(s),
    decreases s.len(),
{
    if n < s.len() {
        assert(s.drop_last().take(n) == s.take(n));
        lemma_decimal_value_prefix(s.drop_last(), n);
    } else {
        assert(s.take(n) == s);
    }
}

/// Parses a `u32` the way `str::parse::<u32>` does.
pub fn parse_u32(cs: &Vec<char>) -> (r: Option<u32>)
    ensures
        r == parse_u32_spec(cs@),
{
    let ghost digits = sign_stripped(cs@);
    let start: usize = if cs.len() > 0 && cs[0] == '+' { 1 } else { 0 };
    assert(digits == cs@.skip(start as int));
    if start >= cs.len() {
        return None;
    }
    let mut acc: u64 = 0;
    let mut i: usize = start;
    while i < cs.len()
        invariant
            start <= i <= cs@.len(),
            digits == sign_stripped(cs@),
            digits == cs@.skip(start as int),
            digits.len() > 0,
            forall|k: int| 0 <= k < i - start ==> is_digit(#[trigger] digits[k]),
            acc as nat == decimal_value(digits.take(i - start)),
            acc <= u32::MAX,
        decreases cs.len() - i,
    {
        let c = cs[i];
        let ghost k = i - start;
        assert(digits[k] == c);
        if !('0' <= c && c <= '9') {
            assert(!is_digit(digits[k]));
            assert(!all_digits(digits));
            return None;
        }
        assert(digits.take(k + 1).drop_last() == digits.take(k));
        assert(digits.take(k + 1).last() == c);
        let d: u64 = (c as u32 - '0' as u32) as u64;
        acc = acc * 10 + d;
        assert(acc as nat == decimal_value(digits.take(k + 1)));
        if acc > 0xffff_ffff {
            proof {
                if all_digits(digits) {
                    lemma_decimal_value_prefix(digits, k + 1);
                    assert(decimal_value(digits) > u32::MAX);
                }
            }
            return None;
        }
        i = i + 1;
    }
    assert(digits.take(i - start) == digits);
    Some(acc as u32)
}

/// The part of `s` between `prefix` and `suffix`, when `s` starts with `prefix` and the
/// rest ends with `suffix`.
pub open spec fn strip_affixes(s: Seq<char>, prefix: Seq<char>, suffix: Seq<char>) -> Option<Seq<char>> {
    if s.len() >= prefix.len() && s.take(prefix.len() as int) == prefix {
        let rest = s.skip(prefix.len() as int);
        if rest.len() >= suffix.len() && rest.skip(rest.len() - suffix.len()) == suffix {
            Some(rest.take(rest.len() - suffix.len()))
        } else {
            None
        }
    } else {
        None
    }
}

/// The icon id of an icon URL `https://icon.jx3box.com/icon/{id}.png`.
pub open spec fn icon_id_spec(url: Seq<char>) -> Option<u32> {
    match strip_affixes(url, "https://icon.jx3box.com/icon/"@, ".png"@) {
        Some(mid) => parse_u32_spec(mid),
        None => None,
    }
}

fn seq_eq_at(s: &Vec<char>, start: usize, pat: &Vec<char>) -> (r: bool)
    requires
        start + pat@.len() <= s@.len(),
    ensures
        r == (s@.subrange(start as int, start + pat@.len()) == pat@),
{
    let mut j: usize = 0;
    let n = s.len();
    while j < pat.len()
        invariant
            j <= pat@.len(),
            n == s@.len(),
            start + pat@.len() <= n,
            forall|t: int| 0 <= t < j ==> s@[start + t] == pat@[t],
        decreases pat.len() - j,
    {
        if s[start + j] != pat[j] {
            assert(s@.subrange(start as int, start + pat@.len())[j as int] != pat@[j as int]);
            return false;
        }
        j = j + 1;
    }
    assert(s@.subrange(start as int, start + pat@.len()) =~= pat@);
    true
}

/// Reads the numeric id out of an icon URL `https://icon.jx3box.com/icon/{id}.png`.
pub fn extract_icon_id(url: &str) -> (r: Option<u32>)
    ensures
        r == icon_id_spec(url@),
{
    let cs = chars_of(url);
    let prefix = chars_of("https://icon.jx3box.com/icon/");
    let suffix = chars_of(".png");
    if cs.len() < prefix.len() || !seq_eq_at(&cs, 0, &prefix) {
        proof {
            if cs@.len() >= prefix@.len() {
                assert(cs@.take(prefix@.len() as int) == cs@.subrange(0, 0 + prefix@.len() as int));
            }
        }
        return None;
    }
    assert(cs@.take(prefix@.len() as int) == cs@.subrange(0, 0 + prefix@.len() as int));
    let rest_len = cs.len() - prefix.len();
    let ghost rest = cs@.skip(prefix@.len() as int);
    if rest_len < suffix.len() || !seq_eq_at(&cs, cs.len() - suffix.len(), &suffix) {
        proof {
            if rest_len >= suffix@.len() {
                assert(rest.skip(rest.len() - suffix@.len()) == cs@.subrange(cs@.len() - suffix@.len(), (cs@.len() - suffix@.len() + suffix@.len()) as int));
            }
        }
        return None;
    }
    assert(rest.skip(rest.len() - suffix@.len()) == cs@.subrange(cs@.len() - suffix@.len(), (cs@.len() - suffix@.len() + suffix@.len()) as int));
    let mut mid: Vec<char> = Vec::new();
    let mut i: usize = prefix.len();
    let end = cs.len() - suffix.len();
    while i < end
        invariant
            prefix@.len() <= i <= end,
            end == cs@.len() - suffix@.len(),
            mid@ == cs@.subrange(prefix@.len() as int, i as int),
        decreases end - i,
    {
        mid.push(cs[i]);
        assert(cs@.subrange(prefix@.len() as int, i as int + 1) == cs@.subrange(prefix@.len() as int, i as int).push(cs@[i as int]));
        i = i + 1;
    }
    assert(mid@ == rest.take(rest.len() - suffix@.len()));
    parse_u32(&mid)
}

} // verus!
