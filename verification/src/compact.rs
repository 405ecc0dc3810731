//! The compact form of macro text that the game counts: no `[` `]`, and no `.0` tail
//! after a whole number.

use vstd::prelude::*;
use crate::strings::{chars_of, string_of};

verus! {

/// ASCII decimal digit (`char::is_ascii_digit`).
pub open spec fn ascii_digit(c: char) -> bool {
    '0' <= c <= '9'
}

/// Whether `s[i..i+2]` is a `.0` tail: a digit before it and no digit after it.
pub open spec fn dot_zero_tail_at(s: Seq<char>, i: int) -> bool {
    &&& s[i] == '.'
    &&& i + 1 < s.len()
    &&& s[i + 1] == '0'
    &&& (i + 2 >= s.len() || !ascii_digit(s[i + 2]))
    &&& i > 0
    &&& ascii_digit(s[i - 1])
}

/// The compact form of `s[i..]`, read left to right.
pub open spec fn compact_from(s: Seq<char>, i: int) -> Seq<char>
    decreases s.len() - i,
{
    if i < 0 || i >= s.len() {
        Seq::empty()
    } else if s[i] == '[' || s[i] == ']' {
        compact_from(s, i + 1)
    } else if dot_zero_tail_at(s, i) {
        compact_from(s, i + 2)
    } else {
        seq![s[i]] + compact_from(s, i + 1)
    }
}

/// The compact form of `s`.
pub open spec fn compact_spec(s: Seq<char>) -> Seq<char> {
    compact_from(s, 0)
}

fn is_digit_char(c: char) -> (r: bool)
    ensures
        r == ascii_digit(c),
{
    '0' <= c && c <= '9'
}

fn drops_dot_zero(cs: &Vec<char>, i: usize) -> (r: bool)
    requires
        i < cs@.len(),
    ensures
        r == dot_zero_tail_at(cs@, i as int),
{
    let rest = cs.len() - i;
    cs[i] == '.' && rest > 1 && cs[i + 1] == '0' && (rest <= 2 || !is_digit_char(cs[i + 2])) && i > 0
        && is_digit_char(cs[i - 1])
}

/// The compact characters of `cs`.
fn compact_chars(cs: &Vec<char>) -> (r: Vec<char>)
    ensures
        r@ == compact_spec(cs@),
{
    let mut out: Vec<char> = Vec::new();
    let mut i: usize = 0;
    while i < cs.len()
        invariant
            i <= cs@.len() + 1,
            compact_spec(cs@) == out@ + compact_from(cs@, i as int),
        decreases cs.len() + 1 - i,
    {
        let c = cs[i];
        if c == '[' || c == ']' {
            i = i + 1;
        } else if drops_dot_zero(cs, i) {
            i = i + 2;
        } else {
            let ghost before = out@;
            out.push(c);
            assert(before + compact_from(cs@, i as int) == out@ + compact_from(cs@, i + 1));
            i = i + 1;
        }
    }
    assert(compact_from(cs@, i as int) == Seq::<char>::empty());
    assert(out@ + Seq::<char>::empty() == out@);
    out
}

/// Compacts macro text: drops `[` and `]`, and the `.0` of whole numbers (`10.0` → `10`,
/// `10.05` unchanged).
pub fn format_macro_compact(src: &str) -> (r: String)
    ensures
        r@ == compact_spec(src@),
{
    let cs = chars_of(src);
    let out = compact_chars(&cs);
    string_of(&out)
}

/// How many characters the game counts for one macro line: the length of its compact form.
pub fn compact_len(src: &str) -> (n: usize)
    ensures
        n == compact_spec(src@).len(),
{
    let cs = chars_of(src);
    let mut n: usize = 0;
    let mut i: usize = 0;
    while i < cs.len()
        invariant
            i <= cs@.len() + 1,
            n <= i,
            compact_spec(cs@).len() == n + compact_from(cs@, i as int).len(),
        decreases cs.len() + 1 - i,
    {
        let c = cs[i];
        if c == '[' || c == ']' {
            i = i + 1;
        } else if drops_dot_zero(&cs, i) {
            i = i + 2;
        } else {
            n = n + 1;
            i = i + 1;
        }
    }
    n
}

/// Counting a line and compacting it agree: the count is the compacted text's length.
pub proof fn law_compact_len_matches(src: Seq<char>)
    ensures
        compact_from(src, 0).len() == compact_spec(src).len(),
        compact_spec(src).len() <= src.len(),
{
    lemma_compact_from_len(src, 0);
}

proof fn lemma_compact_from_len(s: Seq<char>, i: int)
    requires
        0 <= i,
    ensures
        compact_from(s, i).len() <= if i < s.len() { s.len() - i } else { 0 },
    decreases s.len() - i,
{
    if i < s.len() {
        if s[i] == '[' || s[i] == ']' {
            lemma_compact_from_len(s, i + 1);
        } else if dot_zero_tail_at(s, i) {
            lemma_compact_from_len(s, i + 2);
        } else {
            lemma_compact_from_len(s, i + 1);
        }
    }
}

} // verus!
