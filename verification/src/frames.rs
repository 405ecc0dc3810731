//! Haste thresholds: how haste rating shortens a frame count.

use vstd::prelude::*;

verus! {

/// Haste rating that corresponds to 100% haste at level 130 (integer part of the scale).
pub const LP_HASTE_INT: u64 = 210078;

/// Frames per second of the game clock.
pub const FRAMES_PER_SEC: u32 = 16;

/// The haste rating cap at which base haste reaches 25% (`0.25 * 210078`, truncated).
pub const HASTE_NATURAL_CAP: u32 = 52519;

/// Denominator of the haste formula: `1024 * h / 210078 + 1024`.
pub open spec fn haste_denominator(haste_level: int) -> int {
    (1024 * haste_level) / (LP_HASTE_INT as int) + 1024
}

/// Frames that remain of `original_frames` at haste rating `haste_level`.
pub open spec fn actual_frames_spec(original_frames: int, haste_level: int) -> int {
    (1024 * original_frames) / haste_denominator(haste_level)
}

/// Applies the haste threshold formula to a base frame count.
pub fn get_actual_frames(original_frames: u32, haste_level: u32) -> (r: u32)
    ensures
        r as int == actual_frames_spec(original_frames as int, haste_level as int),
        r <= original_frames,
{
    let num: u64 = 1024u64 * original_frames as u64;
    let den: u64 = (1024u64 * haste_level as u64) / LP_HASTE_INT + 1024;
    assert(den >= 1024);
    assert(num / den <= num / 1024) by (nonlinear_arith)
        requires den >= 1024, num >= 0;
    assert(num / 1024 == original_frames as u64);
    (num / den) as u32
}

/// More haste never lengthens a frame count: the hasted count falls, step by step, as the
/// haste rating rises.
pub proof fn law_actual_frames_monotone(original_frames: nat, h1: nat, h2: nat)
    requires
        h1 <= h2,
    ensures
        actual_frames_spec(original_frames as int, h2 as int) <= actual_frames_spec(original_frames as int, h1 as int),
{
    let a: int = 1024 * (h1 as int);
    let b: int = 1024 * (h2 as int);
    assert(a <= b);
    vstd::arithmetic::div_mod::lemma_div_is_ordered(a, b, LP_HASTE_INT as int);
    vstd::arithmetic::div_mod::lemma_div_pos_is_pos(a, LP_HASTE_INT as int);
    vstd::arithmetic::div_mod::lemma_div_is_ordered_by_denominator(
        1024 * (original_frames as int),
        haste_denominator(h1 as int),
        haste_denominator(h2 as int),
    );
}

/// `a - b`, or 0 where `b > a`.
pub open spec fn saturating_sub_spec(a: int, b: int) -> int {
    if a >= b { a - b } else { 0 }
}

/// `tiers` is the decomposition of the ratings `0..=cap` into maximal runs on which
/// `get_actual_frames(original_frames, _)` is constant, in increasing order of rating.
pub open spec fn is_tier_table(original_frames: int, cap: int, tiers: Seq<(u32, u32, u32, u32)>) -> bool {
    &&& tiers.len() >= 1
    &&& tiers[0].2 == 0
    &&& tiers.last().3 == cap
    &&& forall|k: int| 0 <= k < tiers.len() ==> #[trigger] tiers[k].2 <= tiers[k].3
    &&& forall|k: int| 0 <= k < tiers.len() - 1 ==> #[trigger] tiers[k + 1].2 == tiers[k].3 + 1
    &&& forall|k: int| 0 <= k < tiers.len() - 1 ==> #[trigger] tiers[k + 1].1 != tiers[k].1
    &&& forall|k: int| 0 <= k < tiers.len() ==>
        #[trigger] tiers[k].0 == saturating_sub_spec(original_frames, tiers[k].1 as int)
    &&& forall|k: int, h: int|
        #![trigger tiers[k], actual_frames_spec(original_frames, h)]
        0 <= k < tiers.len() && tiers[k].2 <= h <= tiers[k].3 ==>
        actual_frames_spec(original_frames, h) == tiers[k].1
}

/// Splits the haste ratings `0..=cap` into tiers, each a maximal range of ratings on
/// which the hasted frame count of `original_frames` is the same.
pub fn haste_tier_boundaries(original_frames: u32, cap: u32) -> (out: Vec<(u32, u32, u32, u32)>)
    ensures
        is_tier_table(original_frames as int, cap as int, out@),
{
    let mut out: Vec<(u32, u32, u32, u32)> = Vec::new();
    let mut prev_actual: u32 = get_actual_frames(original_frames, 0);
    let mut prev_min: u32 = 0;
    let mut h: u32 = 0;
    while h < cap
        invariant
            h <= cap,
            prev_min <= h,
            prev_actual as int == actual_frames_spec(original_frames as int, h as int),
            forall|x: int| prev_min <= x <= h ==>
                actual_frames_spec(original_frames as int, x) == prev_actual as int,
            out@.len() == 0 ==> prev_min == 0,
            out@.len() > 0 ==> {
                &&& out@[0].2 == 0
                &&& out@.last().3 + 1 == prev_min
                &&& out@.last().1 != prev_actual
            },
            forall|k: int| 0 <= k < out@.len() ==> #[trigger] out@[k].2 <= out@[k].3,
            forall|k: int| 0 <= k < out@.len() - 1 ==> #[trigger] out@[k + 1].2 == out@[k].3 + 1,
            forall|k: int| 0 <= k < out@.len() - 1 ==> #[trigger] out@[k + 1].1 != out@[k].1,
            forall|k: int| 0 <= k < out@.len() ==>
                #[trigger] out@[k].0 == saturating_sub_spec(original_frames as int, out@[k].1 as int),
            forall|k: int, x: int|
                #![trigger out@[k], actual_frames_spec(original_frames as int, x)]
                0 <= k < out@.len() && out@[k].2 <= x <= out@[k].3 ==>
                actual_frames_spec(original_frames as int, x) == out@[k].1,
        decreases cap - h,
    {
        h = h + 1;
        let a = get_actual_frames(original_frames, h);
        if a != prev_actual {
            let tier = original_frames.saturating_sub(prev_actual);
            let ghost old_out = out@;
            out.push((tier, prev_actual, prev_min, h - 1));
            assert(out@.last() == (tier, prev_actual, prev_min, (h - 1) as u32));
            assert forall|k: int| 0 <= k < out@.len() - 1 implies #[trigger] out@[k + 1].2 == out@[k].3 + 1 by {
                if k < old_out.len() - 1 {
                    assert(out@[k] == old_out[k] && out@[k + 1] == old_out[k + 1]);
                } else {
                    assert(out@[k] == old_out.last());
                }
            }
            assert forall|k: int| 0 <= k < out@.len() - 1 implies #[trigger] out@[k + 1].1 != out@[k].1 by {
                if k < old_out.len() - 1 {
                    assert(out@[k] == old_out[k] && out@[k + 1] == old_out[k + 1]);
                } else {
                    assert(out@[k] == old_out.last());
                }
            }
            prev_actual = a;
            prev_min = h;
        }
    }
    let tier = original_frames.saturating_sub(prev_actual);
    let ghost old_out = out@;
    out.push((tier, prev_actual, prev_min, cap));
    assert forall|k: int| 0 <= k < out@.len() - 1 implies #[trigger] out@[k + 1].2 == out@[k].3 + 1 by {
        if k < old_out.len() - 1 {
            assert(out@[k] == old_out[k] && out@[k + 1] == old_out[k + 1]);
        } else {
            assert(out@[k] == old_out.last());
        }
    }
    assert forall|k: int| 0 <= k < out@.len() - 1 implies #[trigger] out@[k + 1].1 != out@[k].1 by {
        if k < old_out.len() - 1 {
            assert(out@[k] == old_out[k] && out@[k + 1] == old_out[k + 1]);
        } else {
            assert(out@[k] == old_out.last());
        }
    }
    out
}

} // verus!
