//! Quantised comparison vectors and hash keys of equipment combinations.

use vstd::prelude::*;

verus! {

/// Crit levels per comparison bin (about a 1/1024 step of the crit rate).
pub const BIN_CRIT: u32 = 193;
/// Crit effect levels per comparison bin.
pub const BIN_CRIT_EFF: u32 = 71;
/// Overcome levels per comparison bin.
pub const BIN_OVERCOME: u32 = 220;
/// Strain levels per comparison bin.
pub const BIN_STRAIN: u32 = 130;

/// The eight attribute levels of a combination that the comparison reads, each already
/// truncated to a whole number.
#[derive(Debug, Clone, Copy, PartialEq, Eq, Structural)]
pub struct RawLevels {
    pub crit_level: u32,
    pub crit_effect_level: u32,
    pub overcome_level: u32,
    pub strain_level: u32,
    pub surplus_value: u32,
    pub base_attack: u32,
    pub agility: u32,
    pub strength: u32,
}

/// `v` in buckets of `b`; a bucket of 0 or 1 leaves it as it is.
pub open spec fn quantise(v: u32, b: u32) -> u32 {
    if b <= 1 { v } else { v / b }
}

/// The comparison vector: the four rated levels in their fixed bins, the other four in
/// buckets of `bucket`.
pub open spec fn pareto_vec_spec(r: RawLevels, bucket: u32) -> Seq<u32> {
    seq![
        r.crit_level / BIN_CRIT,
        r.crit_effect_level / BIN_CRIT_EFF,
        r.overcome_level / BIN_OVERCOME,
        r.strain_level / BIN_STRAIN,
        quantise(r.surplus_value, bucket),
        quantise(r.base_attack, bucket),
        quantise(r.agility, bucket),
        quantise(r.strength, bucket),
    ]
}

fn quantise_exec(v: u32, b: u32) -> (r: u32)
    ensures
        r == quantise(v, b),
{
    if b <= 1 { v } else { v / b }
}

/// Folds a combination's levels into its eight-entry comparison vector.
pub fn raw_to_pareto_vec(r: &RawLevels, bucket: u32) -> (v: [u32; 8])
    ensures
        v@ == pareto_vec_spec(*r, bucket),
{
    let v = [
        r.crit_level / BIN_CRIT,
        r.crit_effect_level / BIN_CRIT_EFF,
        r.overcome_level / BIN_OVERCOME,
        r.strain_level / BIN_STRAIN,
        quantise_exec(r.surplus_value, bucket),
        quantise_exec(r.base_attack, bucket),
        quantise_exec(r.agility, bucket),
        quantise_exec(r.strength, bucket),
    ];
    assert(v@ =~= pareto_vec_spec(*r, bucket));
    v
}

/// `a` dominates `b`: at least as good in all eight entries and better in one.
pub open spec fn dominates(a: Seq<u32>, b: Seq<u32>) -> bool {
    &&& forall|d: int| 0 <= d < 8 ==> a[d] >= b[d]
    &&& exists|d: int| 0 <= d < 8 && a[d] > b[d]
}

/// No point of `pts` dominates `v`.
pub open spec fn undominated(pts: Seq<(usize, [u32; 8])>, v: Seq<u32>) -> bool {
    forall|j: int| 0 <= j < pts.len() ==> !dominates(#[trigger] pts[j].1@, v)
}

/// The ids of the first `n` points that no point of `pts` dominates, in order.
pub open spec fn skyline_upto(pts: Seq<(usize, [u32; 8])>, n: int) -> Seq<usize>
    decreases n,
{
    if n <= 0 {
        Seq::empty()
    } else {
        let prev = skyline_upto(pts, n - 1);
        if undominated(pts, pts[n - 1].1@) { prev.push(pts[n - 1].0) } else { prev }
    }
}

proof fn lemma_skyline_members(pts: Seq<(usize, [u32; 8])>, n: int)
    requires
        0 <= n <= pts.len(),
    ensures
        forall|x: usize| skyline_upto(pts, n).contains(x) <==>
            exists|k: int| 0 <= k < n && #[trigger] pts[k].0 == x && undominated(pts, pts[k].1@),
    decreases n,
{
    if n > 0 {
        lemma_skyline_members(pts, n - 1);
        let prev = skyline_upto(pts, n - 1);
        let cur = skyline_upto(pts, n);
        assert forall|x: usize| cur.contains(x) <==>
            exists|k: int| 0 <= k < n && #[trigger] pts[k].0 == x && undominated(pts, pts[k].1@) by {
            if undominated(pts, pts[n - 1].1@) {
                assert(cur == prev.push(pts[n - 1].0));
                if cur.contains(x) {
                    let j = choose|j: int| 0 <= j < cur.len() && cur[j] == x;
                    if j < prev.len() {
                        assert(prev[j] == x);
                        assert(prev.contains(x));
                    } else {
                        assert(pts[n - 1].0 == x);
                    }
                }
                if exists|k: int| 0 <= k < n && #[trigger] pts[k].0 == x && undominated(pts, pts[k].1@) {
                    let k = choose|k: int| 0 <= k < n && #[trigger] pts[k].0 == x && undominated(pts, pts[k].1@);
                    if k < n - 1 {
                        assert(prev.contains(x));
                        let j = choose|j: int| 0 <= j < prev.len() && prev[j] == x;
                        assert(cur[j] == x);
                    } else {
                        assert(cur[prev.len() as int] == x);
                    }
                }
            } else {
                if exists|k: int| 0 <= k < n && #[trigger] pts[k].0 == x && undominated(pts, pts[k].1@) {
                    let k = choose|k: int| 0 <= k < n && #[trigger] pts[k].0 == x && undominated(pts, pts[k].1@);
                    assert(k != n - 1);
                }
            }
        }
    }
}

/// The Pareto front of a bucket whose points have distinct ids keeps exactly the points
/// that no point of the bucket, earlier or later, dominates: a dominated point's id is never
/// in it, an undominated point's id always is, and every id in it is a point's id.
pub proof fn law_pareto_front(pts: Seq<(usize, [u32; 8])>)
    requires
        forall|a: int, b: int| 0 <= a < pts.len() && 0 <= b < pts.len() && a != b ==> pts[a].0 != pts[b].0,
    ensures
        forall|j: int, k: int| 0 <= j < pts.len() && 0 <= k < pts.len() && #[trigger] dominates(pts[j].1@, pts[k].1@)
            ==> !skyline_upto(pts, pts.len() as int).contains(pts[k].0),
        forall|k: int| 0 <= k < pts.len() && (forall|j: int| 0 <= j < pts.len() ==> !#[trigger] dominates(pts[j].1@, pts[k].1@))
            ==> skyline_upto(pts, pts.len() as int).contains(#[trigger] pts[k].0),
        forall|x: usize| #[trigger] skyline_upto(pts, pts.len() as int).contains(x)
            ==> exists|k: int| 0 <= k < pts.len() && pts[k].0 == x,
{
    lemma_skyline_members(pts, pts.len() as int);
    let f = skyline_upto(pts, pts.len() as int);
    assert forall|j: int, k: int| 0 <= j < pts.len() && 0 <= k < pts.len() && #[trigger] dominates(pts[j].1@, pts[k].1@)
        implies !f.contains(pts[k].0) by {
        if f.contains(pts[k].0) {
            let m = choose|m: int| 0 <= m < pts.len() && #[trigger] pts[m].0 == pts[k].0 && undominated(pts, pts[m].1@);
            assert(m == k);
        }
    }
    assert forall|k: int| 0 <= k < pts.len() && (forall|j: int| 0 <= j < pts.len() ==> !#[trigger] dominates(pts[j].1@, pts[k].1@))
        implies f.contains(#[trigger] pts[k].0) by {
        assert(undominated(pts, pts[k].1@));
    }
}

fn dominates_exec(a: &[u32; 8], b: &[u32; 8]) -> (r: bool)
    ensures
        r == dominates(a@, b@),
{
    let mut any_gt = false;
    let mut d: usize = 0;
    while d < 8
        invariant
            d <= 8,
            a@.len() == 8,
            b@.len() == 8,
            forall|k: int| 0 <= k < d ==> a@[k] >= b@[k],
            any_gt == exists|k: int| 0 <= k < d && a@[k] > b@[k],
        decreases 8 - d,
    {
        if a[d] < b[d] {
            return false;
        }
        if a[d] > b[d] {
            any_gt = true;
        }
        d = d + 1;
    }
    any_gt
}

/// The Pareto front of one bucket of comparison vectors: the ids of the points that no
/// point of the bucket dominates (equal vectors are all kept), in the bucket's order.
pub fn pareto_front(pts: &Vec<(usize, [u32; 8])>) -> (r: Vec<usize>)
    ensures
        r@ == skyline_upto(pts@, pts@.len() as int),
{
    let mut kept: Vec<usize> = Vec::new();
    let mut i: usize = 0;
    while i < pts.len()
        invariant
            i <= pts@.len(),
            kept@ == skyline_upto(pts@, i as int),
        decreases pts.len() - i,
    {
        let mut beaten = false;
        let mut j: usize = 0;
        while j < pts.len()
            invariant
                j <= pts@.len(),
                i < pts@.len(),
                beaten == exists|k: int| 0 <= k < j && dominates(#[trigger] pts@[k].1@, pts@[i as int].1@),
            decreases pts.len() - j,
        {
            if dominates_exec(&pts[j].1, &pts[i].1) {
                beaten = true;
            }
            j = j + 1;
        }
        if !beaten {
            kept.push(pts[i].0);
        }
        i = i + 1;
    }
    kept
}

/// The bits of `x` under `mask`, moved up by `shift`.
pub open spec fn bit_field(x: u32, shift: u128, mask: u128) -> u128 {
    ((x as u128) & mask) << shift
}

/// The key of eight values: 17 bits each for the first six (at bits 0, 17, 34, 51, 68
/// and 85) and 13 bits each for the last two (at bits 102 and 115).
pub open spec fn pack_key(v: Seq<u32>) -> u128 {
    bit_field(v[0], 0, 0x1ffff) | bit_field(v[1], 17, 0x1ffff) | bit_field(v[2], 34, 0x1ffff)
        | bit_field(v[3], 51, 0x1ffff) | bit_field(v[4], 68, 0x1ffff) | bit_field(v[5], 85, 0x1ffff)
        | bit_field(v[6], 102, 0x1fff) | bit_field(v[7], 115, 0x1fff)
}

fn put_field(k: u128, x: u32, shift: u128, width: u128) -> (r: u128)
    requires
        width == 17 || width == 13,
        shift < 128,
    ensures
        r == k | bit_field(x, shift, if width == 17 { 0x1ffffu128 } else { 0x1fffu128 }),
{
    let one_up: u128 = 1u128 << width;
    assert(one_up >= 1) by (bit_vector)
        requires
            width == 17 || width == 13,
            one_up == 1u128 << width,
    ;
    let mask: u128 = one_up - 1;
    assert(mask == (if width == 17 { 0x1ffffu128 } else { 0x1fffu128 })) by (bit_vector)
        requires
            width == 17 || width == 13,
            one_up == 1u128 << width,
            mask == one_up - 1,
    ;
    let f = ((x as u128) & mask) << shift;
    k | f
}

/// The hash key of a combination: its comparison vector packed into 128 bits, beside the
/// fingerprint of its set and special effects.
pub fn encode_combo_key(raw: &RawLevels, set_eff_fp: u64, bucket: u32) -> (r: (u128, u64))
    ensures
        r.0 == pack_key(pareto_vec_spec(*raw, bucket)),
        r.1 == set_eff_fp,
{
    let v = raw_to_pareto_vec(raw, bucket);
    let mut k: u128 = 0;
    k = put_field(k, v[0], 0, 17);
    k = put_field(k, v[1], 17, 17);
    k = put_field(k, v[2], 34, 17);
    k = put_field(k, v[3], 51, 17);
    k = put_field(k, v[4], 68, 17);
    k = put_field(k, v[5], 85, 17);
    k = put_field(k, v[6], 102, 13);
    k = put_field(k, v[7], 115, 13);
    let ghost f0 = bit_field(v[0], 0, 0x1ffff);
    assert((0u128 | f0) == f0) by (bit_vector);
    (k, set_eff_fp)
}

/// The packed fields do not overlap: each entry's low bits are read back from the key.
pub proof fn law_key_fields_decode(a: u32, b: u32, c: u32, d: u32, e: u32, f: u32, g: u32, h: u32)
    ensures
        ({
            let k = pack_key(seq![a, b, c, d, e, f, g, h]);
            &&& k & 0x1ffff == (a as u128) & 0x1ffff
            &&& (k >> 17) & 0x1ffff == (b as u128) & 0x1ffff
            &&& (k >> 34) & 0x1ffff == (c as u128) & 0x1ffff
            &&& (k >> 51) & 0x1ffff == (d as u128) & 0x1ffff
            &&& (k >> 68) & 0x1ffff == (e as u128) & 0x1ffff
            &&& (k >> 85) & 0x1ffff == (f as u128) & 0x1ffff
            &&& (k >> 102) & 0x1fff == (g as u128) & 0x1fff
            &&& (k >> 115) & 0x1fff == (h as u128) & 0x1fff
        }),
{
    let s = seq![a, b, c, d, e, f, g, h];
    assert(s[0] == a && s[1] == b && s[2] == c && s[3] == d && s[4] == e && s[5] == f && s[6] == g && s[7] == h);
    assert({
        let k2 = (((a as u128) & 0x1ffffu128) << 0u128) | (((b as u128) & 0x1ffffu128) << 17u128)
            | (((c as u128) & 0x1ffffu128) << 34u128) | (((d as u128) & 0x1ffffu128) << 51u128)
            | (((e as u128) & 0x1ffffu128) << 68u128) | (((f as u128) & 0x1ffffu128) << 85u128)
            | (((g as u128) & 0x1fffu128) << 102u128) | (((h as u128) & 0x1fffu128) << 115u128);
        &&& k2 & 0x1ffff == (a as u128) & 0x1ffff
        &&& (k2 >> 17) & 0x1ffff == (b as u128) & 0x1ffff
        &&& (k2 >> 34) & 0x1ffff == (c as u128) & 0x1ffff
        &&& (k2 >> 51) & 0x1ffff == (d as u128) & 0x1ffff
        &&& (k2 >> 68) & 0x1ffff == (e as u128) & 0x1ffff
        &&& (k2 >> 85) & 0x1ffff == (f as u128) & 0x1ffff
        &&& (k2 >> 102) & 0x1fff == (g as u128) & 0x1fff
        &&& (k2 >> 115) & 0x1fff == (h as u128) & 0x1fff
    }) by (bit_vector);
}

} // verus!
