//! Deterministic hashes: the FNV-1a fingerprint of a cast timeline, and the buff ids
//! that combo names are given.

use vstd::prelude::*;
use vstd::string::*;

verus! {

/// FNV-1a 64-bit offset basis.
pub const FNV_OFFSET: u64 = 0xcbf29ce484222325;

/// FNV-1a 64-bit prime.
pub const FNV_PRIME: u64 = 0x100000001b3;

/// FNV-1a: from `state`, each byte is xor-ed in and the state multiplied by the prime,
/// wrapping.
pub open spec fn fnv1a_spec(state: u64, bytes: Seq<u8>) -> u64
    decreases bytes.len(),
{
    if bytes.len() == 0 {
        state
    } else {
        (fnv1a_spec(state, bytes.drop_last()) ^ (bytes.last() as u64)).wrapping_mul(FNV_PRIME)
    }
}

/// Hashing two runs of bytes one after the other is hashing their concatenation.
pub proof fn lemma_fnv1a_concat(state: u64, a: Seq<u8>, b: Seq<u8>)
    ensures
        fnv1a_spec(fnv1a_spec(state, a), b) == fnv1a_spec(state, a + b),
    decreases b.len(),
{
    if b.len() > 0 {
        lemma_fnv1a_concat(state, a, b.drop_last());
        assert((a + b).drop_last() == a + b.drop_last());
        assert((a + b).last() == b.last());
    } else {
        assert(a + b == a);
    }
}

/// Folds `bytes` into `state` with FNV-1a.
pub fn fnv1a_u64(state: &mut u64, bytes: &[u8])
    ensures
        *final(state) == fnv1a_spec(*old(state), bytes@),
{
    let ghost start = *state;
    let mut i: usize = 0;
    while i < bytes.len()
        invariant
            i <= bytes@.len(),
            *state == fnv1a_spec(start, bytes@.take(i as int)),
        decreases bytes.len() - i,
    {
        assert(bytes@.take(i as int + 1).drop_last() == bytes@.take(i as int));
        *state = (*state ^ (bytes[i] as u64)).wrapping_mul(FNV_PRIME);
        i = i + 1;
    }
    assert(bytes@.take(bytes@.len() as int) == bytes@);
}

/// Little-endian bytes of a `u64` (`u64::to_le_bytes`).
pub open spec fn le_bytes_u64(x: u64) -> Seq<u8> {
    seq![
        (x & 0xff) as u8,
        ((x >> 8) & 0xff) as u8,
        ((x >> 16) & 0xff) as u8,
        ((x >> 24) & 0xff) as u8,
        ((x >> 32) & 0xff) as u8,
        ((x >> 40) & 0xff) as u8,
        ((x >> 48) & 0xff) as u8,
        ((x >> 56) & 0xff) as u8,
    ]
}

/// Little-endian bytes of a `u32` (`u32::to_le_bytes`).
pub open spec fn le_bytes_u32(x: u32) -> Seq<u8> {
    seq![
        (x & 0xff) as u8,
        ((x >> 8) & 0xff) as u8,
        ((x >> 16) & 0xff) as u8,
        ((x >> 24) & 0xff) as u8,
    ]
}

fn le_u64(x: u64) -> (r: [u8; 8])
    ensures
        r@ == le_bytes_u64(x),
{
    let r = [
        (x & 0xff) as u8,
        ((x >> 8) & 0xff) as u8,
        ((x >> 16) & 0xff) as u8,
        ((x >> 24) & 0xff) as u8,
        ((x >> 32) & 0xff) as u8,
        ((x >> 40) & 0xff) as u8,
        ((x >> 48) & 0xff) as u8,
        ((x >> 56) & 0xff) as u8,
    ];
    assert(r@ =~= le_bytes_u64(x));
    r
}

fn le_u32(x: u32) -> (r: [u8; 4])
    ensures
        r@ == le_bytes_u32(x),
{
    let r = [(x & 0xff) as u8, ((x >> 8) & 0xff) as u8, ((x >> 16) & 0xff) as u8, ((x >> 24) & 0xff) as u8];
    assert(r@ =~= le_bytes_u32(x));
    r
}

/// What the fingerprint reads of one cast event: the bits of its cast time, the skill, the
/// bits of its damage if it has one, its two flags, and its channel ticks if any.
#[derive(Debug, Clone, Copy, PartialEq, Eq, Structural)]
pub struct CastEventKey {
    pub cast_time_bits: u64,
    pub skill_id: u32,
    pub damage_total_bits: Option<u64>,
    pub triggered: bool,
    pub is_main: bool,
    pub channel_ticks: Option<u32>,
}

/// `1` for `true`, `0` for `false`.
pub open spec fn flag_byte(b: bool) -> u8 {
    if b { 1 } else { 0 }
}

/// The bytes one event contributes to the fingerprint.
pub open spec fn event_bytes(e: CastEventKey) -> Seq<u8> {
    le_bytes_u64(e.cast_time_bits) + le_bytes_u32(e.skill_id) + (match e.damage_total_bits {
        Some(d) => seq![1u8] + le_bytes_u64(d),
        None => seq![0u8],
    }) + seq![flag_byte(e.triggered), flag_byte(e.is_main)] + (match e.channel_ticks {
        Some(t) => seq![1u8] + le_bytes_u32(t),
        None => seq![0u8],
    })
}

/// The bytes of a whole timeline, event after event.
pub open spec fn timeline_bytes(events: Seq<CastEventKey>) -> Seq<u8>
    decreases events.len(),
{
    if events.len() == 0 {
        Seq::empty()
    } else {
        timeline_bytes(events.drop_last()) + event_bytes(events.last())
    }
}

/// The fingerprint of a timeline: FNV-1a of its bytes from the offset basis.
pub open spec fn fingerprint_spec(events: Seq<CastEventKey>) -> u64 {
    fnv1a_spec(FNV_OFFSET, timeline_bytes(events))
}

fn flag(b: bool) -> (r: u8)
    ensures
        r == flag_byte(b),
{
    if b { 1 } else { 0 }
}

fn append_bytes(out: &mut Vec<u8>, bytes: &[u8])
    ensures
        final(out)@ == old(out)@ + bytes@,
{
    let ghost start = out@;
    let mut i: usize = 0;
    while i < bytes.len()
        invariant
            i <= bytes@.len(),
            out@ == start + bytes@.take(i as int),
        decreases bytes.len() - i,
    {
        out.push(bytes[i]);
        assert(bytes@.take(i as int + 1) == bytes@.take(i as int).push(bytes@[i as int]));
        i = i + 1;
    }
    assert(bytes@.take(bytes@.len() as int) == bytes@);
}

/// The bytes one event contributes to the fingerprint.
fn event_byte_vec(ev: &CastEventKey) -> (r: Vec<u8>)
    ensures
        r@ == event_bytes(*ev),
{
    let mut out: Vec<u8> = Vec::new();
    append_bytes(&mut out, &le_u64(ev.cast_time_bits));
    append_bytes(&mut out, &le_u32(ev.skill_id));
    let ghost b2 = out@;
    match ev.damage_total_bits {
        Some(d) => {
            out.push(1u8);
            append_bytes(&mut out, &le_u64(d));
            assert(out@ =~= b2 + (seq![1u8] + le_bytes_u64(d)));
        },
        None => {
            out.push(0u8);
            assert(out@ =~= b2 + seq![0u8]);
        },
    }
    out.push(flag(ev.triggered));
    out.push(flag(ev.is_main));
    let ghost b4 = out@;
    match ev.channel_ticks {
        Some(t) => {
            out.push(1u8);
            append_bytes(&mut out, &le_u32(t));
            assert(out@ =~= b4 + (seq![1u8] + le_bytes_u32(t)));
        },
        None => {
            out.push(0u8);
            assert(out@ =~= b4 + seq![0u8]);
        },
    }
    assert(out@ =~= event_bytes(*ev));
    out
}

/// A fingerprint of a cast timeline, deterministic across runs, used to tell timelines
/// apart.
pub fn compute_fingerprint(timeline: &Vec<CastEventKey>) -> (h: u64)
    ensures
        h == fingerprint_spec(timeline@),
{
    let mut h: u64 = FNV_OFFSET;
    let mut k: usize = 0;
    assert(timeline@.take(0) =~= Seq::<CastEventKey>::empty());
    while k < timeline.len()
        invariant
            k <= timeline@.len(),
            h == fnv1a_spec(FNV_OFFSET, timeline_bytes(timeline@.take(k as int))),
        decreases timeline.len() - k,
    {
        let ev = &timeline[k];
        let ghost before = timeline_bytes(timeline@.take(k as int));
        let bytes = event_byte_vec(ev);
        fnv1a_u64(&mut h, bytes.as_slice());
        proof {
            lemma_fnv1a_concat(FNV_OFFSET, before, bytes@);
            assert(timeline@.take(k as int + 1).drop_last() == timeline@.take(k as int));
            assert(timeline@.take(k as int + 1).last() == *ev);
        }
        k = k + 1;
    }
    assert(timeline@.take(timeline@.len() as int) == timeline@);
    h
}

/// Combo buff ids start from this value, and every id has these high bits set.
pub const COMBO_ID_BASE: u32 = 0xE000_0000;

/// The polynomial hash (base 31, wrapping) of `bytes`, starting from `h`.
pub open spec fn combo_hash(h: u32, bytes: Seq<u8>) -> u32
    decreases bytes.len(),
{
    if bytes.len() == 0 {
        h
    } else {
        combo_hash(h, bytes.drop_last()).wrapping_mul(31).wrapping_add(bytes.last() as u32)
    }
}

/// The buff id of a combo name: the hash of its UTF-8 bytes, with the high bits set so
/// that it never meets a game buff id.
pub open spec fn combo_buff_id_spec(name_bytes: Seq<u8>) -> u32 {
    combo_hash(COMBO_ID_BASE, name_bytes) | COMBO_ID_BASE
}

/// The deterministic buff id standing for a combo name.
pub fn combo_buff_id(name: &str) -> (r: u32)
    ensures
        r == combo_buff_id_spec(name.spec_bytes()),
        r >= COMBO_ID_BASE,
{
    let bytes = name.as_bytes();
    let mut h: u32 = COMBO_ID_BASE;
    let mut i: usize = 0;
    while i < bytes.len()
        invariant
            i <= bytes@.len(),
            bytes@ == name.spec_bytes(),
            h == combo_hash(COMBO_ID_BASE, bytes@.take(i as int)),
        decreases bytes.len() - i,
    {
        assert(bytes@.take(i as int + 1).drop_last() == bytes@.take(i as int));
        h = h.wrapping_mul(31).wrapping_add(bytes[i] as u32);
        i = i + 1;
    }
    assert(bytes@.take(bytes@.len() as int) == bytes@);
    let r = h | COMBO_ID_BASE;
    assert(h | 0xE000_0000u32 >= 0xE000_0000u32) by (bit_vector);
    r
}

} // verus!
