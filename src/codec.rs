//! Decoding and encoding of polyline strings at precision 5.
//!
//! Each coordinate is stored as two signed deltas (latitude, then longitude)
//! from the previous coordinate. A delta is zigzag-mapped to a natural number
//! and written little-endian in 5-bit groups; each group becomes the byte
//! `63 + group`, with `0x20` added to every group but the last.
use vstd::prelude::*;
use vstd::string::StringSliceAdditionalSpecFns;

use crate::error::Error;

verus! {

/// Most 5-bit groups that one encoded value may span.
pub const MAX_GROUPS: usize = 7;

/// A geographic position in units of 1e-5 degree.
#[derive(Clone, Copy, Debug, PartialEq, Eq, Structural)]
pub struct Coordinate {
    pub lon: i32,
    pub lat: i32,
}

/// Whether `b` is a byte of the encoding alphabet.
pub open spec fn is_group_byte(b: u8) -> bool {
    63 <= b <= 126
}

/// The 6-bit group (continuation flag and 5 data bits) that `b` carries.
pub open spec fn group_of(b: u8) -> int {
    b as int - 63
}

/// One more than the largest value that `n` groups can hold.
pub open spec fn group_bound(n: nat) -> nat
    decreases n,
{
    if n == 0 {
        1
    } else {
        32 * group_bound((n - 1) as nat)
    }
}

/// The value starting at byte `i` of `s` and the position just past it,
/// reading at most `budget` groups.
pub open spec fn varint_at(s: Seq<u8>, i: int, budget: nat) -> Option<(int, int)>
    decreases budget,
{
    if budget == 0 || i < 0 || i >= s.len() || !is_group_byte(s[i]) {
        None
    } else if group_of(s[i]) < 32 {
        Some((group_of(s[i]), i + 1))
    } else {
        match varint_at(s, i + 1, (budget - 1) as nat) {
            Some((v, j)) => Some((group_of(s[i]) - 32 + 32 * v, j)),
            None => None,
        }
    }
}

/// Maps a signed delta to a natural number: 0, -1, 1, -2, ... to 0, 1, 2, 3, ...
pub open spec fn zigzag(d: int) -> int {
    if d >= 0 {
        2 * d
    } else {
        -2 * d - 1
    }
}

/// Inverse of `zigzag`.
pub open spec fn unzigzag(v: int) -> int {
    if v % 2 == 0 {
        v / 2
    } else {
        -((v + 1) / 2)
    }
}

/// `x` is a value of type `i32`.
pub open spec fn fits_i32(x: int) -> bool {
    i32::MIN <= x <= i32::MAX
}

/// A value read from `s` ends past its first byte, within `s`, and is below
/// the bound of its group budget.
pub proof fn lemma_varint_advances(s: Seq<u8>, i: int, budget: nat)
    ensures
        varint_at(s, i, budget) matches Some((v, j)) ==> i < j <= s.len() && 0 <= v < group_bound(budget),
    decreases budget,
{
    if budget > 0 {
        lemma_group_bound_positive((budget - 1) as nat);
    }
    if budget > 0 && 0 <= i < s.len() && is_group_byte(s[i]) && group_of(s[i]) >= 32 {
        lemma_varint_advances(s, i + 1, (budget - 1) as nat);
        if let Some((v, _)) = varint_at(s, i + 1, (budget - 1) as nat) {
            let g = group_of(s[i]) - 32;
            let b = group_bound((budget - 1) as nat);
            assert(g + 32 * v < 32 * b) by (nonlinear_arith)
                requires
                    0 <= g < 32,
                    0 <= v < b,
            ;
        }
    }
}

/// The coordinates encoded in `s` from byte `i` on, given the previous
/// coordinate (`lat`, `lon`); `None` where the bytes are malformed.
pub open spec fn decode_from(s: Seq<u8>, i: int, lat: int, lon: int) -> Option<Seq<Coordinate>>
    decreases s.len() - i,
{
    if i < 0 || i >= s.len() {
        Some(Seq::empty())
    } else {
        match varint_at(s, i, MAX_GROUPS as nat) {
            None => None,
            Some((v1, j)) => {
                let lat2 = lat + unzigzag(v1);
                match varint_at(s, j, MAX_GROUPS as nat) {
                    None => None,
                    Some((v2, k)) => {
                        let lon2 = lon + unzigzag(v2);
                        if !fits_i32(lat2) || !fits_i32(lon2) {
                            None
                        } else {
                            proof {
                                lemma_varint_advances(s, i, MAX_GROUPS as nat);
                                lemma_varint_advances(s, j, MAX_GROUPS as nat);
                            }
                            match decode_from(s, k, lat2, lon2) {
                                None => None,
                                Some(rest) => Some(
                                    seq![Coordinate { lon: lon2 as i32, lat: lat2 as i32 }] + rest,
                                ),
                            }
                        }
                    },
                }
            },
        }
    }
}

/// The track that the bytes `s` encode, or `None` where they are malformed.
pub open spec fn decode_spec(s: Seq<u8>) -> Option<Seq<Coordinate>> {
    decode_from(s, 0, 0, 0)
}

/// Reads one value starting at byte `i`, with at most `budget` groups.
fn read_varint(s: &[u8], i: usize, budget: usize) -> (r: Option<(u64, usize)>)
    requires
        budget <= MAX_GROUPS,
    ensures
        match r {
            None => varint_at(s@, i as int, budget as nat) is None,
            Some((v, j)) => varint_at(s@, i as int, budget as nat) == Some((v as int, j as int)),
        },
    decreases budget,
{
    if budget == 0 || i >= s.len() {
        return None;
    }
    let b = s[i];
    if b < 63 || b > 126 {
        return None;
    }
    let g = (b - 63) as u64;
    if g < 32 {
        Some((g, i + 1))
    } else {
        match read_varint(s, i + 1, budget - 1) {
            None => None,
            Some((v, j)) => {
                proof {
                    lemma_varint_advances(s@, i as int + 1, (budget - 1) as nat);
                    lemma_group_bound_max((budget - 1) as nat);
                }
                Some((g - 32 + 32 * v, j))
            },
        }
    }
}

proof fn lemma_group_bound_positive(n: nat)
    ensures
        group_bound(n) >= 1,
    decreases n,
{
    if n > 0 {
        lemma_group_bound_positive((n - 1) as nat);
    }
}

proof fn lemma_group_bound_max(n: nat)
    requires
        n < MAX_GROUPS,
    ensures
        group_bound(n) <= group_bound(6),
        group_bound(6) == 0x4000_0000,
    decreases n,
{
    reveal_with_fuel(group_bound, 7);
    if n > 0 && n < 6 {
        lemma_group_bound_max((n - 1) as nat);
    }
}

/// The bytes that encode the natural number `v`.
pub open spec fn varint_bytes(v: nat) -> Seq<u8>
    decreases v,
{
    if v < 32 {
        seq![(v + 63) as u8]
    } else {
        seq![(v % 32 + 95) as u8] + varint_bytes(v / 32)
    }
}

/// The encoding of track `t` as deltas from the previous coordinate (`lat`, `lon`).
pub open spec fn encode_from(t: Seq<Coordinate>, lat: int, lon: int) -> Seq<u8>
    decreases t.len(),
{
    if t.len() == 0 {
        Seq::empty()
    } else {
        varint_bytes(zigzag(t[0].lat - lat) as nat) + varint_bytes(zigzag(t[0].lon - lon) as nat)
            + encode_from(t.drop_first(), t[0].lat as int, t[0].lon as int)
    }
}

/// The encoding of track `t`.
pub open spec fn encode_spec(t: Seq<Coordinate>) -> Seq<u8> {
    encode_from(t, 0, 0)
}

/// Decodes the track that the bytes `s` encode.
pub fn decode_bytes(s: &[u8]) -> (r: Result<Vec<Coordinate>, Error>)
    ensures
        match r {
            Ok(t) => decode_spec(s@) == Some(t@),
            Err(e) => decode_spec(s@) is None && e == Error::MalformedPolyline,
        },
{
    let mut out: Vec<Coordinate> = Vec::new();
    let mut i: usize = 0;
    let mut lat: i32 = 0;
    let mut lon: i32 = 0;
    proof {
        reveal_with_fuel(group_bound, 8);
    }
    while i < s.len()
        invariant
            i <= s.len(),
            group_bound(MAX_GROUPS as nat) == 0x8_0000_0000,
            decode_spec(s@) == match decode_from(s@, i as int, lat as int, lon as int) {
                Some(rest) => Some(out@ + rest),
                None => None::<Seq<Coordinate>>,
            },
        decreases s.len() - i,
    {
        let (v1, j) = match read_varint(s, i, MAX_GROUPS) {
            None => return Err(Error::MalformedPolyline),
            Some(p) => p,
        };
        proof {
            lemma_varint_advances(s@, i as int, MAX_GROUPS as nat);
        }
        let (v2, k) = match read_varint(s, j, MAX_GROUPS) {
            None => return Err(Error::MalformedPolyline),
            Some(p) => p,
        };
        proof {
            lemma_varint_advances(s@, j as int, MAX_GROUPS as nat);
        }
        let lat2: i64 = lat as i64 + unzigzag_exec(v1);
        let lon2: i64 = lon as i64 + unzigzag_exec(v2);
        if lat2 < i32::MIN as i64 || lat2 > i32::MAX as i64 || lon2 < i32::MIN as i64 || lon2
            > i32::MAX as i64 {
            return Err(Error::MalformedPolyline);
        }
        let c = Coordinate { lon: lon2 as i32, lat: lat2 as i32 };
        proof {
            if let Some(rest) = decode_from(s@, k as int, lat2 as int, lon2 as int) {
                assert(out@.push(c) + rest =~= out@ + (seq![c] + rest));
            }
        }
        out.push(c);
        lat = lat2 as i32;
        lon = lon2 as i32;
        i = k;
    }
    assert(out@ + Seq::<Coordinate>::empty() =~= out@);
    Ok(out)
}

/// Decodes the polyline string `encoded`.
pub fn decode_polyline(encoded: &str) -> (r: Result<Vec<Coordinate>, Error>)
    ensures
        match r {
            Ok(t) => decode_spec(encoded.spec_bytes()) == Some(t@),
            Err(e) => decode_spec(encoded.spec_bytes()) is None && e == Error::MalformedPolyline,
        },
{
    decode_bytes(encoded.as_bytes())
}

fn unzigzag_exec(v: u64) -> (d: i64)
    requires
        v < 0x8_0000_0000,
    ensures
        d == unzigzag(v as int),
{
    if v % 2 == 0 {
        (v / 2) as i64
    } else {
        -(((v + 1) / 2) as i64)
    }
}

fn zigzag_exec(d: i64) -> (v: u64)
    requires
        -0x1_0000_0000 < d as int && d as int <= 0xFFFF_FFFF,
    ensures
        v == zigzag(d as int),
{
    if d >= 0 {
        (2 * d) as u64
    } else {
        let m: i64 = -d;
        (2 * m - 1) as u64
    }
}

fn push_varint(out: &mut Vec<u8>, v: u64)
    ensures
        final(out)@ == old(out)@ + varint_bytes(v as nat),
    decreases v,
{
    if v < 32 {
        out.push((v + 63) as u8);
    } else {
        out.push((v % 32 + 95) as u8);
        push_varint(out, v / 32);
        assert(old(out)@.push((v % 32 + 95) as u8) + varint_bytes((v / 32) as nat) =~= old(out)@
            + varint_bytes(v as nat));
    }
}

/// Encodes track `track` as a polyline.
pub fn encode_polyline(track: &[Coordinate]) -> (r: Vec<u8>)
    ensures
        r@ == encode_spec(track@),
{
    let mut out: Vec<u8> = Vec::new();
    let mut lat: i32 = 0;
    let mut lon: i32 = 0;
    let mut i: usize = 0;
    assert(track@.subrange(0, track@.len() as int) =~= track@);
    while i < track.len()
        invariant
            i <= track@.len(),
            out@ + encode_from(track@.subrange(i as int, track@.len() as int), lat as int, lon as int)
                == encode_spec(track@),
        decreases track@.len() - i,
    {
        let c = track[i];
        let ghost rest = track@.subrange(i as int, track@.len() as int);
        assert(rest.drop_first() =~= track@.subrange(i + 1, track@.len() as int));
        let e1 = zigzag_exec(c.lat as i64 - lat as i64);
        let e2 = zigzag_exec(c.lon as i64 - lon as i64);
        let ghost before = out@;
        push_varint(&mut out, e1);
        push_varint(&mut out, e2);
        assert(before + encode_from(rest, lat as int, lon as int) =~= out@ + encode_from(
            track@.subrange(i + 1, track@.len() as int),
            c.lat as int,
            c.lon as int,
        ));
        lat = c.lat;
        lon = c.lon;
        i = i + 1;
    }
    assert(out@ + Seq::<u8>::empty() =~= out@);
    out
}

proof fn lemma_unzigzag_zigzag(d: int)
    ensures
        unzigzag(zigzag(d)) == d,
        zigzag(d) >= 0,
{
}

proof fn lemma_varint_round_trip(v: nat, budget: nat, s: Seq<u8>, i: int)
    requires
        budget >= 1,
        v < group_bound(budget),
        0 <= i,
        i + varint_bytes(v).len() <= s.len(),
        s.subrange(i, i + varint_bytes(v).len()) == varint_bytes(v),
    ensures
        varint_at(s, i, budget) == Some((v as int, i + varint_bytes(v).len())),
    decreases v,
{
    reveal_with_fuel(group_bound, 2);
    let e = varint_bytes(v);
    assert(s[i] == e[0]);
    if v >= 32 {
        let rest = varint_bytes(v / 32);
        assert(s.subrange(i + 1, i + 1 + rest.len()) =~= e.subrange(1, e.len() as int));
        assert(e.subrange(1, e.len() as int) =~= rest);
        if budget == 1 {
            assert(false);
        }
        assert(v / 32 < group_bound((budget - 1) as nat));
        lemma_varint_round_trip(v / 32, (budget - 1) as nat, s, i + 1);
    }
}

proof fn lemma_decode_encode_from(t: Seq<Coordinate>, lat: int, lon: int, s: Seq<u8>, i: int)
    requires
        fits_i32(lat),
        fits_i32(lon),
        0 <= i <= s.len(),
        s.subrange(i, s.len() as int) == encode_from(t, lat, lon),
    ensures
        decode_from(s, i, lat, lon) == Some(t),
    decreases t.len(),
{
    reveal_with_fuel(group_bound, 8);
    if t.len() == 0 {
        assert(s.subrange(i, s.len() as int).len() == 0);
        assert(t =~= Seq::<Coordinate>::empty());
    } else {
        let c = t[0];
        let z1 = zigzag(c.lat - lat);
        let z2 = zigzag(c.lon - lon);
        lemma_unzigzag_zigzag(c.lat - lat);
        lemma_unzigzag_zigzag(c.lon - lon);
        let e1 = varint_bytes(z1 as nat);
        let e2 = varint_bytes(z2 as nat);
        let tail = encode_from(t.drop_first(), c.lat as int, c.lon as int);
        let j = i + e1.len();
        let k = j + e2.len();
        let whole = s.subrange(i, s.len() as int);
        assert(whole =~= e1 + e2 + tail);
        assert(whole.subrange(0, e1.len() as int) =~= e1);
        assert(whole.subrange(e1.len() as int, (e1.len() + e2.len()) as int) =~= e2);
        assert(whole.subrange((e1.len() + e2.len()) as int, whole.len() as int) =~= tail);
        assert(s.subrange(i, j) =~= whole.subrange(0, e1.len() as int));
        assert(s.subrange(j, k) =~= whole.subrange(e1.len() as int, (e1.len() + e2.len()) as int));
        assert(s.subrange(k, s.len() as int) =~= whole.subrange(
            (e1.len() + e2.len()) as int,
            whole.len() as int,
        ));
        lemma_varint_round_trip(z1 as nat, MAX_GROUPS as nat, s, i);
        lemma_varint_round_trip(z2 as nat, MAX_GROUPS as nat, s, j);
        lemma_decode_encode_from(t.drop_first(), c.lat as int, c.lon as int, s, k);
        assert(seq![Coordinate { lon: c.lon, lat: c.lat }] + t.drop_first() =~= t);
    }
}

/// Decoding the encoding of any track gives that track back, exactly: at
/// the fixed precision the integer coordinates are the rounded values.
pub proof fn lemma_round_trip(t: Seq<Coordinate>)
    ensures
        decode_spec(encode_spec(t)) == Some(t),
{
    let s = encode_spec(t);
    assert(s.subrange(0, s.len() as int) =~= s);
    lemma_decode_encode_from(t, 0, 0, s, 0);
}

} // verus!
