//! Encoded-polyline transcoding.
//!
//! A polyline is a compact text encoding of an ordered coordinate sequence:
//! each coordinate is scaled to a fixed precision, delta-compressed against
//! the previous coordinate, zigzag-mapped to a non-negative value, and split
//! into 5-bit chunks written low-to-high as printable characters `'?'..='~'`.
//! Providers emit geometry at different precisions (5 or 6 decimal digits),
//! so the transcoder decodes at one precision and re-encodes at another.

use vstd::prelude::*;

verus! {

/// Ten to the `p`, as a mathematical integer.
pub open spec fn pow10(p: nat) -> int
    decreases p,
{
    if p == 0 {
        1
    } else {
        10 * pow10((p - 1) as nat)
    }
}

pub proof fn lemma_pow10_pos(p: nat)
    ensures
        pow10(p) >= 1,
    decreases p,
{
    if p > 0 {
        lemma_pow10_pos((p - 1) as nat);
    }
}

/// Thirty-two to the `k`: the value range covered by `k` 5-bit chunks.
pub open spec fn pow32(k: nat) -> int
    decreases k,
{
    if k == 0 {
        1
    } else {
        32 * pow32((k - 1) as nat)
    }
}

pub proof fn lemma_pow32_pos(k: nat)
    ensures
        pow32(k) >= 1,
    decreases k,
{
    if k > 0 {
        lemma_pow32_pos((k - 1) as nat);
    }
}

/// The zigzag map sending a signed delta to a non-negative value: left-shift
/// by one, bitwise complement when negative.
pub open spec fn zigzag(d: int) -> int {
    if d >= 0 {
        2 * d
    } else {
        -2 * d - 1
    }
}

/// Inverse of `zigzag` on non-negative values.
pub open spec fn unzigzag(v: int) -> int {
    if v % 2 == 0 {
        v / 2
    } else {
        -(v / 2) - 1
    }
}

pub proof fn lemma_zigzag_roundtrip(d: int)
    ensures
        unzigzag(zigzag(d)) == d,
        zigzag(d) >= 0,
{
}

/// The character that writes one 5-bit chunk value `v` (with its continuation
/// bit already folded in), offset into the printable range.
pub open spec fn chunk_char(v: int) -> char {
    (v + 63) as char
}

/// The chunk value a character stands for; outside `0..=63` the character is
/// not part of the polyline alphabet.
pub open spec fn char_val(c: char) -> int {
    (c as int) - 63
}

/// Chunked encoding of one non-negative value, low chunk first; every chunk
/// but the last carries the continuation bit (value `32`).
pub open spec fn encode_num(v: int) -> Seq<char>
    decreases v,
{
    if v < 32 {
        seq![chunk_char(v)]
    } else {
        seq![chunk_char(32 + v % 32)] + encode_num(v / 32)
    }
}

/// Reads one chunked value from the front of `s`, `depth` chunks having been
/// read already; yields the value and the number of characters consumed.
/// Fails on a foreign character, on exhaustion before a terminating chunk and
/// past 12 chunks (the 60-bit accumulator limit).
pub open spec fn decode_num_at(s: Seq<char>, depth: nat) -> Option<(int, int)>
    decreases s.len(),
{
    if s.len() == 0 || depth >= 12 {
        None
    } else {
        let b = char_val(s[0]);
        if b < 0 || b > 63 {
            None
        } else if b < 32 {
            Some((b, 1))
        } else {
            match decode_num_at(s.drop_first(), (depth + 1) as nat) {
                None => None,
                Some((v, n)) => Some((b - 32 + 32 * v, n + 1)),
            }
        }
    }
}

pub open spec fn decode_num(s: Seq<char>) -> Option<(int, int)> {
    decode_num_at(s, 0)
}

/// A decoded value fits in `12 - depth` chunks and consumes between one
/// character and all of `s`.
pub proof fn lemma_decode_num_bounds(s: Seq<char>, depth: nat)
    requires
        decode_num_at(s, depth) is Some,
    ensures
        0 <= decode_num_at(s, depth)->Some_0.0 < pow32((12 - depth) as nat),
        1 <= decode_num_at(s, depth)->Some_0.1 <= s.len(),
    decreases s.len(),
{
    let b = char_val(s[0]);
    if b >= 32 {
        lemma_decode_num_bounds(s.drop_first(), (depth + 1) as nat);
    } else {
        assert(pow32((12 - depth) as nat) >= 32 * pow32((11 - depth) as nat));
        lemma_pow32_pos((11 - depth) as nat);
    }
}

/// Decoding reads back exactly what `encode_num` wrote, leaving `rest`.
pub proof fn lemma_decode_encode_num(v: int, rest: Seq<char>, depth: nat)
    requires
        0 <= v < pow32((12 - depth) as nat),
        depth < 12,
    ensures
        decode_num_at(encode_num(v) + rest, depth) == Some((v, encode_num(v).len() as int)),
    decreases v,
{
    let s = encode_num(v) + rest;
    if v < 32 {
        assert(s[0] == chunk_char(v));
        assert(char_val(chunk_char(v)) == v);
    } else {
        assert(s[0] == chunk_char(32 + v % 32));
        assert(char_val(chunk_char(32 + v % 32)) == 32 + v % 32);
        assert(pow32((12 - depth) as nat) == 32 * pow32((11 - depth) as nat));
        assert(v / 32 < pow32((11 - depth) as nat)) by (nonlinear_arith)
            requires
                v < 32 * pow32((11 - depth) as nat),
                0 <= v,
        ;
        assert(s.drop_first() =~= encode_num(v / 32) + rest);
        lemma_decode_encode_num(v / 32, rest, (depth + 1) as nat);
        assert(32 + v % 32 - 32 + 32 * (v / 32) == v);
    }
}

/// Scaled latitude range at precision `p`: within ±90 degrees.
pub open spec fn lat_ok(lat: int, p: nat) -> bool {
    -90 * pow10(p) <= lat <= 90 * pow10(p)
}

/// Scaled longitude range at precision `p`: within ±180 degrees.
pub open spec fn lng_ok(lng: int, p: nat) -> bool {
    -180 * pow10(p) <= lng <= 180 * pow10(p)
}

/// Decodes a whole polyline tail given the running coordinate `(lat0, lng0)`.
/// Each pair must decode and stay within the coordinate range at precision
/// `p`; a latitude with no longitude after it fails, as does any malformed
/// number.
pub open spec fn decode_coords(s: Seq<char>, lat0: int, lng0: int, p: nat) -> Option<
    Seq<(int, int)>,
>
    decreases s.len(),
{
    if s.len() == 0 {
        Some(Seq::empty())
    } else {
        match decode_num(s) {
            None => None,
            Some((lv, ln)) => {
                let lat = lat0 + unzigzag(lv);
                let s1 = s.skip(ln);
                if !lat_ok(lat, p) {
                    None
                } else {
                    match decode_num(s1) {
                        None => None,
                        Some((gv, gn)) => {
                            let lng = lng0 + unzigzag(gv);
                            let s2 = s1.skip(gn);
                            if !lng_ok(lng, p) {
                                None
                            } else {
                                proof {
                                    lemma_decode_num_bounds(s, 0);
                                    lemma_decode_num_bounds(s1, 0);
                                }
                                match decode_coords(s2, lat, lng, p) {
                                    None => None,
                                    Some(tail) => Some(seq![(lat, lng)] + tail),
                                }
                            }
                        },
                    }
                }
            },
        }
    }
}

/// Encodes a coordinate sequence as deltas against the running coordinate.
pub open spec fn encode_coords(cs: Seq<(int, int)>, lat0: int, lng0: int) -> Seq<char>
    decreases cs.len(),
{
    if cs.len() == 0 {
        Seq::empty()
    } else {
        let (lat, lng) = cs[0];
        encode_num(zigzag(lat - lat0)) + encode_num(zigzag(lng - lng0)) + encode_coords(
            cs.drop_first(),
            lat,
            lng,
        )
    }
}

/// Every coordinate of `cs` lies in range at precision `p`.
pub open spec fn coords_ok(cs: Seq<(int, int)>, p: nat) -> bool {
    forall|i: int|
        0 <= i < cs.len() ==> lat_ok((#[trigger] cs[i]).0, p) && lng_ok(cs[i].1, p)
}

/// Decoding reads back exactly the coordinates that `encode_coords` wrote,
/// provided they are in range and the running coordinate is too.
pub proof fn lemma_decode_encode_coords(cs: Seq<(int, int)>, lat0: int, lng0: int, p: nat)
    requires
        coords_ok(cs, p),
        lat_ok(lat0, p),
        lng_ok(lng0, p),
        p <= 9,
    ensures
        decode_coords(encode_coords(cs, lat0, lng0), lat0, lng0, p) == Some(cs),
    decreases cs.len(),
{
    if cs.len() > 0 {
        let (lat, lng) = cs[0];
        assert(lat_ok(lat, p) && lng_ok(lng, p));
        lemma_pow10_le9_bound(p);
        let dv = zigzag(lat - lat0);
        let gv = zigzag(lng - lng0);
        lemma_zigzag_roundtrip(lat - lat0);
        lemma_zigzag_roundtrip(lng - lng0);
        assert(pow32(12) == 0x1000000000000000) by {
            reveal_with_fuel(pow32, 13);
        }
        let tail_enc = encode_coords(cs.drop_first(), lat, lng);
        let s = encode_coords(cs, lat0, lng0);
        assert(s =~= encode_num(dv) + (encode_num(gv) + tail_enc));
        lemma_decode_encode_num(dv, encode_num(gv) + tail_enc, 0);
        let ln = encode_num(dv).len() as int;
        assert(s.skip(ln) =~= encode_num(gv) + tail_enc);
        lemma_decode_encode_num(gv, tail_enc, 0);
        let gn = encode_num(gv).len() as int;
        assert(s.skip(ln).skip(gn) =~= tail_enc);
        assert(forall|i: int|
            0 <= i < cs.drop_first().len() ==> lat_ok(#[trigger] cs.drop_first()[i].0, p) && lng_ok(
                cs.drop_first()[i].1,
                p,
            ));
        lemma_decode_encode_coords(cs.drop_first(), lat, lng, p);
        assert(decode_coords(s, lat0, lng0, p) == Some(seq![(lat, lng)] + cs.drop_first()));
        assert(seq![(lat, lng)] + cs.drop_first() =~= cs);
    }
}

/// Division rounding half away from zero; `d` must be positive.
pub open spec fn round_div(x: int, d: int) -> int {
    if x >= 0 {
        (x + d / 2) / d
    } else {
        -((-x + d / 2) / d)
    }
}

/// Moves a scaled coordinate from precision `from` to precision `to`:
/// exact when gaining digits, rounded half away from zero when losing them.
pub open spec fn rescale(x: int, from: nat, to: nat) -> int {
    if to >= from {
        x * pow10((to - from) as nat)
    } else {
        round_div(x, pow10((from - to) as nat))
    }
}

pub open spec fn rescale_coords(cs: Seq<(int, int)>, from: nat, to: nat) -> Seq<(int, int)> {
    cs.map_values(|c: (int, int)| (rescale(c.0, from, to), rescale(c.1, from, to)))
}

/// What precision transcoding returns: the coordinates decoded at `from`,
/// re-encoded at `to`; the empty string when the input does not decode.
pub open spec fn reencode_spec(s: Seq<char>, from: nat, to: nat) -> Seq<char> {
    match decode_coords(s, 0, 0, from) {
        None => Seq::empty(),
        Some(cs) => encode_coords(rescale_coords(cs, from, to), 0, 0),
    }
}

/// Rounding to a coarser scale moves the value by at most half a unit of the
/// coarser scale.
pub proof fn lemma_round_div_close(x: int, d: int)
    requires
        d >= 1,
    ensures
        -(d / 2) <= round_div(x, d) * d - x <= d / 2,
{
    if x >= 0 {
        let r = (x + d / 2) / d;
        assert(r * d <= x + d / 2 < r * d + d) by (nonlinear_arith)
            requires
                d >= 1,
                x >= 0,
                r == (x + d / 2) / d,
        ;
    } else {
        let y = -x;
        let r = (y + d / 2) / d;
        assert(r * d <= y + d / 2 < r * d + d) by (nonlinear_arith)
            requires
                d >= 1,
                y >= 0,
                r == (y + d / 2) / d,
        ;
        assert(round_div(x, d) * d - x == -(r * d - y)) by (nonlinear_arith)
            requires
                round_div(x, d) == -r,
                y == -x,
        ;
    }
}

/// Every coordinate that decoding accepted is in range at its precision.
pub proof fn lemma_decode_coords_ok(s: Seq<char>, lat0: int, lng0: int, p: nat)
    requires
        decode_coords(s, lat0, lng0, p) is Some,
    ensures
        coords_ok(decode_coords(s, lat0, lng0, p)->Some_0, p),
    decreases s.len(),
{
    if s.len() != 0 {
        let (lv, ln) = decode_num(s)->Some_0;
        let lat = lat0 + unzigzag(lv);
        let s1 = s.skip(ln);
        let (gv, gn) = decode_num(s1)->Some_0;
        let lng = lng0 + unzigzag(gv);
        let s2 = s1.skip(gn);
        lemma_decode_num_bounds(s, 0);
        lemma_decode_num_bounds(s1, 0);
        lemma_decode_coords_ok(s2, lat, lng, p);
        let tail = decode_coords(s2, lat, lng, p)->Some_0;
        assert(decode_coords(s, lat0, lng0, p)->Some_0 =~= seq![(lat, lng)] + tail);
    }
}

/// Rescaling keeps a coordinate in range at the target precision.
pub proof fn lemma_rescale_range(x: int, bound: int, from: nat, to: nat)
    requires
        1 <= bound,
        -bound * pow10(from) <= x <= bound * pow10(from),
        from <= 9,
        to <= 9,
    ensures
        -bound * pow10(to) <= rescale(x, from, to) <= bound * pow10(to),
{
    if to >= from {
        let k = pow10((to - from) as nat);
        lemma_pow10_pos((to - from) as nat);
        assert(pow10(to) == pow10(from) * k) by {
            lemma_pow10_add(from, (to - from) as nat);
        }
        assert(-bound * (pow10(from) * k) <= x * k <= bound * (pow10(from) * k))
            by (nonlinear_arith)
            requires
                k >= 1,
                -bound * pow10(from) <= x <= bound * pow10(from),
        ;
        assert(bound * (pow10(from) * k) == bound * pow10(to)) by (nonlinear_arith)
            requires
                pow10(to) == pow10(from) * k,
        ;
    } else {
        let d = pow10((from - to) as nat);
        lemma_pow10_pos((from - to) as nat);
        lemma_pow10_pos(to);
        assert(pow10(from) == pow10(to) * d) by {
            lemma_pow10_add(to, (from - to) as nat);
        }
        let r = rescale(x, from, to);
        lemma_round_div_close(x, d);
        assert(-bound * pow10(to) <= r <= bound * pow10(to)) by (nonlinear_arith)
            requires
                d >= 1,
                -(d / 2) <= r * d - x <= d / 2,
                -bound * (pow10(to) * d) <= x <= bound * (pow10(to) * d),
                1 <= bound,
                pow10(to) >= 1,
        ;
        lemma_pow10_pos(to);
    }
}

pub proof fn lemma_pow10_add(a: nat, b: nat)
    ensures
        pow10((a + b) as nat) == pow10(a) * pow10(b),
    decreases a,
{
    if a > 0 {
        lemma_pow10_add((a - 1) as nat, b);
        assert(pow10((a + b) as nat) == 10 * pow10((a - 1 + b) as nat));
        assert(10 * (pow10((a - 1) as nat) * pow10(b)) == (10 * pow10((a - 1) as nat)) * pow10(
            b,
        )) by (nonlinear_arith);
    }
}

/// Transcoding a polyline from precision 6 down to 5 and back decodes to the
/// original coordinate sequence up to the rounding the lost digit forces:
/// every coordinate lands within 5 units of the original at precision 6.
#[verifier::rlimit(90)]
pub proof fn lemma_reencode_round_trip(s: Seq<char>)
    requires
        decode_coords(s, 0, 0, 6) is Some,
    ensures
        ({
            let cs = decode_coords(s, 0, 0, 6)->Some_0;
            let back = decode_coords(reencode_spec(reencode_spec(s, 6, 5), 5, 6), 0, 0, 6);
            &&& back is Some
            &&& back->Some_0.len() == cs.len()
            &&& forall|i: int|
                0 <= i < cs.len() ==> -5 <= #[trigger] back->Some_0[i].0 - cs[i].0 <= 5 && -5
                    <= back->Some_0[i].1 - cs[i].1 <= 5
        }),
{
    let cs = decode_coords(s, 0, 0, 6)->Some_0;
    lemma_decode_coords_ok(s, 0, 0, 6);
    let cs5 = rescale_coords(cs, 6, 5);
    assert(cs5.len() == cs.len());
    assert(coords_ok(cs, 6));
    assert(coords_ok(cs5, 5)) by {
        assert forall|i: int| 0 <= i < cs5.len() implies lat_ok(#[trigger] cs5[i].0, 5) && lng_ok(
            cs5[i].1,
            5,
        ) by {
            assert(0 <= i < cs.len());
            assert(lat_ok(cs[i].0, 6) && lng_ok(cs[i].1, 6));
            lemma_rescale_range(cs[i].0, 90, 6, 5);
            lemma_rescale_range(cs[i].1, 180, 6, 5);
        }
    }
    lemma_pow10_pos(5);
    lemma_decode_encode_coords(cs5, 0, 0, 5);
    let mid = reencode_spec(s, 6, 5);
    assert(decode_coords(mid, 0, 0, 5) == Some(cs5));
    let cs6 = rescale_coords(cs5, 5, 6);
    assert(cs6.len() == cs5.len());
    assert(coords_ok(cs6, 6)) by {
        assert forall|i: int| 0 <= i < cs6.len() implies lat_ok(#[trigger] cs6[i].0, 6) && lng_ok(
            cs6[i].1,
            6,
        ) by {
            assert(lat_ok(cs[i].0, 6) && lng_ok(cs[i].1, 6));
            assert(cs5[i].0 == rescale(cs[i].0, 6, 5));
            assert(cs5[i].1 == rescale(cs[i].1, 6, 5));
            lemma_rescale_range(cs[i].0, 90, 6, 5);
            lemma_rescale_range(cs[i].1, 180, 6, 5);
            lemma_rescale_range(cs5[i].0, 90, 5, 6);
            lemma_rescale_range(cs5[i].1, 180, 5, 6);
        }
    }
    lemma_pow10_pos(6);
    lemma_decode_encode_coords(cs6, 0, 0, 6);
    let back = decode_coords(reencode_spec(mid, 5, 6), 0, 0, 6);
    assert(back == Some(cs6));
    assert forall|i: int|
        0 <= i < cs.len() implies -5 <= #[trigger] back->Some_0[i].0 - cs[i].0 <= 5 && -5 <= back
        ->Some_0[i].1 - cs[i].1 <= 5 by {
        assert(cs6[i].0 == rescale(rescale(cs[i].0, 6, 5), 5, 6));
        assert(cs6[i].1 == rescale(rescale(cs[i].1, 6, 5), 5, 6));
        assert(pow10(1) == 10) by {
            reveal_with_fuel(pow10, 3);
        }
        lemma_round_div_close(cs[i].0, 10);
        lemma_round_div_close(cs[i].1, 10);
    }
}

pub proof fn lemma_pow10_mono(p: nat, q: nat)
    requires
        p <= q,
    ensures
        pow10(p) <= pow10(q),
    decreases q,
{
    if p < q {
        lemma_pow10_mono(p, (q - 1) as nat);
        lemma_pow10_pos((q - 1) as nat);
    }
}

/// At precision at most 9 the scaled ranges stay well inside the 60-bit
/// chunk-accumulator limit.
pub proof fn lemma_pow10_le9_bound(p: nat)
    requires
        p <= 9,
    ensures
        pow10(p) <= 1000000000,
{
    lemma_pow10_mono(p, 9);
    assert(pow10(9) == 1000000000) by {
        reveal_with_fuel(pow10, 10);
    }
}

pub proof fn lemma_pow32_mono(a: nat, b: nat)
    requires
        a <= b,
    ensures
        pow32(a) <= pow32(b),
    decreases b,
{
    if a < b {
        lemma_pow32_mono(a, (b - 1) as nat);
        lemma_pow32_pos((b - 1) as nat);
    }
}

/// The view of an executable coordinate list as mathematical pairs.
pub open spec fn coords_view(cs: Seq<(i64, i64)>) -> Seq<(int, int)> {
    cs.map_values(|c: (i64, i64)| (c.0 as int, c.1 as int))
}

/// Builds a `String` from an accumulated character vector.
/// Relies on std's `FromIterator<char> for String`: collecting chars yields
/// the string of exactly those chars in order.
#[verifier::external_body]
pub(crate) fn chars_to_string(v: Vec<char>) -> (r: String)
    ensures
        r@ == v@,
{
    v.into_iter().collect()
}

/// Ten to the `precision`, small enough for 64 bits.
pub fn pow10_u64(p: u32) -> (r: u64)
    requires
        p <= 9,
    ensures
        r as int == pow10(p as nat),
        r >= 1,
{
    let mut r: u64 = 1;
    let mut k: u32 = 0;
    while k < p
        invariant
            k <= p <= 9,
            r as int == pow10(k as nat),
        decreases p - k,
    {
        proof {
            lemma_pow10_mono(k as nat, 8);
            assert(pow10(8) == 100000000) by {
                reveal_with_fuel(pow10, 9);
            }
        }
        r = r * 10;
        k = k + 1;
    }
    proof {
        lemma_pow10_pos(p as nat);
    }
    r
}

/// Reads one chunked value beginning at character `i`; `depth` chunks of the
/// same value precede it.
fn decode_num_exec(s: &str, i: usize, depth: u32, n: usize) -> (r: Option<(u64, usize)>)
    requires
        n == s@.len(),
        i <= n,
        depth <= 12,
    ensures
        match r {
            Some((v, c)) => {
                &&& decode_num_at(s@.skip(i as int), depth as nat) == Some((v as int, c as int))
                &&& 1 <= c
                &&& i + c <= n
            },
            None => decode_num_at(s@.skip(i as int), depth as nat) is None,
        },
    decreases n - i,
{
    if i >= n || depth >= 12 {
        return None;
    }
    let c = s.get_char(i);
    proof {
        assert(s@.skip(i as int)[0] == s@[i as int]);
    }
    let cv = c as u32;
    if cv < 63 || cv > 126 {
        return None;
    }
    let b = (cv - 63) as u64;
    if b < 32 {
        Some((b, 1))
    } else {
        proof {
            assert(s@.skip(i as int).drop_first() =~= s@.skip(i as int + 1));
        }
        match decode_num_exec(s, i + 1, depth + 1, n) {
            None => None,
            Some((v, c2)) => {
                proof {
                    lemma_decode_num_bounds(s@.skip(i as int + 1), (depth + 1) as nat);
                    lemma_pow32_mono((12 - depth - 1) as nat, 11);
                    assert(pow32(11) == 0x80000000000000) by {
                        reveal_with_fuel(pow32, 12);
                    }
                }
                Some((b - 32 + 32 * v, c2 + 1))
            },
        }
    }
}

/// Inverse zigzag on a decoded chunk value.
fn unzigzag_exec(v: u64) -> (r: i64)
    requires
        v < 0x1000000000000000,
    ensures
        r as int == unzigzag(v as int),
{
    if v % 2 == 1 {
        -((v / 2) as i64) - 1
    } else {
        (v / 2) as i64
    }
}

/// Decodes a whole polyline at the given precision into scaled integer
/// coordinates; `None` exactly when the text is not a well-formed polyline
/// whose coordinates stay in range at that precision.
#[verifier::rlimit(60)]
pub fn decode_polyline_text(s: &str, precision: u32) -> (r: Option<Vec<(i64, i64)>>)
    requires
        precision <= 9,
    ensures
        match r {
            Some(v) => decode_coords(s@, 0, 0, precision as nat) == Some(coords_view(v@)),
            None => decode_coords(s@, 0, 0, precision as nat) is None,
        },
{
    let p = precision;
    let n = s.unicode_len();
    let factor = pow10_u64(p);
    proof {
        lemma_pow10_le9_bound(p as nat);
    }
    let lat_bound: i64 = 90 * (factor as i64);
    let lng_bound: i64 = 180 * (factor as i64);
    let mut i: usize = 0;
    let mut lat: i64 = 0;
    let mut lng: i64 = 0;
    let mut out: Vec<(i64, i64)> = Vec::new();
    proof {
        assert(s@.skip(0) =~= s@);
        if decode_coords(s@, 0, 0, p as nat) is Some {
            let t = decode_coords(s@, 0, 0, p as nat)->Some_0;
            assert(coords_view(out@) + t =~= t);
        }
    }
    loop
        invariant
            i <= n,
            n == s@.len(),
            p == precision,
            p <= 9,
            factor as int == pow10(p as nat),
            lat_bound == 90 * factor,
            lng_bound == 180 * factor,
            -lat_bound <= lat <= lat_bound,
            -lng_bound <= lng <= lng_bound,
            decode_coords(s@, 0, 0, p as nat) == match decode_coords(
                s@.skip(i as int),
                lat as int,
                lng as int,
                p as nat,
            ) {
                Some(t) => Some(coords_view(out@) + t),
                None => None::<Seq<(int, int)>>,
            },
        decreases n - i,
    {
        if i >= n {
            proof {
                assert(s@.skip(i as int) =~= Seq::<char>::empty());
                assert(decode_coords(s@.skip(i as int), lat as int, lng as int, p as nat)
                    == Some(Seq::<(int, int)>::empty()));
                assert(coords_view(out@) + Seq::<(int, int)>::empty() =~= coords_view(out@));
                assert(decode_coords(s@, 0, 0, p as nat) == Some(coords_view(out@)));
            }
            return Some(out);
        }
        proof {
            lemma_pow10_le9_bound(p as nat);
            assert(pow32(12) == 0x1000000000000000) by {
                reveal_with_fuel(pow32, 13);
            }
        }
        let lv_opt = decode_num_exec(s, i, 0, n);
        let (lv, ln) = match lv_opt {
            None => {
                proof {
                    assert(decode_coords(s@, 0, 0, p as nat) is None);
                }
                return None;
            },
            Some(x) => x,
        };
        proof {
            lemma_decode_num_bounds(s@.skip(i as int), 0);
        }
        let dlat = unzigzag_exec(lv);
        let new_lat = lat + dlat;
        if new_lat < -lat_bound || new_lat > lat_bound {
            proof {
                assert(decode_coords(s@, 0, 0, p as nat) is None);
            }
            return None;
        }
        proof {
            assert(s@.skip(i as int).skip(ln as int) =~= s@.skip(i as int + ln as int));
        }
        let i1 = i + ln;
        let gv_opt = decode_num_exec(s, i1, 0, n);
        let (gv, gn) = match gv_opt {
            None => {
                proof {
                    assert(decode_coords(s@, 0, 0, p as nat) is None);
                }
                return None;
            },
            Some(x) => x,
        };
        proof {
            lemma_decode_num_bounds(s@.skip(i1 as int), 0);
        }
        let dlng = unzigzag_exec(gv);
        let new_lng = lng + dlng;
        if new_lng < -lng_bound || new_lng > lng_bound {
            proof {
                assert(decode_coords(s@, 0, 0, p as nat) is None);
            }
            return None;
        }
        proof {
            assert(s@.skip(i1 as int).skip(gn as int) =~= s@.skip(i1 as int + gn as int));
        }
        let ghost prev_out = out@;
        out.push((new_lat, new_lng));
        proof {
            assert(coords_view(out@) =~= coords_view(prev_out) + seq![
                (new_lat as int, new_lng as int),
            ]);
            let tail = decode_coords(
                s@.skip(i1 as int + gn as int),
                new_lat as int,
                new_lng as int,
                p as nat,
            );
            if tail is Some {
                let t2 = tail->Some_0;
                assert(coords_view(prev_out) + (seq![(new_lat as int, new_lng as int)] + t2)
                    =~= coords_view(out@) + t2);
            }
        }
        i = i1 + gn;
        lat = new_lat;
        lng = new_lng;
    }
}

/// Appends the chunked encoding of one zigzagged value.
fn encode_num_push(v: u64, out: &mut Vec<char>)
    requires
        v < 0x1000000000000000,
    ensures
        final(out)@ == old(out)@ + encode_num(v as int),
    decreases v,
{
    if v < 32 {
        proof {
            assert(((v + 63) as u8) as u64 == v + 63) by (bit_vector)
                requires
                    v < 32,
            ;
        }
        out.push(((v as u8) + 63) as char);
        proof {
            assert(final(out)@ =~= old(out)@ + encode_num(v as int));
        }
    } else {
        proof {
            assert((((v % 32) + 95) as u8) as u64 == (v % 32) + 95) by (bit_vector);
        }
        out.push((((v % 32) as u8) + 95) as char);
        encode_num_push(v / 32, out);
        proof {
            assert(final(out)@ =~= old(out)@ + encode_num(v as int));
        }
    }
}

/// Zigzag of a bounded signed delta.
fn zigzag_exec(d: i64) -> (r: u64)
    requires
        -400000000000 <= d <= 400000000000,
    ensures
        r as int == zigzag(d as int),
        r < 0x1000000000000000,
{
    if d >= 0 {
        let z: i64 = 2 * d;
        z as u64
    } else {
        let nd: i64 = -d;
        let z: i64 = 2 * nd - 1;
        z as u64
    }
}

/// Encodes scaled integer coordinates as a polyline at the given precision;
/// `None` exactly when some coordinate is out of range at that precision.
#[verifier::rlimit(60)]
pub fn encode_polyline_scaled(cs: &Vec<(i64, i64)>, precision: u32) -> (r: Option<String>)
    requires
        precision <= 9,
    ensures
        match r {
            Some(t) => coords_ok(coords_view(cs@), precision as nat) && t@ == encode_coords(
                coords_view(cs@),
                0,
                0,
            ),
            None => !coords_ok(coords_view(cs@), precision as nat),
        },
{
    let p = precision;
    let factor = pow10_u64(p);
    proof {
        lemma_pow10_le9_bound(p as nat);
    }
    let lat_bound: i64 = 90 * (factor as i64);
    let lng_bound: i64 = 180 * (factor as i64);
    let n = cs.len();
    let mut j: usize = 0;
    let mut plat: i64 = 0;
    let mut plng: i64 = 0;
    let mut out: Vec<char> = Vec::new();
    proof {
        assert(coords_view(cs@).skip(0) =~= coords_view(cs@));
        assert(out@ + encode_coords(coords_view(cs@), 0, 0) =~= encode_coords(
            coords_view(cs@),
            0,
            0,
        ));
    }
    loop
        invariant
            j <= n,
            n == cs@.len(),
            p == precision,
            p <= 9,
            factor as int == pow10(p as nat),
            lat_bound == 90 * factor,
            lng_bound == 180 * factor,
            -lat_bound <= plat <= lat_bound,
            -lng_bound <= plng <= lng_bound,
            forall|k: int|
                0 <= k < j ==> lat_ok(#[trigger] coords_view(cs@)[k].0, p as nat) && lng_ok(
                    coords_view(cs@)[k].1,
                    p as nat,
                ),
            encode_coords(coords_view(cs@), 0, 0) == out@ + encode_coords(
                coords_view(cs@).skip(j as int),
                plat as int,
                plng as int,
            ),
        decreases n - j,
    {
        proof {
            lemma_pow10_le9_bound(p as nat);
        }
        if j >= n {
            proof {
                assert(coords_view(cs@).skip(j as int) =~= Seq::<(int, int)>::empty());
                assert(encode_coords(Seq::<(int, int)>::empty(), plat as int, plng as int)
                    =~= Seq::<char>::empty());
                assert(out@ + Seq::<char>::empty() =~= out@);
                assert(encode_coords(coords_view(cs@), 0, 0) == out@);
                assert(coords_ok(coords_view(cs@), p as nat));
            }
            return Some(chars_to_string(out));
        }
        let (clat, clng) = cs[j];
        if clat < -lat_bound || clat > lat_bound || clng < -lng_bound || clng > lng_bound {
            proof {
                assert(!(lat_ok(coords_view(cs@)[j as int].0, p as nat) && lng_ok(
                    coords_view(cs@)[j as int].1,
                    p as nat,
                )));
            }
            return None;
        }
        let zlat = zigzag_exec(clat - plat);
        let zlng = zigzag_exec(clng - plng);
        let ghost out0 = out@;
        encode_num_push(zlat, &mut out);
        encode_num_push(zlng, &mut out);
        proof {
            let cv = coords_view(cs@);
            assert(cv.skip(j as int)[0] == cv[j as int]);
            assert(cv.skip(j as int).drop_first() =~= cv.skip(j as int + 1));
            assert(out@ =~= out0 + (encode_num(zlat as int) + encode_num(zlng as int)));
            assert(out0 + (encode_num(zlat as int) + encode_num(zlng as int)) + encode_coords(
                cv.skip(j as int + 1),
                clat as int,
                clng as int,
            ) =~= out0 + encode_coords(cv.skip(j as int), plat as int, plng as int));
        }
        j = j + 1;
        plat = clat;
        plng = clng;
    }
}

/// Moves one scaled coordinate between precisions.
fn rescale_exec(x: i64, from_p: u32, to_p: u32) -> (r: i64)
    requires
        from_p <= 9,
        to_p <= 9,
        -180 * pow10(from_p as nat) <= x <= 180 * pow10(from_p as nat),
    ensures
        r as int == rescale(x as int, from_p as nat, to_p as nat),
{
    if to_p >= from_p {
        let k = pow10_u64(to_p - from_p);
        proof {
            lemma_pow10_le9_bound(to_p as nat);
            lemma_pow10_le9_bound((to_p - from_p) as nat);
            lemma_rescale_range(x as int, 180, from_p as nat, to_p as nat);
            assert(rescale(x as int, from_p as nat, to_p as nat) == (x as int) * (k as int));
            assert(-180000000000 <= (x as int) * (k as int) <= 180000000000);
        }
        let r = x * (k as i64);
        proof {
            assert(r as int == rescale(x as int, from_p as nat, to_p as nat));
        }
        r
    } else {
        let d = pow10_u64(from_p - to_p);
        proof {
            lemma_pow10_le9_bound(from_p as nat);
            lemma_pow10_le9_bound((from_p - to_p) as nat);
        }
        let di = d as i64;
        let r = if x >= 0 {
            (x + di / 2) / di
        } else {
            -(((-x) + di / 2) / di)
        };
        proof {
            assert(r as int == round_div(x as int, d as int));
            assert(round_div(x as int, d as int) == rescale(x as int, from_p as nat, to_p as nat));
        }
        r
    }
}

/// Decodes `s` at `from_precision` and re-encodes the same coordinates at
/// `to_precision`; a malformed or out-of-range input yields the empty string
/// rather than an error.
pub fn reencode(s: &str, from_precision: u32, to_precision: u32) -> (r: String)
    requires
        from_precision <= 9,
        to_precision <= 9,
    ensures
        r@ == reencode_spec(s@, from_precision as nat, to_precision as nat),
        decode_coords(s@, 0, 0, from_precision as nat) is None ==> r@ == Seq::<char>::empty(),
{
    let fp = from_precision;
    let tp = to_precision;
    match decode_polyline_text(s, fp) {
        None => String::new(),
        Some(cs) => {
            proof {
                lemma_decode_coords_ok(s@, 0, 0, fp as nat);
            }
            let ghost cv = coords_view(cs@);
            let ghost rv = rescale_coords(cv, fp as nat, tp as nat);
            let n = cs.len();
            let mut rs: Vec<(i64, i64)> = Vec::new();
            let mut idx: usize = 0;
            proof {
                assert(coords_view(rs@) =~= rv.take(0));
            }
            while idx < n
                invariant
                    idx <= n,
                    n == cs@.len(),
                    fp == from_precision <= 9,
                    tp == to_precision <= 9,
                    cv == coords_view(cs@),
                    rv == rescale_coords(cv, fp as nat, tp as nat),
                    coords_ok(cv, fp as nat),
                    coords_view(rs@) == rv.take(idx as int),
                decreases n - idx,
            {
                let (clat, clng) = cs[idx];
                proof {
                    assert(lat_ok(cv[idx as int].0, fp as nat) && lng_ok(
                        cv[idx as int].1,
                        fp as nat,
                    ));
                    lemma_pow10_pos(fp as nat);
                    lemma_rescale_range(clat as int, 90, fp as nat, tp as nat);
                    lemma_rescale_range(clng as int, 180, fp as nat, tp as nat);
                    lemma_pow10_le9_bound(tp as nat);
                }
                let rlat = rescale_exec(clat, fp, tp);
                let rlng = rescale_exec(clng, fp, tp);
                let ghost rs0 = rs@;
                rs.push((rlat, rlng));
                proof {
                    assert(coords_view(rs@) =~= coords_view(rs0) + seq![
                        (rlat as int, rlng as int),
                    ]);
                    assert(rv[idx as int] == (rescale(cv[idx as int].0, fp as nat, tp as nat),
                    rescale(cv[idx as int].1, fp as nat, tp as nat)));
                    assert(rv.take(idx as int + 1) =~= rv.take(idx as int) + seq![
                        rv[idx as int],
                    ]);
                }
                idx = idx + 1;
            }
            proof {
                assert(rv.take(n as int) =~= rv);
                assert(coords_ok(rv, tp as nat)) by {
                    assert forall|i: int| 0 <= i < rv.len() implies lat_ok(
                        #[trigger] rv[i].0,
                        tp as nat,
                    ) && lng_ok(rv[i].1, tp as nat) by {
                        assert(lat_ok(cv[i].0, fp as nat) && lng_ok(cv[i].1, fp as nat));
                        lemma_rescale_range(cv[i].0, 90, fp as nat, tp as nat);
                        lemma_rescale_range(cv[i].1, 180, fp as nat, tp as nat);
                    }
                }
            }
            match encode_polyline_scaled(&rs, tp) {
                Some(t) => t,
                None => {
                    proof {
                        assert(false);
                    }
                    String::new()
                },
            }
        },
    }
}

/// Transcodes a provider's route geometry from 6 to 5 decimal digits of
/// coordinate precision, the precision downstream consumers expect; unusable
/// geometry becomes the empty string.
pub fn decode_geometry(g: &str) -> (r: String)
    ensures
        r@ == reencode_spec(g@, 6, 5),
        decode_coords(g@, 0, 0, 6) is None ==> r@ == Seq::<char>::empty(),
{
    reencode(g, 6, 5)
}

} // verus!
