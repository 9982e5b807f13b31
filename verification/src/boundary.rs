//! Boundaries: the `;`-delimited waypoint list of a request, and the
//! formatted forms the adapters need (decimal-degree text for the
//! CommercialB request URL).

use vstd::prelude::*;
use vstd::string::StrSliceExecFns;
use vstd::string::StringExecFns;

use crate::codec::pow10;
use crate::coords::find_char;
use crate::coords::lemma_find_char_bounds;
use crate::coords::parse_num_e6;
use crate::coords::parse_num_range;
use crate::model::Waypoint;

verus! {

/// The pieces of `s` between occurrences of `sep`; splitting the empty
/// string gives one empty piece, as the request format expects.
pub open spec fn split_at_char(s: Seq<char>, sep: char) -> Seq<Seq<char>>
    decreases s.len(),
{
    let i = find_char(s, sep);
    if i == -1 {
        seq![s]
    } else {
        proof {
            lemma_find_char_bounds(s, sep);
        }
        seq![s.take(i)] + split_at_char(s.skip(i + 1), sep)
    }
}

/// One `lat,lng` token as a micro-degree pair; a missing longitude side —
/// no comma at all — defaults to zero like any other malformed side.
pub open spec fn parse_token(t: Seq<char>) -> (int, int) {
    let i = find_char(t, ',');
    if i == -1 {
        (parse_num_e6(t), 0)
    } else {
        (parse_num_e6(t.take(i)), parse_num_e6(t.skip(i + 1)))
    }
}

/// The waypoints a boundary string denotes, in order.
pub open spec fn boundary_waypoints(s: Seq<char>) -> Seq<(int, int)> {
    split_at_char(s, ';').map_values(|t: Seq<char>| parse_token(t))
}

/// The view of an executable waypoint list.
pub open spec fn waypoints_view(ws: Seq<Waypoint>) -> Seq<(int, int)> {
    ws.map_values(|w: Waypoint| (w.lat_e6 as int, w.lng_e6 as int))
}

/// Parses the token between `from` and `to` into a waypoint.
fn parse_token_range(s: &str, from: usize, to: usize) -> (r: Waypoint)
    requires
        from <= to <= s@.len(),
    ensures
        (r.lat_e6 as int, r.lng_e6 as int) == parse_token(s@.subrange(from as int, to as int)),
{
    let ghost t = s@.subrange(from as int, to as int);
    match crate::coords::find_char_in(s, from, to, ',') {
        Some(j) => {
            proof {
                assert(t.take(find_char(t, ',')) =~= s@.subrange(from as int, j as int));
                assert(t.skip(find_char(t, ',') + 1) =~= s@.subrange(j as int + 1, to as int));
            }
            let lat = parse_num_range(s, from, j);
            let lng = parse_num_range(s, j + 1, to);
            Waypoint { lat_e6: lat, lng_e6: lng }
        },
        None => {
            let lat = parse_num_range(s, from, to);
            Waypoint { lat_e6: lat, lng_e6: 0 }
        },
    }
}

/// Parses a whole boundary string into its waypoints; every token yields one
/// waypoint, malformed sides coming out as zero.
pub fn get_location(boundary: &str) -> (r: Vec<Waypoint>)
    ensures
        waypoints_view(r@) == boundary_waypoints(boundary@),
        r@.len() >= 1,
{
    let n = boundary.unicode_len();
    let mut acc: Vec<Waypoint> = Vec::new();
    let mut start: usize = 0;
    let ghost whole = boundary@;
    proof {
        assert(whole.subrange(0, n as int) =~= whole);
        assert(waypoints_view(acc@) + split_at_char(whole, ';').map_values(
            |t: Seq<char>| parse_token(t),
        ) =~= boundary_waypoints(whole));
    }
    loop
        invariant
            start <= n,
            n == whole.len(),
            whole == boundary@,
            boundary_waypoints(whole) == waypoints_view(acc@) + split_at_char(
                whole.subrange(start as int, n as int),
                ';',
            ).map_values(|t: Seq<char>| parse_token(t)),
        decreases n - start,
    {
        let ghost rem = whole.subrange(start as int, n as int);
        match crate::coords::find_char_in(boundary, start, n, ';') {
            Some(j) => {
                let w = parse_token_range(boundary, start, j);
                let ghost acc0 = acc@;
                acc.push(w);
                proof {
                    assert(rem.take(find_char(rem, ';')) =~= whole.subrange(
                        start as int,
                        j as int,
                    ));
                    assert(rem.skip(find_char(rem, ';') + 1) =~= whole.subrange(
                        j as int + 1,
                        n as int,
                    ));
                    let rem2 = whole.subrange(j as int + 1, n as int);
                    let f = |t: Seq<char>| parse_token(t);
                    assert(split_at_char(rem, ';').map_values(f) =~= seq![
                        parse_token(whole.subrange(start as int, j as int)),
                    ] + split_at_char(rem2, ';').map_values(f));
                    assert(waypoints_view(acc@) =~= waypoints_view(acc0) + seq![
                        (w.lat_e6 as int, w.lng_e6 as int),
                    ]);
                    assert(waypoints_view(acc0) + split_at_char(rem, ';').map_values(f)
                        =~= waypoints_view(acc@) + split_at_char(rem2, ';').map_values(f));
                }
                start = j + 1;
            },
            None => {
                let w = parse_token_range(boundary, start, n);
                let ghost acc0 = acc@;
                acc.push(w);
                proof {
                    let f = |t: Seq<char>| parse_token(t);
                    assert(split_at_char(rem, ';').map_values(f) =~= seq![parse_token(rem)]);
                    assert(waypoints_view(acc@) =~= waypoints_view(acc0) + seq![
                        (w.lat_e6 as int, w.lng_e6 as int),
                    ]);
                    assert(waypoints_view(acc@) =~= boundary_waypoints(whole));
                }
                return acc;
            },
        }
    }
}

/// The character of one decimal digit.
pub open spec fn digit_char(d: int) -> char {
    (48 + d) as char
}

/// Decimal digits of a non-negative number, most significant first.
pub open spec fn dec_str(n: int) -> Seq<char>
    decreases n,
{
    if n < 10 {
        seq![digit_char(if n >= 0 { n } else { 0 })]
    } else {
        dec_str(n / 10) + seq![digit_char(n % 10)]
    }
}

/// Fraction digits padded on the left to six places.
pub open spec fn pad6(s: Seq<char>) -> Seq<char> {
    if s.len() >= 6 {
        s
    } else {
        Seq::new((6 - s.len()) as nat, |i: int| '0') + s
    }
}

/// Trailing zeros removed, as a shortest decimal rendering drops them.
pub open spec fn trim_zeros(s: Seq<char>) -> Seq<char>
    decreases s.len(),
{
    if s.len() == 0 {
        s
    } else if s.last() == '0' {
        trim_zeros(s.drop_last())
    } else {
        s
    }
}

/// A micro-degree value rendered as decimal degrees: optional sign, integer
/// part, and the non-zero fraction with its trailing zeros dropped.
pub open spec fn fmt_e6(x: int) -> Seq<char> {
    let a = if x >= 0 {
        x
    } else {
        -x
    };
    let sign: Seq<char> = if x < 0 {
        seq!['-']
    } else {
        Seq::empty()
    };
    let frac: Seq<char> = if a % 1000000 == 0 {
        Seq::empty()
    } else {
        seq!['.'] + trim_zeros(pad6(dec_str(a % 1000000)))
    };
    sign + dec_str(a / 1000000) + frac
}

/// A waypoint as its `lat,lng` request text.
pub open spec fn fmt_pair(p: (int, int)) -> Seq<char> {
    fmt_e6(p.0) + ","@ + fmt_e6(p.1)
}

/// Interior waypoints joined by `|`.
pub open spec fn join_pairs(ps: Seq<(int, int)>) -> Seq<char>
    decreases ps.len(),
{
    if ps.len() == 0 {
        Seq::empty()
    } else if ps.len() == 1 {
        fmt_pair(ps[0])
    } else {
        fmt_pair(ps[0]) + "|"@ + join_pairs(ps.drop_first())
    }
}

pub proof fn lemma_join_snoc(ps: Seq<(int, int)>, p: (int, int))
    ensures
        join_pairs(ps.push(p)) == if ps.len() == 0 {
            fmt_pair(p)
        } else {
            join_pairs(ps) + "|"@ + fmt_pair(p)
        },
    decreases ps.len(),
{
    let w = ps.push(p);
    if ps.len() == 0 {
        assert(w.len() == 1 && w[0] == p);
    } else {
        assert(w[0] == ps[0]);
        assert(w.drop_first() =~= ps.drop_first().push(p));
        lemma_join_snoc(ps.drop_first(), p);
        if ps.len() == 1 {
            assert(ps.drop_first().len() == 0);
            assert(join_pairs(w) == fmt_pair(ps[0]) + "|"@ + fmt_pair(p));
        } else {
            assert(join_pairs(w) == fmt_pair(ps[0]) + "|"@ + (join_pairs(ps.drop_first()) + "|"@
                + fmt_pair(p)));
            assert(fmt_pair(ps[0]) + "|"@ + (join_pairs(ps.drop_first()) + "|"@ + fmt_pair(p))
                =~= (fmt_pair(ps[0]) + "|"@ + join_pairs(ps.drop_first())) + "|"@ + fmt_pair(p));
        }
    }
}

/// The CommercialB request URL: base, origin, destination when the boundary
/// has at least two waypoints, the interior waypoints joined by `|`, and the
/// credential.
pub open spec fn google_url_spec(url: Seq<char>, key: Seq<char>, ws: Seq<(int, int)>) -> Seq<char>
    recommends
        ws.len() >= 1,
{
    let dest: Seq<char> = if ws.len() >= 2 {
        "&destination="@ + fmt_pair(ws.last())
    } else {
        Seq::empty()
    };
    let mids: Seq<(int, int)> = if ws.len() >= 2 {
        ws.subrange(1, ws.len() - 1)
    } else {
        Seq::empty()
    };
    url + "?origin="@ + fmt_pair(ws[0]) + dest + "&waypoints="@ + join_pairs(mids) + "&key="@
        + key
}

pub proof fn lemma_dec_str_len(n: int, k: nat)
    requires
        0 <= n < pow10(k),
        1 <= k,
    ensures
        1 <= dec_str(n).len() <= k,
    decreases n,
{
    if n >= 10 {
        assert(pow10(k) == 10 * pow10((k - 1) as nat));
        assert(n / 10 < pow10((k - 1) as nat)) by (nonlinear_arith)
            requires
                n < 10 * pow10((k - 1) as nat),
                0 <= n,
        ;
        lemma_dec_str_len(n / 10, (k - 1) as nat);
    }
}

/// Appends the decimal digits of `n`.
fn push_dec(n: u64, out: &mut Vec<char>)
    ensures
        final(out)@ == old(out)@ + dec_str(n as int),
    decreases n,
{
    if n < 10 {
        out.push(((48 + n) as u8) as char);
        proof {
            assert(final(out)@ =~= old(out)@ + dec_str(n as int));
        }
    } else {
        push_dec(n / 10, out);
        out.push(((48 + (n % 10)) as u8) as char);
        proof {
            assert(final(out)@ =~= old(out)@ + dec_str(n as int));
        }
    }
}

/// Renders a micro-degree value as decimal degrees.
pub fn fmt_e6_string(x: i64) -> (r: String)
    requires
        -1000000000000000000 <= x <= 1000000000000000000,
    ensures
        r@ == fmt_e6(x as int),
{
    let mut out: Vec<char> = Vec::new();
    let a: u64 = if x >= 0 {
        x as u64
    } else {
        (-x) as u64
    };
    if x < 0 {
        out.push('-');
    }
    push_dec(a / 1000000, &mut out);
    let fp = a % 1000000;
    if fp != 0 {
        out.push('.');
        let mut frac: Vec<char> = Vec::new();
        push_dec(fp, &mut frac);
        let ghost plain = frac@;
        proof {
            assert(pow10(6) == 1000000) by {
                reveal_with_fuel(pow10, 7);
            }
            lemma_dec_str_len(fp as int, 6);
        }
        let mut padded: Vec<char> = Vec::new();
        let flen = frac.len();
        let mut z: usize = 0;
        while z < 6 - flen
            invariant
                flen == plain.len() <= 6,
                z <= 6 - flen,
                frac@ == plain,
                padded@ =~= Seq::new(z as nat, |i: int| '0'),
            decreases 6 - flen - z,
        {
            padded.push('0');
            proof {
                assert(padded@ =~= Seq::new(z as nat + 1, |i: int| '0'));
            }
            z = z + 1;
        }
        padded.append(&mut frac);
        proof {
            assert(padded@ =~= pad6(plain));
        }
        let ghost padded0 = padded@;
        while padded.len() > 0 && padded[padded.len() - 1] == '0'
            invariant
                trim_zeros(padded@) == trim_zeros(padded0),
            decreases padded.len(),
        {
            padded.pop();
        }
        proof {
            assert(trim_zeros(padded@) == padded@);
            assert(padded@ == trim_zeros(pad6(dec_str(fp as int))));
        }
        let mut k: usize = 0;
        let pn = padded.len();
        let ghost out_mid = out@;
        while k < pn
            invariant
                k <= pn,
                pn == padded@.len(),
                out@ =~= out_mid + padded@.take(k as int),
            decreases pn - k,
        {
            out.push(padded[k]);
            proof {
                assert(padded@.take(k as int + 1) =~= padded@.take(k as int) + seq![
                    padded@[k as int],
                ]);
            }
            k = k + 1;
        }
        proof {
            assert(padded@.take(pn as int) =~= padded@);
        }
    }
    proof {
        assert(out@ =~= fmt_e6(x as int));
    }
    crate::codec::chars_to_string(out)
}

/// A boundary's parsed waypoints all fit comfortably in micro-degrees.
pub proof fn lemma_boundary_waypoint_bounds(s: Seq<char>, k: int)
    requires
        0 <= k < boundary_waypoints(s).len(),
    ensures
        -1000000000000000000 < boundary_waypoints(s)[k].0 < 1000000000000000000,
        -1000000000000000000 < boundary_waypoints(s)[k].1 < 1000000000000000000,
{
    let toks = split_at_char(s, ';');
    assert(boundary_waypoints(s)[k] == parse_token(toks[k]));
    let t = toks[k];
    crate::coords::lemma_parse_num_bound(t);
    let i = find_char(t, ',');
    if i != -1 {
        lemma_find_char_bounds(t, ',');
        crate::coords::lemma_parse_num_bound(t.take(i));
        crate::coords::lemma_parse_num_bound(t.skip(i + 1));
    }
}

/// Appends the `lat,lng` text of one waypoint.
fn append_pair(w: &Waypoint, out: &mut String)
    requires
        -1000000000000000000 <= w.lat_e6 <= 1000000000000000000,
        -1000000000000000000 <= w.lng_e6 <= 1000000000000000000,
    ensures
        final(out)@ == old(out)@ + fmt_pair((w.lat_e6 as int, w.lng_e6 as int)),
{
    let s_lat = fmt_e6_string(w.lat_e6);
    out.append(s_lat.as_str());
    out.append(",");
    let s_lng = fmt_e6_string(w.lng_e6);
    out.append(s_lng.as_str());
}

/// Builds the CommercialB request URL from the base URL, the credential and
/// the boundary: origin, destination (with at least two waypoints), interior
/// waypoints joined by `|`, and the key.
pub fn build_google_url(url: &str, api_key: &str, boundary: &str) -> (r: String)
    ensures
        r@ == google_url_spec(url@, api_key@, boundary_waypoints(boundary@)),
{
    let ws = get_location(boundary);
    let ghost wv = waypoints_view(ws@);
    let n = ws.len();
    let mut out = String::from_str(url);
    out.append("?origin=");
    proof {
        lemma_boundary_waypoint_bounds(boundary@, 0);
    }
    append_pair(&ws[0], &mut out);
    if n >= 2 {
        out.append("&destination=");
        proof {
            lemma_boundary_waypoint_bounds(boundary@, n as int - 1);
        }
        append_pair(&ws[n - 1], &mut out);
        proof {
            assert(wv.last() == (ws@[n - 1].lat_e6 as int, ws@[n - 1].lng_e6 as int));
        }
    }
    out.append("&waypoints=");
    let ghost mids: Seq<(int, int)> = if wv.len() >= 2 {
        wv.subrange(1, wv.len() - 1)
    } else {
        Seq::empty()
    };
    let ghost out_mid = out@;
    if n >= 2 {
        let mut k: usize = 1;
        while k < n - 1
            invariant
                1 <= k <= n - 1,
                n == ws@.len(),
                2 <= n,
                wv == waypoints_view(ws@),
                wv == boundary_waypoints(boundary@),
                n == wv.len(),
                mids == wv.subrange(1, wv.len() - 1),
                out@ == out_mid + join_pairs(mids.take(k as int - 1)),
            decreases n - k,
        {
            if k > 1 {
                out.append("|");
            }
            proof {
                lemma_boundary_waypoint_bounds(boundary@, k as int);
            }
            append_pair(&ws[k], &mut out);
            proof {
                let prefix = mids.take(k as int - 1);
                assert(mids.take(k as int) =~= prefix.push(mids[k as int - 1]));
                assert(mids[k as int - 1] == (ws@[k as int].lat_e6 as int, ws@[k as int].lng_e6
                    as int));
                lemma_join_snoc(prefix, mids[k as int - 1]);
                if k == 1 {
                    assert(prefix.len() == 0);
                    assert(out@ =~= out_mid + join_pairs(mids.take(k as int)));
                } else {
                    assert(out@ =~= out_mid + join_pairs(mids.take(k as int)));
                }
            }
            k = k + 1;
        }
        proof {
            assert(mids.take(n as int - 2) =~= mids);
        }
    } else {
        proof {
            assert(join_pairs(mids) =~= Seq::<char>::empty());
            assert(out@ =~= out_mid + join_pairs(mids));
        }
    }
    out.append("&key=");
    out.append(api_key);
    proof {
        assert(out@ =~= google_url_spec(url@, api_key@, boundary_waypoints(boundary@)));
    }
    out
}

} // verus!
