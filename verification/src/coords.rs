//! Parsing and formatting of coordinates in fixed-point micro-degrees.
//!
//! A request supplies its waypoints as a `;`-delimited sequence of `lat,lng`
//! tokens.  Each side of a token is a plain decimal number (optional sign,
//! digits, optional fraction); a malformed side parses to zero rather than
//! failing, a documented tolerance of the request format.

use vstd::prelude::*;
use vstd::string::StrSliceExecFns;

use crate::codec::pow10;

verus! {

pub open spec fn is_digit(c: char) -> bool {
    48 <= c as int <= 57
}

pub open spec fn digit_val(c: char) -> int {
    c as int - 48
}

pub open spec fn all_digits(s: Seq<char>) -> bool {
    forall|i: int| 0 <= i < s.len() ==> is_digit(#[trigger] s[i])
}

/// The value of a digit string, most significant first.
pub open spec fn digits_val(s: Seq<char>) -> int
    decreases s.len(),
{
    if s.len() == 0 {
        0
    } else {
        digits_val(s.drop_last()) * 10 + digit_val(s.last())
    }
}

pub proof fn lemma_digits_val_bound(s: Seq<char>)
    requires
        all_digits(s),
    ensures
        0 <= digits_val(s) < pow10(s.len()),
    decreases s.len(),
{
    if s.len() > 0 {
        assert(all_digits(s.drop_last())) by {
            assert(forall|i: int| 0 <= i < s.len() - 1 ==> s.drop_last()[i] == s[i]);
        }
        lemma_digits_val_bound(s.drop_last());
        assert(is_digit(s.last()));
    }
}

/// The first index of `c` in `s`, or `-1` when it does not occur.
pub open spec fn find_char(s: Seq<char>, c: char) -> int
    decreases s.len(),
{
    if s.len() == 0 {
        -1
    } else if s[0] == c {
        0
    } else {
        let r = find_char(s.drop_first(), c);
        if r == -1 {
            -1
        } else {
            r + 1
        }
    }
}

pub proof fn lemma_find_char_none(s: Seq<char>, c: char)
    requires
        forall|i: int| 0 <= i < s.len() ==> (#[trigger] s[i]) != c,
    ensures
        find_char(s, c) == -1,
    decreases s.len(),
{
    if s.len() > 0 {
        assert(forall|i: int| 0 <= i < s.len() - 1 ==> (#[trigger] s.drop_first()[i]) == s[i + 1]);
        lemma_find_char_none(s.drop_first(), c);
    }
}

pub proof fn lemma_find_char_at(s: Seq<char>, c: char, j: int)
    requires
        0 <= j < s.len(),
        s[j] == c,
        forall|i: int| 0 <= i < j ==> (#[trigger] s[i]) != c,
    ensures
        find_char(s, c) == j,
    decreases s.len(),
{
    if j > 0 {
        assert(forall|i: int| 0 <= i < s.len() - 1 ==> (#[trigger] s.drop_first()[i]) == s[i + 1]);
        lemma_find_char_at(s.drop_first(), c, j - 1);
    }
}

/// Micro-degree value of the first six fraction digits, zero-padded on the
/// right when fewer are given; digits past the sixth are ignored.
pub open spec fn frac_e6(s: Seq<char>) -> int {
    if s.len() >= 6 {
        digits_val(s.take(6))
    } else {
        digits_val(s) * pow10((6 - s.len()) as nat)
    }
}

/// One coordinate number parsed to micro-degrees: optional `-`, one or more
/// digits, optionally `.` and one or more digits.  Anything else — and an
/// integer part past twelve digits, which micro-degrees cannot hold — parses
/// to zero.
pub open spec fn parse_num_e6(s: Seq<char>) -> int {
    let negative = s.len() > 0 && s[0] == '-';
    let body = if negative {
        s.drop_first()
    } else {
        s
    };
    let sign: int = if negative {
        -1
    } else {
        1
    };
    let dot = find_char(body, '.');
    if dot == -1 {
        if body.len() == 0 || body.len() > 12 || !all_digits(body) {
            0
        } else {
            sign * digits_val(body) * 1000000
        }
    } else {
        let ip = body.take(dot);
        let fp = body.skip(dot + 1);
        if ip.len() == 0 || ip.len() > 12 || fp.len() == 0 || !all_digits(ip) || !all_digits(fp) {
            0
        } else {
            sign * (digits_val(ip) * 1000000 + frac_e6(fp))
        }
    }
}

/// Every parsed coordinate stays well inside the span of 64-bit
/// micro-degrees.
pub proof fn lemma_parse_num_bound(s: Seq<char>)
    ensures
        -1000000000000000000 < parse_num_e6(s) < 1000000000000000000,
{
    let negative = s.len() > 0 && s[0] == '-';
    let body = if negative {
        s.drop_first()
    } else {
        s
    };
    let dot = find_char(body, '.');
    assert(pow10(12) == 1000000000000) by {
        reveal_with_fuel(pow10, 13);
    }
    if dot == -1 {
        if !(body.len() == 0 || body.len() > 12 || !all_digits(body)) {
            lemma_digits_val_bound(body);
            crate::codec::lemma_pow10_mono(body.len(), 12);
        }
    } else {
        lemma_find_char_bounds(body, '.');
        let ip = body.take(dot);
        let fp = body.skip(dot + 1);
        if !(ip.len() == 0 || ip.len() > 12 || fp.len() == 0 || !all_digits(ip) || !all_digits(
            fp,
        )) {
            lemma_digits_val_bound(ip);
            crate::codec::lemma_pow10_mono(ip.len(), 12);
            if fp.len() >= 6 {
                assert(all_digits(fp.take(6))) by {
                    assert(forall|i: int| 0 <= i < 6 ==> fp.take(6)[i] == fp[i]);
                }
                lemma_digits_val_bound(fp.take(6));
                assert(pow10(6) == 1000000) by {
                    reveal_with_fuel(pow10, 7);
                }
            } else {
                lemma_digits_val_bound(fp);
                crate::codec::lemma_pow10_mono(fp.len(), 6);
                assert(pow10(6) == 1000000) by {
                    reveal_with_fuel(pow10, 7);
                }
                crate::codec::lemma_pow10_mono((6 - fp.len()) as nat, 6);
                crate::codec::lemma_pow10_add(fp.len(), (6 - fp.len()) as nat);
                crate::codec::lemma_pow10_pos((6 - fp.len()) as nat);
                assert(digits_val(fp) * pow10((6 - fp.len()) as nat) < 1000000) by (
                nonlinear_arith)
                    requires
                        0 <= digits_val(fp) < pow10(fp.len()),
                        pow10(fp.len()) * pow10((6 - fp.len()) as nat) == pow10(6),
                        pow10(6) == 1000000,
                        pow10((6 - fp.len()) as nat) >= 1,
                ;
            }
        }
    }
}

pub proof fn lemma_find_char_bounds(s: Seq<char>, c: char)
    ensures
        find_char(s, c) == -1 || (0 <= find_char(s, c) < s.len() && s[find_char(s, c)] == c),
    decreases s.len(),
{
    if s.len() > 0 && s[0] != c {
        lemma_find_char_bounds(s.drop_first(), c);
    }
}

/// Checks that `s` holds only digits between `from` and `to`.
fn all_digits_range(s: &str, from: usize, to: usize) -> (r: bool)
    requires
        from <= to <= s@.len(),
    ensures
        r == all_digits(s@.subrange(from as int, to as int)),
{
    let mut i = from;
    while i < to
        invariant
            from <= i <= to <= s@.len(),
            forall|k: int| from <= k < i ==> is_digit(#[trigger] s@[k]),
        decreases to - i,
    {
        let c = s.get_char(i);
        let cv = c as u32;
        if cv < 48 || cv > 57 {
            proof {
                assert(s@.subrange(from as int, to as int)[i - from] == s@[i as int]);
            }
            return false;
        }
        i = i + 1;
    }
    proof {
        assert forall|k: int| 0 <= k < to - from implies is_digit(
            #[trigger] s@.subrange(from as int, to as int)[k],
        ) by {
            assert(s@.subrange(from as int, to as int)[k] == s@[from + k]);
        }
    }
    true
}

/// Value of the digit run between `from` and `to` (at most twelve digits).
fn digits_value(s: &str, from: usize, to: usize) -> (r: u64)
    requires
        from <= to <= s@.len(),
        to - from <= 12,
        all_digits(s@.subrange(from as int, to as int)),
    ensures
        r as int == digits_val(s@.subrange(from as int, to as int)),
{
    let ghost whole = s@.subrange(from as int, to as int);
    let mut acc: u64 = 0;
    let mut i = from;
    proof {
        assert(s@.subrange(from as int, from as int) =~= Seq::<char>::empty());
    }
    while i < to
        invariant
            from <= i <= to <= s@.len(),
            to - from <= 12,
            whole == s@.subrange(from as int, to as int),
            all_digits(whole),
            acc as int == digits_val(s@.subrange(from as int, i as int)),
            (acc as int) < pow10((i - from) as nat),
        decreases to - i,
    {
        let c = s.get_char(i);
        proof {
            assert(whole[i - from] == s@[i as int]);
            assert(is_digit(s@[i as int]));
            crate::codec::lemma_pow10_mono((i - from) as nat, 11);
            assert(pow10(11) == 100000000000) by {
                reveal_with_fuel(pow10, 12);
            }
            assert(s@.subrange(from as int, i as int + 1).drop_last() =~= s@.subrange(
                from as int,
                i as int,
            ));
            assert(s@.subrange(from as int, i as int + 1).last() == s@[i as int]);
        }
        let d = (c as u32) - 48;
        acc = acc * 10 + (d as u64);
        i = i + 1;
    }
    proof {
        assert(s@.subrange(from as int, i as int) =~= whole);
    }
    acc
}

/// The first position of `c` between `from` and `to`.
pub fn find_char_in(s: &str, from: usize, to: usize, c: char) -> (r: Option<usize>)
    requires
        from <= to <= s@.len(),
    ensures
        match r {
            Some(j) => from <= j < to && find_char(s@.subrange(from as int, to as int), c) == j
                - from,
            None => find_char(s@.subrange(from as int, to as int), c) == -1,
        },
{
    let ghost whole = s@.subrange(from as int, to as int);
    let mut i = from;
    while i < to
        invariant
            from <= i <= to <= s@.len(),
            whole == s@.subrange(from as int, to as int),
            forall|k: int| from <= k < i ==> (#[trigger] s@[k]) != c,
        decreases to - i,
    {
        if s.get_char(i) == c {
            proof {
                assert(whole[i - from] == s@[i as int]);
                assert(forall|k: int| 0 <= k < i - from ==> (#[trigger] whole[k]) == s@[from + k]);
                lemma_find_char_at(whole, c, i - from);
            }
            return Some(i);
        }
        i = i + 1;
    }
    proof {
        assert(forall|k: int| 0 <= k < whole.len() ==> (#[trigger] whole[k]) == s@[from + k]);
        lemma_find_char_none(whole, c);
    }
    None
}

/// Parses the coordinate number between `from` and `to` into micro-degrees;
/// zero when it is not a plain decimal number.
#[verifier::rlimit(80)]
pub fn parse_num_range(s: &str, from: usize, to: usize) -> (r: i64)
    requires
        from <= to <= s@.len(),
    ensures
        r as int == parse_num_e6(s@.subrange(from as int, to as int)),
{
    let ghost whole = s@.subrange(from as int, to as int);
    proof {
        lemma_parse_num_bound(whole);
    }
    let hyphen = from < to && (s.get_char(from) as u32) == 45;
    proof {
        if from < to {
            assert(whole[0] == s@[from as int]);
        }
    }
    let negative = hyphen;
    let bstart = if negative {
        from + 1
    } else {
        from
    };
    let ghost body = s@.subrange(bstart as int, to as int);
    proof {
        if negative {
            assert(whole.drop_first() =~= body);
        } else {
            assert(whole =~= body);
        }
    }
    let dot = find_char_in(s, bstart, to, '.');
    let magnitude: u64 = match dot {
        None => {
            let blen = to - bstart;
            if blen == 0 || blen > 12 || !all_digits_range(s, bstart, to) {
                0
            } else {
                proof {
                    lemma_digits_val_bound(body);
                    crate::codec::lemma_pow10_mono(body.len(), 12);
                    assert(pow10(12) == 1000000000000) by {
                        reveal_with_fuel(pow10, 13);
                    }
                }
                digits_value(s, bstart, to) * 1000000
            }
        },
        Some(j) => {
            let ghost ip = body.take(find_char(body, '.'));
            let ghost fp = body.skip(find_char(body, '.') + 1);
            proof {
                assert(ip =~= s@.subrange(bstart as int, j as int));
                assert(fp =~= s@.subrange(j as int + 1, to as int));
            }
            let iplen = j - bstart;
            let fplen = to - (j + 1);
            if iplen == 0 || iplen > 12 || fplen == 0 || !all_digits_range(s, bstart, j)
                || !all_digits_range(s, j + 1, to) {
                0
            } else {
                proof {
                    lemma_digits_val_bound(ip);
                    crate::codec::lemma_pow10_mono(ip.len(), 12);
                    assert(pow10(12) == 1000000000000) by {
                        reveal_with_fuel(pow10, 13);
                    }
                }
                let ipv = digits_value(s, bstart, j);
                let fpv: u64 = if fplen >= 6 {
                    proof {
                        assert(fp.take(6) =~= s@.subrange(j as int + 1, j as int + 7));
                        assert(all_digits(fp.take(6))) by {
                            assert(forall|i: int| 0 <= i < 6 ==> fp.take(6)[i] == fp[i]);
                        }
                        lemma_digits_val_bound(fp.take(6));
                        assert(pow10(6) == 1000000) by {
                            reveal_with_fuel(pow10, 7);
                        }
                    }
                    digits_value(s, j + 1, j + 1 + 6)
                } else {
                    proof {
                        lemma_digits_val_bound(fp);
                        assert(pow10(6) == 1000000) by {
                            reveal_with_fuel(pow10, 7);
                        }
                        crate::codec::lemma_pow10_le9_bound((6 - fp.len()) as nat);
                        crate::codec::lemma_pow10_add(fp.len(), (6 - fp.len()) as nat);
                        crate::codec::lemma_pow10_pos((6 - fp.len()) as nat);
                        assert(digits_val(fp) * pow10((6 - fp.len()) as nat) < 1000000) by (
                        nonlinear_arith)
                            requires
                                0 <= digits_val(fp) < pow10(fp.len()),
                                pow10(fp.len()) * pow10((6 - fp.len()) as nat) == pow10(6),
                                pow10(6) == 1000000,
                                pow10((6 - fp.len()) as nat) >= 1,
                        ;
                    }
                    let base = digits_value(s, j + 1, to);
                    base * crate::codec::pow10_u64((6 - fplen) as u32)
                };
                ipv * 1000000 + fpv
            }
        },
    };
    if negative {
        -(magnitude as i64)
    } else {
        magnitude as i64
    }
}

} // verus!
