//! Straight-line geodesic distance along a boundary, the plausibility
//! reference of the smart policy.  The per-pair ellipsoidal measurement is
//! floating-point work done outside the library; what is verified here is
//! the accumulation: a saturating sum over the consecutive-pair
//! measurements, a pair whose iteration failed to converge contributing
//! zero (a logged, non-fatal degradation).  A boundary of fewer than two
//! waypoints has no consecutive pairs, so its distance is exactly zero.

use vstd::prelude::*;

verus! {

/// Saturating 64-bit sum.
pub open spec fn sat_add_u64(a: int, b: int) -> int {
    if a + b > 0xffffffffffffffff {
        0xffffffffffffffff
    } else {
        a + b
    }
}

/// Total distance in millimeters: the saturating sum of the pairwise
/// measurements, a failed measurement counting zero.
pub open spec fn spec_total_mm(ps: Seq<Option<u64>>) -> int
    decreases ps.len(),
{
    if ps.len() == 0 {
        0
    } else {
        sat_add_u64(
            match ps[0] {
                Some(d) => d as int,
                None => 0,
            },
            spec_total_mm(ps.drop_first()),
        )
    }
}

/// Accumulates the consecutive-pair distance measurements of a boundary;
/// with no pairs — a boundary of fewer than two waypoints — the total is
/// exactly zero.
pub fn total_distance_mm(pairs: &Vec<Option<u64>>) -> (r: u64)
    ensures
        r as int == spec_total_mm(pairs@),
        pairs@.len() == 0 ==> r == 0,
{
    let n = pairs.len();
    let mut total: u64 = 0;
    let mut i: usize = n;
    proof {
        assert(pairs@.skip(n as int).len() == 0);
    }
    while i > 0
        invariant
            i <= n,
            n == pairs@.len(),
            total as int == spec_total_mm(pairs@.skip(i as int)),
        decreases i,
    {
        let d = match pairs[i - 1] {
            Some(d) => d,
            None => 0,
        };
        let prev = total;
        total = if total <= u64::MAX - d {
            total + d
        } else {
            u64::MAX
        };
        proof {
            let tail = pairs@.skip(i as int);
            let cur = pairs@.skip(i as int - 1);
            assert(cur.drop_first() =~= tail);
            assert(cur[0] == pairs@[i as int - 1]);
            assert(total as int == sat_add_u64(
                match cur[0] {
                    Some(d) => d as int,
                    None => 0,
                },
                prev as int,
            ));
        }
        i = i - 1;
    }
    proof {
        assert(pairs@.skip(0) =~= pairs@);
    }
    total
}

} // verus!
