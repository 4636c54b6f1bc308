//! The escape-time evaluator.
//!
//! For a point `c` of the plane the orbit `z ← z² + c` starts at zero; the
//! evaluator reports the first iteration at which the orbit leaves the
//! disk of radius two, or that it stayed inside for the whole budget.

use vstd::prelude::*;
use crate::fixed::Complex;
use crate::fixed::SCALE;
use crate::fixed::div_tz;
use crate::fixed::mul_div_tz;

verus! {

/// The orbit has left the disk of radius two: its squared norm, in raw
/// units, exceeds `4 * SCALE * SCALE`.
pub open spec fn escaped(z: (int, int)) -> bool {
    z.0 * z.0 + z.1 * z.1 > 4 * (SCALE as int) * (SCALE as int)
}

/// One step of the quadratic recurrence, `z² + c`, in fixed point.
pub open spec fn step(z: (int, int), c: (int, int)) -> (int, int) {
    (
        div_tz(z.0 * z.0, SCALE as int) - div_tz(z.1 * z.1, SCALE as int) + c.0,
        div_tz(2 * z.0 * z.1, SCALE as int) + c.1,
    )
}

/// The orbit of `c` after `n` steps, starting from zero.
pub open spec fn orbit(c: (int, int), n: nat) -> (int, int)
    decreases n,
{
    if n == 0 {
        (0int, 0int)
    } else {
        step(orbit(c, (n - 1) as nat), c)
    }
}

/// The least `j` in `[1, n]` with `escaped(orbit(c, j))`, if any.
pub open spec fn first_escape(c: (int, int), n: nat) -> Option<nat>
    decreases n,
{
    if n == 0 {
        None
    } else {
        match first_escape(c, (n - 1) as nat) {
            Some(j) => Some(j),
            None => if escaped(orbit(c, n)) {
                Some(n)
            } else {
                None
            },
        }
    }
}

/// The escape index the evaluator reports: `Some(i)` exactly when step
/// `i + 1` of the orbit is the first escaped one within the budget.
pub open spec fn spec_escape_time(c: (int, int), limit: nat) -> Option<nat> {
    match first_escape(c, limit) {
        Some(j) => Some((j - 1) as nat),
        None => None,
    }
}

/// Once found, the first escape does not change when the budget grows.
pub proof fn lemma_first_escape_mono(c: (int, int), n: nat, m: nat)
    requires
        n <= m,
        first_escape(c, n) is Some,
    ensures
        first_escape(c, m) == first_escape(c, n),
    decreases m,
{
    if m > n {
        lemma_first_escape_mono(c, n, (m - 1) as nat);
    }
}

/// What `first_escape` returns, spelled out: the reported step is escaped
/// and every earlier step is not; `None` means no step in the budget is.
pub proof fn lemma_first_escape_meaning(c: (int, int), n: nat)
    ensures
        match first_escape(c, n) {
            Some(j) => 1 <= j <= n && escaped(orbit(c, j)) && forall|k: nat|
                1 <= k < j ==> !escaped(#[trigger] orbit(c, k)),
            None => forall|k: nat| 1 <= k <= n ==> !escaped(#[trigger] orbit(c, k)),
        },
    decreases n,
{
    if n > 0 {
        lemma_first_escape_meaning(c, (n - 1) as nat);
    }
}

/// The escape-time evaluator. Iterates `z ← z² + c` from `z = 0` and
/// returns the index of the loop pass whose updated orbit first leaves
/// the disk of radius two, or `None` when the orbit stays inside for all
/// `limit` passes.
pub fn escape_time(c: Complex, limit: u32) -> (r: Option<u32>)
    requires
        c.in_range(),
    ensures
        match r {
            Some(i) => i < limit && spec_escape_time(c.s(), limit as nat) == Some(i as nat),
            None => spec_escape_time(c.s(), limit as nat) is None,
        },
{
    let mut zr: i64 = 0;
    let mut zi: i64 = 0;
    let mut i: u32 = 0;
    while i < limit
        invariant
            c.in_range(),
            i <= limit,
            (zr as int, zi as int) == orbit(c.s(), i as nat),
            zr * zr + zi * zi <= 4 * (SCALE as int) * (SCALE as int),
            first_escape(c.s(), i as nat) is None,
        decreases limit - i,
    {
        assert(-131072 <= zr <= 131072 && -131072 <= zi <= 131072) by (nonlinear_arith)
            requires
                zr * zr + zi * zi <= 17179869184,
        ;
        assert(zr * zr >= 0 && zi * zi >= 0 && -34359738368 <= 2 * zr * zi <= 34359738368)
            by (nonlinear_arith)
            requires
                -131072 <= zr <= 131072,
                -131072 <= zi <= 131072,
        ;
        let sq_r: i64 = mul_div_tz(zr, zr, 65536);
        let sq_i: i64 = mul_div_tz(zi, zi, 65536);
        proof {
            crate::fixed::lemma_div_tz_bound(zr * zr, 65536, 17179869184);
            crate::fixed::lemma_div_tz_bound(zi * zi, 65536, 17179869184);
            crate::fixed::lemma_div_tz_bound(2 * zr * zi, 65536, 34359738368);
        }
        let cross: i64 = mul_div_tz(2 * zr, zi, 65536);
        assert(cross == div_tz(2 * zr * zi, 65536)) by {
            assert((2 * zr) * zi == 2 * zr * zi) by (nonlinear_arith);
        }
        let nzr: i64 = sq_r - sq_i + c.re;
        let nzi: i64 = cross + c.im;
        proof {
            assert((nzr as int, nzi as int) == step(orbit(c.s(), i as nat), c.s()));
            assert((nzr as int, nzi as int) == orbit(c.s(), (i + 1) as nat));
        }
        assert(0 <= nzr * nzr <= 0x2000_0000_0000_0000 && 0 <= nzi * nzi
            <= 0x2000_0000_0000_0000) by (nonlinear_arith)
            requires
                -1074266112 <= nzr <= 1074266112,
                -1074266112 <= nzi <= 1074266112,
        ;
        if nzr * nzr + nzi * nzi > 4 * (65536i64 * 65536i64) {
            proof {
                assert(escaped(orbit(c.s(), (i + 1) as nat)));
                assert(first_escape(c.s(), (i + 1) as nat) == Some((i + 1) as nat));
                lemma_first_escape_mono(c.s(), (i + 1) as nat, limit as nat);
            }
            return Some(i);
        }
        zr = nzr;
        zi = nzi;
        proof {
            assert(first_escape(c.s(), (i + 1) as nat) is None);
        }
        i = i + 1;
    }
    None
}

/// A point already outside the disk of radius two escapes at the very
/// first step, so the reported index is `0`, strictly below any positive
/// budget.
pub proof fn lemma_far_point_escapes_immediately(c: (int, int), limit: nat)
    requires
        limit >= 1,
        escaped(c),
    ensures
        spec_escape_time(c, limit) == Some(0nat),
{
    assert(div_tz(0, SCALE as int) == 0);
    let z0 = orbit(c, 0);
    assert(z0.0 == 0 && z0.1 == 0);
    assert(z0.0 * z0.0 == 0 && z0.1 * z0.1 == 0 && 2 * z0.0 * z0.1 == 0) by (nonlinear_arith)
        requires
            z0.0 == 0,
            z0.1 == 0,
    ;
    assert(orbit(c, 1) == step(z0, c));
    assert(orbit(c, 1).0 == c.0 && orbit(c, 1).1 == c.1);
    assert(escaped(orbit(c, 1)));
    assert(first_escape(c, 0) is None);
    assert(first_escape(c, 1) == Some(1nat));
    lemma_first_escape_mono(c, 1, limit);
}

/// The orbit of the origin stays at the origin.
pub proof fn lemma_orbit_of_origin(n: nat)
    ensures
        orbit((0int, 0int), n) == (0int, 0int),
    decreases n,
{
    if n > 0 {
        lemma_orbit_of_origin((n - 1) as nat);
        assert(div_tz(0, SCALE as int) == 0);
    }
}

/// The origin never escapes, whatever the budget.
pub proof fn lemma_origin_never_escapes(limit: nat)
    ensures
        spec_escape_time((0int, 0int), limit) is None,
    decreases limit,
{
    if limit > 0 {
        lemma_origin_never_escapes((limit - 1) as nat);
        lemma_orbit_of_origin(limit);
    }
}

} // verus!
