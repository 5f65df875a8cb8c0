//! Semi-Lagrangian advection on the collocated grid.
//!
//! For every interior cell, trace one timestep backward along the local
//! velocity, clamp the traced position into the sampleable range
//! `[1/2, (n-2) + 1/2]` (cells next to the halo use the clamped position
//! rather than extrapolation -- a deliberate first-order sacrifice at the
//! walls), and bilinearly interpolate the source field at that position.
//! The destination buffer is distinct from the source, so no half-updated
//! value is ever read within one pass.

use vstd::prelude::*;

use crate::boundary::enforce_boundary;
use crate::boundary::sb;
use crate::boundary::FieldKind;
use crate::fixed::clamp_s;
use crate::fixed::fx_add;
use crate::fixed::fx_add_s;
use crate::fixed::fx_clamp;
use crate::fixed::fx_floor;
use crate::fixed::fx_mul;
use crate::fixed::fx_mul_s;
use crate::fixed::fx_of_int;
use crate::fixed::fx_of_int_s;
use crate::fixed::fx_sub;
use crate::fixed::fx_sub_s;
use crate::fixed::lemma_floor_in_range;
use crate::fixed::lemma_fx_of_int_exact;
use crate::fixed::lemma_fx_mul_one;
use crate::fixed::lemma_fx_mul_zero;
use crate::fixed::FX_HALF;
use crate::fixed::FX_ONE;
use crate::grid::idx;
use crate::grid::idx_s;
use crate::grid::in_grid;
use crate::grid::interior;
use crate::grid::lemma_grid_decomp;
use crate::grid::lemma_idx_bounds;
use crate::grid::lemma_lex_step;
use crate::grid::lex_done;

verus! {

broadcast use crate::grid::lemma_idx_inj_auto;

/// The sampleable upper clamp `(n-2) + 1/2` in fixed point.
pub open spec fn clamp_hi(n: int) -> int {
    fx_add_s(fx_of_int_s(n - 2), FX_HALF as int)
}

/// The advected value of interior cell `(i, j)`: back-trace by
/// `dt * (n-2)` grid units along `(u, v)`, clamp, and bilinearly sample the
/// source field `d0` at the traced position.
pub open spec fn advect_cell(
    d0: Seq<i64>,
    u: Seq<i64>,
    v: Seq<i64>,
    n: int,
    dt: int,
    i: int,
    j: int,
) -> int {
    let dt0 = fx_mul_s(dt, fx_of_int_s(n - 2));
    let x = clamp_s(
        fx_sub_s(fx_of_int_s(i), fx_mul_s(dt0, u[idx_s(i, j, n)] as int)),
        FX_HALF as int,
        clamp_hi(n),
    );
    let y = clamp_s(
        fx_sub_s(fx_of_int_s(j), fx_mul_s(dt0, v[idx_s(i, j, n)] as int)),
        FX_HALF as int,
        clamp_hi(n),
    );
    let i0 = x / (FX_ONE as int);
    let j0 = y / (FX_ONE as int);
    let s1 = fx_sub_s(x, fx_of_int_s(i0));
    let s0 = fx_sub_s(FX_ONE as int, s1);
    let t1 = fx_sub_s(y, fx_of_int_s(j0));
    let t0 = fx_sub_s(FX_ONE as int, t1);
    fx_add_s(
        fx_mul_s(
            s0,
            fx_add_s(
                fx_mul_s(t0, d0[idx_s(i0, j0, n)] as int),
                fx_mul_s(t1, d0[idx_s(i0, j0 + 1, n)] as int),
            ),
        ),
        fx_mul_s(
            s1,
            fx_add_s(
                fx_mul_s(t0, d0[idx_s(i0 + 1, j0, n)] as int),
                fx_mul_s(t1, d0[idx_s(i0 + 1, j0 + 1, n)] as int),
            ),
        ),
    )
}

/// The destination field after the advection pass: advected values over the
/// interior, the previous destination contents on the border (rewritten by
/// the boundary enforcer next).
pub open spec fn adv_field(
    d: Seq<i64>,
    d0: Seq<i64>,
    u: Seq<i64>,
    v: Seq<i64>,
    n: int,
    dt: int,
) -> Seq<i64> {
    Seq::new(
        d.len(),
        |k: int|
            if interior(k % n, k / n, n, n) {
                advect_cell(d0, u, v, n, dt, k % n, k / n) as i64
            } else {
                d[k]
            },
    )
}

/// A finished advection pass equals [`adv_field`] cell for cell.
proof fn lemma_adv_field_ext(
    d_cur: Seq<i64>,
    d_in: Seq<i64>,
    d0: Seq<i64>,
    u: Seq<i64>,
    v: Seq<i64>,
    ni: int,
    dt: int,
)
    requires
        3 <= ni,
        d_cur.len() == ni * ni,
        d_in.len() == ni * ni,
        forall|a: int, b: int|
            #![trigger idx_s(a, b, ni)]
            in_grid(a, b, ni, ni) && lex_done(a, b, ni, 1, ni - 1) ==> d_cur[idx_s(a, b, ni)]
                == (advect_cell(d0, u, v, ni, dt, a, b) as i64),
        forall|a: int, b: int|
            #![trigger idx_s(a, b, ni)]
            in_grid(a, b, ni, ni) && !lex_done(a, b, ni, 1, ni - 1) ==> d_cur[idx_s(a, b, ni)]
                == d_in[idx_s(a, b, ni)],
    ensures
        d_cur == adv_field(d_in, d0, u, v, ni, dt),
{
    assert forall|t: int| 0 <= t < d_cur.len() implies d_cur[t] == adv_field(
        d_in,
        d0,
        u,
        v,
        ni,
        dt,
    )[t] by {
        lemma_grid_decomp(t, ni, ni);
    }
    assert(d_cur =~= adv_field(d_in, d0, u, v, ni, dt));
}

/// Semi-Lagrangian advection: overwrite the interior of `d` with the source
/// field `d0` sampled one backward timestep along `(u, v)`, then enforce the
/// boundary policy of `kind`.
#[verifier::rlimit(60)]
pub fn advect(
    kind: FieldKind,
    d: &mut Vec<i64>,
    d0: &Vec<i64>,
    u: &Vec<i64>,
    v: &Vec<i64>,
    dt: i64,
    n: usize,
)
    requires
        3 <= n,
        n <= 46340,
        old(d)@.len() == n * n,
        d0@.len() == n * n,
        u@.len() == n * n,
        v@.len() == n * n,
    ensures
        final(d)@ == sb(kind, adv_field(old(d)@, d0@, u@, v@, n as int, dt as int), n as int),
        final(d)@.len() == n * n,
{
    let ghost ni = n as int;
    let ghost d_in = d@;
    let len: usize = d.len();
    proof {
        lemma_fx_of_int_exact(ni - 2);
    }
    let dt0: i64 = fx_mul(dt, fx_of_int((n as i64) - 2));
    let hi: i64 = fx_add(fx_of_int((n as i64) - 2), FX_HALF);
    let ghost avals = |a: int, b: int| advect_cell(d0@, u@, v@, ni, dt as int, a, b) as i64;
    let mut j: usize = 1;
    while j < n - 1
        invariant
            3 <= n <= 46340,
            1 <= j <= n - 1,
            ni == n as int,
            dt0 as int == fx_mul_s(dt as int, fx_of_int_s(ni - 2)),
            hi as int == clamp_hi(ni),
            FX_HALF as int <= hi as int,
            d_in.len() == ni * ni,
            d0@.len() == ni * ni,
            u@.len() == ni * ni,
            v@.len() == ni * ni,
            d@.len() == ni * ni,
            ni * ni <= usize::MAX as int,
            avals == (|a: int, b: int| advect_cell(d0@, u@, v@, ni, dt as int, a, b) as i64),
            forall|a: int, b: int|
                #![trigger idx_s(a, b, ni)]
                in_grid(a, b, ni, ni) && lex_done(a, b, ni, 1, j as int) ==> d@[idx_s(a, b, ni)]
                    == avals(a, b),
            forall|a: int, b: int|
                #![trigger idx_s(a, b, ni)]
                in_grid(a, b, ni, ni) && !lex_done(a, b, ni, 1, j as int) ==> d@[idx_s(a, b, ni)]
                    == d_in[idx_s(a, b, ni)],
        decreases n - 1 - j,
    {
        let mut i: usize = 1;
        while i < n - 1
            invariant
                3 <= n <= 46340,
                1 <= i <= n - 1,
                1 <= j <= n - 2,
                ni == n as int,
                dt0 as int == fx_mul_s(dt as int, fx_of_int_s(ni - 2)),
                hi as int == clamp_hi(ni),
                FX_HALF as int <= hi as int,
                d_in.len() == ni * ni,
                d0@.len() == ni * ni,
                u@.len() == ni * ni,
                v@.len() == ni * ni,
                d@.len() == ni * ni,
                ni * ni <= usize::MAX as int,
                avals == (|a: int, b: int| advect_cell(d0@, u@, v@, ni, dt as int, a, b) as i64),
                forall|a: int, b: int|
                    #![trigger idx_s(a, b, ni)]
                    in_grid(a, b, ni, ni) && lex_done(a, b, ni, i as int, j as int) ==> d@[idx_s(
                        a,
                        b,
                        ni,
                    )] == avals(a, b),
                forall|a: int, b: int|
                    #![trigger idx_s(a, b, ni)]
                    in_grid(a, b, ni, ni) && !lex_done(a, b, ni, i as int, j as int) ==> d@[idx_s(
                        a,
                        b,
                        ni,
                    )] == d_in[idx_s(a, b, ni)],
            decreases n - 1 - i,
        {
            proof {
                lemma_idx_bounds(i as int, j as int, ni, ni);
            }
            let uc: i64 = u[idx(i, j, n)];
            let vc: i64 = v[idx(i, j, n)];
            let x: i64 = fx_clamp(fx_sub(fx_of_int(i as i64), fx_mul(dt0, uc)), FX_HALF, hi);
            let y: i64 = fx_clamp(fx_sub(fx_of_int(j as i64), fx_mul(dt0, vc)), FX_HALF, hi);
            let i0: i64 = fx_floor(x);
            let j0: i64 = fx_floor(y);
            proof {
                lemma_floor_in_range(x as int, ni - 2);
                lemma_floor_in_range(y as int, ni - 2);
                lemma_idx_bounds(i0 as int, j0 as int, ni, ni);
                lemma_idx_bounds(i0 as int + 1, j0 as int, ni, ni);
                lemma_idx_bounds(i0 as int, j0 as int + 1, ni, ni);
                lemma_idx_bounds(i0 as int + 1, j0 as int + 1, ni, ni);
            }
            let s1: i64 = fx_sub(x, fx_of_int(i0));
            let s0: i64 = fx_sub(FX_ONE, s1);
            let t1: i64 = fx_sub(y, fx_of_int(j0));
            let t0: i64 = fx_sub(FX_ONE, t1);
            let f00: i64 = d0[idx(i0 as usize, j0 as usize, n)];
            let f01: i64 = d0[idx(i0 as usize, j0 as usize + 1, n)];
            let f10: i64 = d0[idx(i0 as usize + 1, j0 as usize, n)];
            let f11: i64 = d0[idx(i0 as usize + 1, j0 as usize + 1, n)];
            let val: i64 = fx_add(
                fx_mul(s0, fx_add(fx_mul(t0, f00), fx_mul(t1, f01))),
                fx_mul(s1, fx_add(fx_mul(t0, f10), fx_mul(t1, f11))),
            );
            let ghost d_pre = d@;
            d.set(idx(i, j, n), val);
            proof {
                assert(val == avals(i as int, j as int));
                lemma_lex_step(d_pre, d@, d_in, avals, ni, i as int, j as int);
            }
            i = i + 1;
        }
        j = j + 1;
    }
    proof {
        lemma_adv_field_ext(d@, d_in, d0@, u@, v@, ni, dt as int);
    }
    enforce_boundary(kind, d, n);
}

/// Advection idempotence on zero velocity: when `u` and `v` are zero
/// everywhere, the advection pass hands every interior cell the source
/// value unchanged.
pub proof fn lemma_advect_zero_velocity(
    d: Seq<i64>,
    d0: Seq<i64>,
    u: Seq<i64>,
    v: Seq<i64>,
    n: int,
    dt: int,
    i: int,
    j: int,
)
    requires
        3 <= n <= 46340,
        d.len() == n * n,
        d0.len() == n * n,
        u.len() == n * n,
        v.len() == n * n,
        forall|k: int| 0 <= k < u.len() ==> u[k] == 0i64,
        forall|k: int| 0 <= k < v.len() ==> v[k] == 0i64,
        interior(i, j, n, n),
    ensures
        adv_field(d, d0, u, v, n, dt)[idx_s(i, j, n)] == d0[idx_s(i, j, n)],
{
    let s = FX_ONE as int;
    lemma_idx_bounds(i, j, n, n);
    lemma_grid_decomp(idx_s(i, j, n), n, n);
    let dt0 = fx_mul_s(dt, fx_of_int_s(n - 2));
    lemma_fx_mul_zero(dt0);
    lemma_fx_of_int_exact(i);
    lemma_fx_of_int_exact(j);
    lemma_fx_of_int_exact(n - 2);
    assert(u[idx_s(i, j, n)] == 0i64);
    assert(v[idx_s(i, j, n)] == 0i64);
    let x = clamp_s(fx_sub_s(fx_of_int_s(i), 0), FX_HALF as int, clamp_hi(n));
    assert(x == i * s);
    vstd::arithmetic::div_mod::lemma_div_multiples_vanish(i, s);
    assert(i * s == s * i) by (nonlinear_arith);
    assert(x / s == i);
    let y = clamp_s(fx_sub_s(fx_of_int_s(j), 0), FX_HALF as int, clamp_hi(n));
    assert(y == j * s);
    vstd::arithmetic::div_mod::lemma_div_multiples_vanish(j, s);
    assert(j * s == s * j) by (nonlinear_arith);
    assert(y / s == j);
    let s1 = fx_sub_s(x, fx_of_int_s(i));
    assert(s1 == 0);
    let t1 = fx_sub_s(y, fx_of_int_s(j));
    assert(t1 == 0);
    let f00 = d0[idx_s(i, j, n)] as int;
    let f01 = d0[idx_s(i, j + 1, n)] as int;
    let f10 = d0[idx_s(i + 1, j, n)] as int;
    let f11 = d0[idx_s(i + 1, j + 1, n)] as int;
    lemma_fx_mul_one(f00);
    lemma_fx_mul_one(f10);
    lemma_fx_mul_zero(f01);
    lemma_fx_mul_zero(f11);
    assert(fx_add_s(fx_mul_s(FX_ONE as int, f00), fx_mul_s(0, f01)) == f00);
    lemma_fx_mul_one(fx_add_s(fx_mul_s(FX_ONE as int, f00), fx_mul_s(0, f01)));
    assert(fx_mul_s(FX_ONE as int, fx_add_s(fx_mul_s(FX_ONE as int, f00), fx_mul_s(0, f01)))
        == f00);
    lemma_fx_mul_zero(fx_add_s(fx_mul_s(FX_ONE as int, f10), fx_mul_s(0, f11)));
    assert(advect_cell(d0, u, v, n, dt, i, j) == f00);
}

} // verus!
