//! The pressure projector for the collocated grid: make the velocity field
//! divergence-free.
//!
//! The projection computes the discrete divergence of `(u, v)` at every
//! interior cell, zeroes the pressure field, boundary-enforces both, solves
//! the discrete Poisson equation for pressure by Gauss-Seidel relaxation,
//! and finally subtracts the pressure gradient from the velocity.

use vstd::prelude::*;

use crate::boundary::enforce_boundary;
use crate::boundary::sb;
use crate::boundary::FieldKind;
use crate::fixed::fx_add;
use crate::fixed::fx_add_s;
use crate::fixed::fx_div_int;
use crate::fixed::fx_div_int_s;
use crate::fixed::fx_neg;
use crate::fixed::fx_neg_s;
use crate::fixed::fx_scale;
use crate::fixed::fx_scale_s;
use crate::fixed::fx_sub;
use crate::fixed::fx_sub_s;
use crate::fixed::FX_ONE;
use crate::grid::idx;
use crate::grid::idx_s;
use crate::grid::in_grid;
use crate::grid::interior;
use crate::grid::lemma_grid_decomp;
use crate::grid::lemma_idx_bounds;
use crate::grid::lemma_lex_step;
use crate::grid::lex_done;
use crate::linsolve::lin_solve;
use crate::linsolve::lemma_ls_sweeps_len;
use crate::linsolve::ls_sweeps;

verus! {

/// The discrete divergence stored at interior cell `(i, j)`:
/// `-((u[i+1,j] - u[i-1,j]) + (v[i,j+1] - v[i,j-1])) / (2n)`.
pub open spec fn div_cell(u: Seq<i64>, v: Seq<i64>, n: int, i: int, j: int) -> int {
    fx_neg_s(
        fx_div_int_s(
            fx_add_s(
                fx_sub_s(u[idx_s(i + 1, j, n)] as int, u[idx_s(i - 1, j, n)] as int),
                fx_sub_s(v[idx_s(i, j + 1, n)] as int, v[idx_s(i, j - 1, n)] as int),
            ),
            2 * n,
        ),
    )
}

/// The divergence field: the interior holds [`div_cell`], the border keeps
/// the previous contents `dv` (rewritten by the boundary enforcer next).
pub open spec fn div_field(u: Seq<i64>, v: Seq<i64>, dv: Seq<i64>, n: int) -> Seq<i64> {
    Seq::new(
        dv.len(),
        |k: int|
            if interior(k % n, k / n, n, n) {
                div_cell(u, v, n, k % n, k / n) as i64
            } else {
                dv[k]
            },
    )
}

/// An all-zero field of `len` cells.
pub open spec fn zero_field(len: nat) -> Seq<i64> {
    Seq::new(len, |k: int| 0i64)
}

/// The velocity x-component at interior cell `(i, j)` after the pressure
/// gradient is subtracted: `u[i,j] - n * (p[i+1,j] - p[i-1,j]) / 2`.
pub open spec fn corr_u_cell(u: Seq<i64>, p: Seq<i64>, n: int, i: int, j: int) -> int {
    fx_sub_s(
        u[idx_s(i, j, n)] as int,
        fx_div_int_s(
            fx_scale_s(fx_sub_s(p[idx_s(i + 1, j, n)] as int, p[idx_s(i - 1, j, n)] as int), n),
            2,
        ),
    )
}

/// The velocity y-component at interior cell `(i, j)` after the pressure
/// gradient is subtracted: `v[i,j] - n * (p[i,j+1] - p[i,j-1]) / 2`.
pub open spec fn corr_v_cell(v: Seq<i64>, p: Seq<i64>, n: int, i: int, j: int) -> int {
    fx_sub_s(
        v[idx_s(i, j, n)] as int,
        fx_div_int_s(
            fx_scale_s(fx_sub_s(p[idx_s(i, j + 1, n)] as int, p[idx_s(i, j - 1, n)] as int), n),
            2,
        ),
    )
}

/// The x-velocity field after gradient subtraction over the interior.
pub open spec fn corr_u_field(u: Seq<i64>, p: Seq<i64>, n: int) -> Seq<i64> {
    Seq::new(
        u.len(),
        |k: int|
            if interior(k % n, k / n, n, n) {
                corr_u_cell(u, p, n, k % n, k / n) as i64
            } else {
                u[k]
            },
    )
}

/// The y-velocity field after gradient subtraction over the interior.
pub open spec fn corr_v_field(v: Seq<i64>, p: Seq<i64>, n: int) -> Seq<i64> {
    Seq::new(
        v.len(),
        |k: int|
            if interior(k % n, k / n, n, n) {
                corr_v_cell(v, p, n, k % n, k / n) as i64
            } else {
                v[k]
            },
    )
}

/// Compute the boundary-enforced discrete divergence of `(u, v)` into
/// `div`.
fn compute_divergence(u: &Vec<i64>, v: &Vec<i64>, div: &mut Vec<i64>, n: usize)
    requires
        3 <= n,
        n <= 46340,
        u@.len() == n * n,
        v@.len() == n * n,
        old(div)@.len() == n * n,
    ensures
        final(div)@ == sb(FieldKind::Scalar, div_field(u@, v@, old(div)@, n as int), n as int),
        final(div)@.len() == n * n,
{
    let ghost ni = n as int;
    let ghost u0 = u@;
    let ghost v0 = v@;
    let ghost div0 = div@;
    let len: usize = div.len();
    let two_n: i64 = 2 * (n as i64);

    // Divergence of the velocity field over the interior.
    let ghost dvals = |a: int, b: int| div_cell(u0, v0, ni, a, b) as i64;
    let mut j: usize = 1;
    while j < n - 1
        invariant
            3 <= n <= 46340,
            1 <= j <= n - 1,
            ni == n as int,
            two_n == 2 * ni,
            u@ == u0,
            v@ == v0,
            u0.len() == ni * ni,
            v0.len() == ni * ni,
            div0.len() == ni * ni,
            div@.len() == ni * ni,
            ni * ni <= usize::MAX as int,
            dvals == (|a: int, b: int| div_cell(u0, v0, ni, a, b) as i64),
            forall|a: int, b: int|
                #![trigger idx_s(a, b, ni)]
                in_grid(a, b, ni, ni) && lex_done(a, b, ni, 1, j as int) ==> div@[idx_s(a, b, ni)]
                    == dvals(a, b),
            forall|a: int, b: int|
                #![trigger idx_s(a, b, ni)]
                in_grid(a, b, ni, ni) && !lex_done(a, b, ni, 1, j as int) ==> div@[idx_s(a, b, ni)]
                    == div0[idx_s(a, b, ni)],
        decreases n - 1 - j,
    {
        let mut i: usize = 1;
        while i < n - 1
            invariant
                3 <= n <= 46340,
                1 <= i <= n - 1,
                1 <= j <= n - 2,
                ni == n as int,
                two_n == 2 * ni,
                u@ == u0,
                v@ == v0,
                u0.len() == ni * ni,
                v0.len() == ni * ni,
                div0.len() == ni * ni,
                div@.len() == ni * ni,
                ni * ni <= usize::MAX as int,
                dvals == (|a: int, b: int| div_cell(u0, v0, ni, a, b) as i64),
                forall|a: int, b: int|
                    #![trigger idx_s(a, b, ni)]
                    in_grid(a, b, ni, ni) && lex_done(a, b, ni, i as int, j as int) ==> div@[idx_s(
                        a,
                        b,
                        ni,
                    )] == dvals(a, b),
                forall|a: int, b: int|
                    #![trigger idx_s(a, b, ni)]
                    in_grid(a, b, ni, ni) && !lex_done(a, b, ni, i as int, j as int) ==> div@[idx_s(
                        a,
                        b,
                        ni,
                    )] == div0[idx_s(a, b, ni)],
            decreases n - 1 - i,
        {
            proof {
                lemma_idx_bounds(i as int + 1, j as int, ni, ni);
                lemma_idx_bounds(i as int - 1, j as int, ni, ni);
                lemma_idx_bounds(i as int, j as int + 1, ni, ni);
                lemma_idx_bounds(i as int, j as int - 1, ni, ni);
                lemma_idx_bounds(i as int, j as int, ni, ni);
            }
            let ghost div_pre = div@;
            let ur: i64 = u[idx(i + 1, j, n)];
            let ul: i64 = u[idx(i - 1, j, n)];
            let vu: i64 = v[idx(i, j + 1, n)];
            let vd: i64 = v[idx(i, j - 1, n)];
            let d: i64 = fx_neg(fx_div_int(fx_add(fx_sub(ur, ul), fx_sub(vu, vd)), two_n));
            div.set(idx(i, j, n), d);
            proof {
                assert(d == dvals(i as int, j as int));
                lemma_lex_step(div_pre, div@, div0, dvals, ni, i as int, j as int);
            }
            i = i + 1;
        }
        j = j + 1;
    }

    proof {
        assert forall|t: int| 0 <= t < div@.len() implies div@[t] == div_field(
            u0,
            v0,
            div0,
            ni,
        )[t] by {
            lemma_grid_decomp(t, ni, ni);
        }
        assert(div@ =~= div_field(u0, v0, div0, ni));
    }
    enforce_boundary(FieldKind::Scalar, div, n);
}

/// Solve the discrete Poisson equation for pressure against the divergence
/// field, starting from an all-zero pressure guess.
fn solve_pressure(p: &mut Vec<i64>, div: &Vec<i64>, iters: u32, n: usize)
    requires
        3 <= n,
        old(p)@.len() == n * n,
        div@.len() == n * n,
    ensures
        final(p)@ == sb(
            FieldKind::Scalar,
            ls_sweeps(
                sb(FieldKind::Scalar, zero_field(old(p)@.len()), n as int),
                div@,
                n as int,
                FX_ONE as int,
                6 * FX_ONE as int,
                iters as nat,
            ),
            n as int,
        ),
        final(p)@.len() == n * n,
{
    let ghost ni = n as int;
    let len: usize = p.len();
    let mut k: usize = 0;
    while k < len
        invariant
            k <= len,
            len == p@.len(),
            p@.len() == ni * ni,
            forall|t: int| 0 <= t < k as int ==> p@[t] == 0i64,
        decreases len - k,
    {
        p.set(k, 0);
        k = k + 1;
    }
    proof {
        assert(p@ =~= zero_field(old(p)@.len()));
    }
    enforce_boundary(FieldKind::Scalar, p, n);
    let ghost p_start = p@;
    lin_solve(FieldKind::Scalar, p, div, FX_ONE, 6 * FX_ONE, iters, n);
    proof {
        lemma_ls_sweeps_len(p_start, div@, ni, FX_ONE as int, 6 * FX_ONE as int, iters as nat);
    }
}

/// Subtract the pressure gradient from the velocity field and re-enforce
/// the velocity boundary policies.
fn subtract_gradient(u: &mut Vec<i64>, v: &mut Vec<i64>, p: &Vec<i64>, n: usize)
    requires
        3 <= n,
        n <= 46340,
        old(u)@.len() == n * n,
        old(v)@.len() == n * n,
        p@.len() == n * n,
    ensures
        final(u)@ == sb(FieldKind::XVelocity, corr_u_field(old(u)@, p@, n as int), n as int),
        final(v)@ == sb(FieldKind::YVelocity, corr_v_field(old(v)@, p@, n as int), n as int),
{
    let ghost ni = n as int;
    let ghost u0 = u@;
    let ghost v0 = v@;
    let len: usize = u.len();
    // Subtract the pressure gradient from the velocity.
    let ghost p1 = p@;
    let ghost uvals = |a: int, b: int| corr_u_cell(u0, p1, ni, a, b) as i64;
    let ghost vvals = |a: int, b: int| corr_v_cell(v0, p1, ni, a, b) as i64;
    let n_i64: i64 = n as i64;
    let mut j: usize = 1;
    while j < n - 1
        invariant
            3 <= n <= 46340,
            1 <= j <= n - 1,
            ni == n as int,
            n_i64 == n as i64,
            p@ == p1,
            u0.len() == ni * ni,
            v0.len() == ni * ni,
            p1.len() == ni * ni,
            u@.len() == ni * ni,
            v@.len() == ni * ni,
            ni * ni <= usize::MAX as int,
            uvals == (|a: int, b: int| corr_u_cell(u0, p1, ni, a, b) as i64),
            vvals == (|a: int, b: int| corr_v_cell(v0, p1, ni, a, b) as i64),
            forall|a: int, b: int|
                #![trigger idx_s(a, b, ni)]
                in_grid(a, b, ni, ni) && lex_done(a, b, ni, 1, j as int) ==> u@[idx_s(a, b, ni)]
                    == uvals(a, b) && v@[idx_s(a, b, ni)] == vvals(a, b),
            forall|a: int, b: int|
                #![trigger idx_s(a, b, ni)]
                in_grid(a, b, ni, ni) && !lex_done(a, b, ni, 1, j as int) ==> u@[idx_s(a, b, ni)]
                    == u0[idx_s(a, b, ni)] && v@[idx_s(a, b, ni)] == v0[idx_s(a, b, ni)],
        decreases n - 1 - j,
    {
        let mut i: usize = 1;
        while i < n - 1
            invariant
                3 <= n <= 46340,
                1 <= i <= n - 1,
                1 <= j <= n - 2,
                ni == n as int,
                n_i64 == n as i64,
                p@ == p1,
                u0.len() == ni * ni,
                v0.len() == ni * ni,
                p1.len() == ni * ni,
                u@.len() == ni * ni,
                v@.len() == ni * ni,
                ni * ni <= usize::MAX as int,
                uvals == (|a: int, b: int| corr_u_cell(u0, p1, ni, a, b) as i64),
                vvals == (|a: int, b: int| corr_v_cell(v0, p1, ni, a, b) as i64),
                forall|a: int, b: int|
                    #![trigger idx_s(a, b, ni)]
                    in_grid(a, b, ni, ni) && lex_done(a, b, ni, i as int, j as int) ==> u@[idx_s(
                        a,
                        b,
                        ni,
                    )] == uvals(a, b) && v@[idx_s(a, b, ni)] == vvals(a, b),
                forall|a: int, b: int|
                    #![trigger idx_s(a, b, ni)]
                    in_grid(a, b, ni, ni) && !lex_done(a, b, ni, i as int, j as int) ==> u@[idx_s(
                        a,
                        b,
                        ni,
                    )] == u0[idx_s(a, b, ni)] && v@[idx_s(a, b, ni)] == v0[idx_s(a, b, ni)],
            decreases n - 1 - i,
        {
            proof {
                lemma_idx_bounds(i as int + 1, j as int, ni, ni);
                lemma_idx_bounds(i as int - 1, j as int, ni, ni);
                lemma_idx_bounds(i as int, j as int + 1, ni, ni);
                lemma_idx_bounds(i as int, j as int - 1, ni, ni);
                lemma_idx_bounds(i as int, j as int, ni, ni);
            }
            let ghost u_pre = u@;
            let ghost v_pre = v@;
            let pr: i64 = p[idx(i + 1, j, n)];
            let pl: i64 = p[idx(i - 1, j, n)];
            let pu: i64 = p[idx(i, j + 1, n)];
            let pd: i64 = p[idx(i, j - 1, n)];
            let uc: i64 = u[idx(i, j, n)];
            let vc: i64 = v[idx(i, j, n)];
            let du: i64 = fx_div_int(fx_scale(fx_sub(pr, pl), n_i64), 2);
            let dv: i64 = fx_div_int(fx_scale(fx_sub(pu, pd), n_i64), 2);
            u.set(idx(i, j, n), fx_sub(uc, du));
            v.set(idx(i, j, n), fx_sub(vc, dv));
            proof {
                assert(u@[idx_s(i as int, j as int, ni)] as int == corr_u_cell(
                    u0,
                    p1,
                    ni,
                    i as int,
                    j as int,
                ));
                lemma_lex_step(u_pre, u@, u0, uvals, ni, i as int, j as int);
                lemma_lex_step(v_pre, v@, v0, vvals, ni, i as int, j as int);
            }
            i = i + 1;
        }
        j = j + 1;
    }
    proof {
        assert forall|t: int| 0 <= t < u@.len() implies u@[t] == corr_u_field(u0, p1, ni)[t] by {
            lemma_grid_decomp(t, ni, ni);
        }
        assert(u@ =~= corr_u_field(u0, p1, ni));
        assert forall|t: int| 0 <= t < v@.len() implies v@[t] == corr_v_field(v0, p1, ni)[t] by {
            lemma_grid_decomp(t, ni, ni);
        }
        assert(v@ =~= corr_v_field(v0, p1, ni));
    }

    proof {
        assert forall|t: int| 0 <= t < u@.len() implies u@[t] == corr_u_field(u0, p1, ni)[t] by {
            lemma_grid_decomp(t, ni, ni);
        }
        assert(u@ =~= corr_u_field(u0, p1, ni));
        assert forall|t: int| 0 <= t < v@.len() implies v@[t] == corr_v_field(v0, p1, ni)[t] by {
            lemma_grid_decomp(t, ni, ni);
        }
        assert(v@ =~= corr_v_field(v0, p1, ni));
    }

    enforce_boundary(FieldKind::XVelocity, u, n);
    enforce_boundary(FieldKind::YVelocity, v, n);
}

/// Enforce incompressibility on the collocated grid: after the call the
/// divergence field holds the boundary-enforced discrete divergence of the
/// old velocity, the pressure field holds `iters` Gauss-Seidel sweeps of the
/// Poisson solve against that divergence (from an all-zero start), and the
/// velocity has the pressure gradient subtracted, boundary-enforced.
pub fn project(
    u: &mut Vec<i64>,
    v: &mut Vec<i64>,
    p: &mut Vec<i64>,
    div: &mut Vec<i64>,
    iters: u32,
    n: usize,
)
    requires
        3 <= n,
        n <= 46340,
        old(u)@.len() == n * n,
        old(v)@.len() == n * n,
        old(p)@.len() == n * n,
        old(div)@.len() == n * n,
    ensures
        final(div)@ == sb(FieldKind::Scalar, div_field(old(u)@, old(v)@, old(div)@, n as int), n as int),
        final(p)@ == sb(
            FieldKind::Scalar,
            ls_sweeps(
                sb(FieldKind::Scalar, zero_field(old(p)@.len()), n as int),
                final(div)@,
                n as int,
                FX_ONE as int,
                6 * FX_ONE as int,
                iters as nat,
            ),
            n as int,
        ),
        final(u)@ == sb(FieldKind::XVelocity, corr_u_field(old(u)@, final(p)@, n as int), n as int),
        final(v)@ == sb(FieldKind::YVelocity, corr_v_field(old(v)@, final(p)@, n as int), n as int),
{
    compute_divergence(u, v, div, n);
    solve_pressure(p, div, iters, n);
    subtract_gradient(u, v, p, n);
}

} // verus!
