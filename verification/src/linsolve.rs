//! Fixed-iteration Gauss-Seidel relaxation, and the diffusion step built on
//! it.
//!
//! The relaxation repeatedly rewrites every interior cell in place as
//! `x[i,j] = (x0[i,j] + a * (x[i+1,j] + x[i-1,j] + x[i,j+1] + x[i,j-1])) / c`,
//! reading the most recently updated neighbour values (this in-place read is
//! what distinguishes Gauss-Seidel from Jacobi and is deliberate).  There is
//! no convergence check: the iteration count is the only stopping criterion.
//! The boundary enforcer runs once after the full iteration budget.

use vstd::prelude::*;

use crate::boundary::enforce_boundary;
use crate::boundary::sb;
use crate::boundary::FieldKind;
use crate::fixed::fx_add;
use crate::fixed::fx_add_s;
use crate::fixed::fx_div;
use crate::fixed::fx_div_s;
use crate::fixed::fx_mul;
use crate::fixed::fx_mul_s;
use crate::fixed::fx_of_int;
use crate::fixed::fx_of_int_s;
use crate::fixed::fx_scale;
use crate::fixed::fx_scale_s;
use crate::fixed::lemma_fx_nonneg;
use crate::fixed::FX_ONE;
use crate::grid::idx;
use crate::grid::idx_s;
use crate::grid::lemma_idx_bounds;

verus! {

/// The Gauss-Seidel update of interior cell `(i, j)`: the current state of
/// the sweep is `x`, the source field is `x0`.
pub open spec fn ls_cell_val(
    x: Seq<i64>,
    x0: Seq<i64>,
    n: int,
    a: int,
    c: int,
    i: int,
    j: int,
) -> int {
    fx_div_s(
        fx_add_s(
            x0[idx_s(i, j, n)] as int,
            fx_mul_s(
                a,
                fx_add_s(
                    fx_add_s(x[idx_s(i + 1, j, n)] as int, x[idx_s(i - 1, j, n)] as int),
                    fx_add_s(x[idx_s(i, j + 1, n)] as int, x[idx_s(i, j - 1, n)] as int),
                ),
            ),
        ),
        c,
    )
}

/// The state of row `j` after the sweep has updated cells `(1, j)` up to
/// `(i_end - 1, j)`, left to right.
pub open spec fn ls_row(
    x: Seq<i64>,
    x0: Seq<i64>,
    n: int,
    a: int,
    c: int,
    j: int,
    i_end: int,
) -> Seq<i64>
    decreases i_end,
{
    if i_end <= 1 {
        x
    } else {
        let prev = ls_row(x, x0, n, a, c, j, i_end - 1);
        prev.update(idx_s(i_end - 1, j, n), ls_cell_val(prev, x0, n, a, c, i_end - 1, j) as i64)
    }
}

/// The state after the sweep has finished rows `1` up to `j_end - 1`,
/// bottom to top.
pub open spec fn ls_rows(x: Seq<i64>, x0: Seq<i64>, n: int, a: int, c: int, j_end: int) -> Seq<
    i64,
>
    decreases j_end,
{
    if j_end <= 1 {
        x
    } else {
        ls_row(ls_rows(x, x0, n, a, c, j_end - 1), x0, n, a, c, j_end - 1, n - 1)
    }
}

/// The state after `k` complete Gauss-Seidel sweeps over the interior.
pub open spec fn ls_sweeps(x: Seq<i64>, x0: Seq<i64>, n: int, a: int, c: int, k: nat) -> Seq<i64>
    decreases k,
{
    if k == 0 {
        x
    } else {
        ls_rows(ls_sweeps(x, x0, n, a, c, (k - 1) as nat), x0, n, a, c, n - 1)
    }
}

/// A partial row sweep keeps the field length.
pub proof fn lemma_ls_row_len(x: Seq<i64>, x0: Seq<i64>, n: int, a: int, c: int, j: int, i_end: int)
    requires
        3 <= n,
        1 <= j < n - 1,
        i_end <= n - 1,
        x.len() == n * n,
    ensures
        ls_row(x, x0, n, a, c, j, i_end).len() == x.len(),
    decreases i_end,
{
    if i_end > 1 {
        lemma_ls_row_len(x, x0, n, a, c, j, i_end - 1);
        lemma_idx_bounds(i_end - 1, j, n, n);
    }
}

/// A partial sweep keeps the field length.
pub proof fn lemma_ls_rows_len(x: Seq<i64>, x0: Seq<i64>, n: int, a: int, c: int, j_end: int)
    requires
        3 <= n,
        j_end <= n - 1,
        x.len() == n * n,
    ensures
        ls_rows(x, x0, n, a, c, j_end).len() == x.len(),
    decreases j_end,
{
    if j_end > 1 {
        lemma_ls_rows_len(x, x0, n, a, c, j_end - 1);
        lemma_ls_row_len(ls_rows(x, x0, n, a, c, j_end - 1), x0, n, a, c, j_end - 1, n - 1);
    }
}

/// Any number of sweeps keeps the field length.
pub proof fn lemma_ls_sweeps_len(x: Seq<i64>, x0: Seq<i64>, n: int, a: int, c: int, k: nat)
    requires
        3 <= n,
        x.len() == n * n,
    ensures
        ls_sweeps(x, x0, n, a, c, k).len() == x.len(),
    decreases k,
{
    if k > 0 {
        lemma_ls_sweeps_len(x, x0, n, a, c, (k - 1) as nat);
        lemma_ls_rows_len(ls_sweeps(x, x0, n, a, c, (k - 1) as nat), x0, n, a, c, n - 1);
    }
}

/// Run `iters` Gauss-Seidel sweeps of the relaxation
/// `x[i,j] = (x0[i,j] + a * (sum of the four neighbours)) / c` over the
/// interior of the square field `x` (side `n`), then enforce the boundary
/// policy of `kind` once.
pub fn lin_solve(kind: FieldKind, x: &mut Vec<i64>, x0: &Vec<i64>, a: i64, c: i64, iters: u32, n: usize)
    requires
        3 <= n,
        old(x)@.len() == n * n,
        x0@.len() == n * n,
        c > 0,
    ensures
        final(x)@ == sb(
            kind,
            ls_sweeps(old(x)@, x0@, n as int, a as int, c as int, iters as nat),
            n as int,
        ),
{
    let ghost xin = x@;
    let ghost ni = n as int;
    let ghost ai = a as int;
    let ghost ci = c as int;
    let len: usize = x.len();
    let mut k: u32 = 0;
    while k < iters
        invariant
            3 <= n,
            k <= iters,
            ni == n as int,
            ai == a as int,
            ci == c as int,
            c > 0,
            xin.len() == ni * ni,
            x0@.len() == ni * ni,
            ni * ni <= usize::MAX as int,
            x@ == ls_sweeps(xin, x0@, ni, ai, ci, k as nat),
        decreases iters - k,
    {
        proof {
            lemma_ls_sweeps_len(xin, x0@, ni, ai, ci, k as nat);
        }
        let ghost sweep_base = x@;
        let mut j: usize = 1;
        while j < n - 1
            invariant
                3 <= n,
                1 <= j <= n - 1,
                ni == n as int,
                ai == a as int,
                ci == c as int,
                c > 0,
                sweep_base.len() == ni * ni,
                x0@.len() == ni * ni,
                ni * ni <= usize::MAX as int,
                x@ == ls_rows(sweep_base, x0@, ni, ai, ci, j as int),
            decreases n - 1 - j,
        {
            proof {
                lemma_ls_rows_len(sweep_base, x0@, ni, ai, ci, j as int);
            }
            let ghost row_base = x@;
            let mut i: usize = 1;
            while i < n - 1
                invariant
                    3 <= n,
                    1 <= i <= n - 1,
                    1 <= j <= n - 2,
                    ni == n as int,
                    ai == a as int,
                    ci == c as int,
                    c > 0,
                    row_base.len() == ni * ni,
                    x0@.len() == ni * ni,
                    ni * ni <= usize::MAX as int,
                    x@ == ls_row(row_base, x0@, ni, ai, ci, j as int, i as int),
                decreases n - 1 - i,
            {
                proof {
                    lemma_ls_row_len(row_base, x0@, ni, ai, ci, j as int, i as int);
                    lemma_idx_bounds(i as int + 1, j as int, ni, ni);
                    lemma_idx_bounds(i as int - 1, j as int, ni, ni);
                    lemma_idx_bounds(i as int, j as int + 1, ni, ni);
                    lemma_idx_bounds(i as int, j as int - 1, ni, ni);
                    lemma_idx_bounds(i as int, j as int, ni, ni);
                }
                let xr: i64 = x[idx(i + 1, j, n)];
                let xl: i64 = x[idx(i - 1, j, n)];
                let xu: i64 = x[idx(i, j + 1, n)];
                let xd: i64 = x[idx(i, j - 1, n)];
                let sv: i64 = x0[idx(i, j, n)];
                let val: i64 = fx_div(fx_add(sv, fx_mul(a, fx_add(fx_add(xr, xl), fx_add(xu, xd)))), c);
                x.set(idx(i, j, n), val);
                proof {
                    let ii = i as int;
                    let jj = j as int;
                    let prev = ls_row(row_base, x0@, ni, ai, ci, jj, ii);
                    assert(val as int == ls_cell_val(prev, x0@, ni, ai, ci, ii, jj));
                    assert(x@ == prev.update(idx_s(ii, jj, ni), val));
                    assert(x@ == ls_row(row_base, x0@, ni, ai, ci, jj, ii + 1));
                }
                i = i + 1;
            }
            proof {
                assert(x@ == ls_rows(sweep_base, x0@, ni, ai, ci, j as int + 1));
            }
            j = j + 1;
        }
        proof {
            assert(x@ == ls_sweeps(xin, x0@, ni, ai, ci, k as nat + 1));
        }
        k = k + 1;
    }
    proof {
        lemma_ls_sweeps_len(xin, x0@, ni, ai, ci, iters as nat);
    }
    enforce_boundary(kind, x, n);
}

/// The diffusion rate `a = dt * diff * (n-2)^2` of a grid with `n-2`
/// interior cells per side.
pub open spec fn diffuse_rate(dt: int, diff: int, n: int) -> int {
    fx_mul_s(fx_mul_s(dt, diff), fx_of_int_s((n - 2) * (n - 2)))
}

/// The denominator `1 + 4a` of the implicit diffusion update.
pub open spec fn diffuse_denom(rate: int) -> int {
    fx_add_s(FX_ONE as int, fx_scale_s(rate, 4))
}

/// The diffusion step: approximate `d x / d t = diff * laplacian(x)` by
/// backward Euler, solved with `iters` Gauss-Seidel sweeps against the
/// source field `x0`, then enforce the boundary policy of `kind` once.
pub fn diffuse(
    kind: FieldKind,
    x: &mut Vec<i64>,
    x0: &Vec<i64>,
    diff: i64,
    dt: i64,
    iters: u32,
    n: usize,
)
    requires
        3 <= n,
        n <= 46340,
        old(x)@.len() == n * n,
        x0@.len() == n * n,
        dt >= 0,
        diff >= 0,
    ensures
        final(x)@ == sb(
            kind,
            ls_sweeps(
                old(x)@,
                x0@,
                n as int,
                diffuse_rate(dt as int, diff as int, n as int),
                diffuse_denom(diffuse_rate(dt as int, diff as int, n as int)),
                iters as nat,
            ),
            n as int,
        ),
{
    proof {
        assert((n as int - 2) * (n as int - 2) <= 46338 * 46338) by (nonlinear_arith)
            requires
                3 <= n as int <= 46340,
        ;
        assert(0 <= (n as int - 2) * (n as int - 2)) by (nonlinear_arith)
            requires
                3 <= n as int,
        ;
    }
    let m: usize = (n - 2) * (n - 2);
    let a: i64 = fx_mul(fx_mul(dt, diff), fx_of_int(m as i64));
    proof {
        lemma_fx_nonneg(dt as int, diff as int);
        lemma_fx_nonneg(m as int, m as int);
        lemma_fx_nonneg(fx_mul_s(dt as int, diff as int), fx_of_int_s(m as int));
        lemma_fx_nonneg(a as int, 4);
        lemma_fx_nonneg(FX_ONE as int, fx_scale_s(a as int, 4));
    }
    let c: i64 = fx_add(FX_ONE, fx_scale(a, 4));
    assert(c > 0);
    lin_solve(kind, x, x0, a, c, iters, n);
}

} // verus!
