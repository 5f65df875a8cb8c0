//! The staggered (MAC) grid solver: velocity components live at cell faces,
//! the pressure correction is an over-relaxed Gauss-Seidel sweep that
//! supports internal obstacles through the solidity mask, and boundary
//! velocities are extrapolated by plain copy.
//!
//! The grid is `num_x` by `num_y` cells (a one-cell halo on each side),
//! indexed row-major as everywhere else in this crate.

use vstd::prelude::*;

use crate::fixed::clamp_s;
use crate::fixed::fx_add;
use crate::fixed::fx_clamp;
use crate::fixed::fx_div;
use crate::fixed::fx_neg;
use crate::fixed::fx_neg_s;
use crate::fixed::fx_div_int;
use crate::fixed::fx_div_int_s;
use crate::fixed::fx_div_s;
use crate::fixed::fx_scale;
use crate::fixed::fx_scale_s;
use crate::fixed::fx_sub;
use crate::fixed::fx_sub_s;
use crate::fixed::imin;
use crate::fixed::FX_QUARTER;
use crate::boundary::FieldKind;
use crate::fixed::fx_add_s;
use crate::fixed::fx_mul;
use crate::fixed::fx_mul_s;
use crate::fixed::FX_HALF;
use crate::grid::copy_field;
use crate::grid::idx;
use crate::grid::interior;
use crate::grid::idx_s;
use crate::grid::in_grid;
use crate::grid::lemma_grid_decomp;
use crate::grid::lemma_idx_bounds;
use crate::grid::lemma_mark_step;
use crate::fixed::FX_ONE;

verus! {

broadcast use crate::grid::lemma_idx_inj_auto;

/// Column-major scan progress: the cells visited before `(i, j)` when the
/// outer loop runs over x and the inner loop over y.
pub open spec fn col_lt(a: int, b: int, i: int, j: int) -> bool {
    a < i || (a == i && b < j)
}

/// The cells the gravity step touches: every column but the left halo, every
/// row but the bottom and top halo.
pub open spec fn integ_region(a: int, b: int, w: int, h: int) -> bool {
    1 <= a < w && 1 <= b < h - 1
}

/// The y-velocity of cell `(a, b)` after the gravity step: `gravity * dt` is
/// added wherever the cell and its lower face neighbour are both fluid.
pub open spec fn integ_cell(
    v: Seq<i64>,
    s: Seq<i64>,
    w: int,
    dt: int,
    g: int,
    a: int,
    b: int,
) -> int {
    if s[idx_s(a, b, w)] != 0i64 && s[idx_s(a, b - 1, w)] != 0i64 {
        fx_add_s(v[idx_s(a, b, w)] as int, fx_mul_s(g, dt))
    } else {
        v[idx_s(a, b, w)] as int
    }
}

/// The whole y-velocity field after the gravity step.
pub open spec fn integ_field(v: Seq<i64>, s: Seq<i64>, w: int, h: int, dt: int, g: int) -> Seq<
    i64,
> {
    Seq::new(
        v.len(),
        |k: int|
            if integ_region(k % w, k / w, w, h) {
                integ_cell(v, s, w, dt, g, k % w, k / w) as i64
            } else {
                v[k]
            },
    )
}

/// The gravity step: add `gravity * dt` once per frame to the vertical
/// velocity of every cell that is fluid together with its lower neighbour,
/// before projection.
pub fn integrate(num_x: usize, num_y: usize, s: &Vec<i64>, v: &mut Vec<i64>, dt: i64, gravity: i64)
    requires
        3 <= num_x,
        3 <= num_y,
        s@.len() == num_x * num_y,
        old(v)@.len() == num_x * num_y,
    ensures
        final(v)@ == integ_field(old(v)@, s@, num_x as int, num_y as int, dt as int, gravity as int),
{
    let ghost w = num_x as int;
    let ghost h = num_y as int;
    let ghost v0 = v@;
    let len: usize = v.len();
    let g_dt: i64 = fx_mul(gravity, dt);
    let ghost vals = |a: int, b: int| integ_cell(v0, s@, w, dt as int, gravity as int, a, b) as i64;
    let mut i: usize = 1;
    while i < num_x
        invariant
            3 <= num_x,
            3 <= num_y,
            1 <= i <= num_x,
            w == num_x as int,
            h == num_y as int,
            g_dt as int == fx_mul_s(gravity as int, dt as int),
            v0.len() == w * h,
            s@.len() == w * h,
            v@.len() == w * h,
            w * h <= usize::MAX as int,
            vals == (|a: int, b: int| integ_cell(v0, s@, w, dt as int, gravity as int, a, b) as i64),
            forall|a: int, b: int|
                #![trigger idx_s(a, b, w)]
                in_grid(a, b, w, h) && integ_region(a, b, w, h) && col_lt(a, b, i as int, 1)
                    ==> v@[idx_s(a, b, w)] == vals(a, b),
            forall|a: int, b: int|
                #![trigger idx_s(a, b, w)]
                in_grid(a, b, w, h) && !(integ_region(a, b, w, h) && col_lt(a, b, i as int, 1))
                    ==> v@[idx_s(a, b, w)] == v0[idx_s(a, b, w)],
        decreases num_x - i,
    {
        let mut j: usize = 1;
        while j < num_y - 1
            invariant
                3 <= num_x,
                3 <= num_y,
                1 <= i < num_x,
                1 <= j <= num_y - 1,
                w == num_x as int,
                h == num_y as int,
                g_dt as int == fx_mul_s(gravity as int, dt as int),
                v0.len() == w * h,
                s@.len() == w * h,
                v@.len() == w * h,
                w * h <= usize::MAX as int,
                vals == (|a: int, b: int| integ_cell(v0, s@, w, dt as int, gravity as int, a, b) as i64),
                forall|a: int, b: int|
                    #![trigger idx_s(a, b, w)]
                    in_grid(a, b, w, h) && integ_region(a, b, w, h) && col_lt(a, b, i as int, j as int)
                        ==> v@[idx_s(a, b, w)] == vals(a, b),
                forall|a: int, b: int|
                    #![trigger idx_s(a, b, w)]
                    in_grid(a, b, w, h) && !(integ_region(a, b, w, h) && col_lt(a, b, i as int, j as int))
                        ==> v@[idx_s(a, b, w)] == v0[idx_s(a, b, w)],
            decreases num_y - 1 - j,
        {
            proof {
                lemma_idx_bounds(i as int, j as int, w, h);
                lemma_idx_bounds(i as int, j as int - 1, w, h);
            }
            let ghost v_pre = v@;
            if s[idx(i, j, num_x)] != 0 && s[idx(i, j - 1, num_x)] != 0 {
                let cur: i64 = v[idx(i, j, num_x)];
                v.set(idx(i, j, num_x), fx_add(cur, g_dt));
            }
            proof {
                let ii = i as int;
                let jj = j as int;
                assert(v@[idx_s(ii, jj, w)] == vals(ii, jj));
                lemma_mark_step(
                    v_pre,
                    v@,
                    v0,
                    vals,
                    |a: int, b: int| integ_region(a, b, w, h) && col_lt(a, b, ii, jj),
                    |a: int, b: int| integ_region(a, b, w, h) && col_lt(a, b, ii, jj + 1),
                    w,
                    h,
                    ii,
                    jj,
                );
            }
            j = j + 1;
        }
        proof {
            assert forall|a: int, b: int| integ_region(a, b, w, h) implies (col_lt(
                a,
                b,
                i as int + 1,
                1,
            ) <==> col_lt(a, b, i as int, h - 1)) by {}
        }
        i = i + 1;
    }
    proof {
        assert forall|t: int| 0 <= t < v@.len() implies v@[t] == integ_field(
            v0,
            s@,
            w,
            h,
            dt as int,
            gravity as int,
        )[t] by {
            lemma_grid_decomp(t, w, h);
        }
        assert(v@ =~= integ_field(v0, s@, w, h, dt as int, gravity as int));
    }
}

/// The top and bottom halo rows a column scan has already rewritten.
pub open spec fn rows_done(a: int, b: int, h: int, i: int) -> bool {
    (b == 0 || b == h - 1) && a < i
}

/// As [`rows_done`], after the bottom cell of column `i` is written but
/// before the top one.
pub open spec fn rows_done_mid(a: int, b: int, h: int, i: int) -> bool {
    (b == 0 && a <= i) || (b == h - 1 && a < i)
}

/// The left and right halo columns a row scan has already rewritten.
pub open spec fn cols_done(a: int, b: int, w: int, j: int) -> bool {
    (a == 0 || a == w - 1) && b < j
}

/// As [`cols_done`], after the left cell of row `j` is written but before
/// the right one.
pub open spec fn cols_done_mid(a: int, b: int, w: int, j: int) -> bool {
    (a == 0 && b <= j) || (a == w - 1 && b < j)
}

/// The x-velocity field after boundary extrapolation: the bottom and top
/// halo rows copy the adjacent interior row.
pub open spec fn extrap_u_field(u: Seq<i64>, w: int, h: int) -> Seq<i64> {
    Seq::new(
        u.len(),
        |k: int|
            if k / w == 0 {
                u[idx_s(k % w, 1, w)]
            } else if k / w == h - 1 {
                u[idx_s(k % w, h - 2, w)]
            } else {
                u[k]
            },
    )
}

/// The y-velocity field after boundary extrapolation: the left and right
/// halo columns copy the adjacent interior column.
pub open spec fn extrap_v_field(v: Seq<i64>, w: int, h: int) -> Seq<i64> {
    Seq::new(
        v.len(),
        |k: int|
            if k % w == 0 {
                v[idx_s(1, k / w, w)]
            } else if k % w == w - 1 {
                v[idx_s(w - 2, k / w, w)]
            } else {
                v[k]
            },
    )
}

/// Boundary extrapolation: copy each halo row of `u` and halo column of `v`
/// from its adjacent interior line, so that sampling near the walls sees a
/// sensible value.
pub fn extrapolate(num_x: usize, num_y: usize, u: &mut Vec<i64>, v: &mut Vec<i64>)
    requires
        3 <= num_x,
        3 <= num_y,
        old(u)@.len() == num_x * num_y,
        old(v)@.len() == num_x * num_y,
    ensures
        final(u)@ == extrap_u_field(old(u)@, num_x as int, num_y as int),
        final(v)@ == extrap_v_field(old(v)@, num_x as int, num_y as int),
{
    let ghost w = num_x as int;
    let ghost h = num_y as int;
    let ghost u0 = u@;
    let ghost v0 = v@;
    let len: usize = u.len();
    let ghost uvals = |a: int, b: int|
        if b == 0 {
            u0[idx_s(a, 1, w)]
        } else {
            u0[idx_s(a, h - 2, w)]
        };
    let mut i: usize = 0;
    while i < num_x
        invariant
            3 <= num_x,
            3 <= num_y,
            i <= num_x,
            w == num_x as int,
            h == num_y as int,
            u0.len() == w * h,
            u@.len() == w * h,
            w * h <= usize::MAX as int,
            uvals == (|a: int, b: int|
                if b == 0 {
                    u0[idx_s(a, 1, w)]
                } else {
                    u0[idx_s(a, h - 2, w)]
                }),
            forall|a: int, b: int|
                #![trigger idx_s(a, b, w)]
                in_grid(a, b, w, h) && rows_done(a, b, h, i as int) ==> u@[idx_s(a, b, w)] == uvals(
                    a,
                    b,
                ),
            forall|a: int, b: int|
                #![trigger idx_s(a, b, w)]
                in_grid(a, b, w, h) && !rows_done(a, b, h, i as int) ==> u@[idx_s(a, b, w)] == u0[
                    idx_s(a, b, w)
                ],
        decreases num_x - i,
    {
        proof {
            lemma_idx_bounds(i as int, 0, w, h);
            lemma_idx_bounds(i as int, 1, w, h);
            lemma_idx_bounds(i as int, h - 2, w, h);
            lemma_idx_bounds(i as int, h - 1, w, h);
        }
        let ghost u_pre = u@;
        let low: i64 = u[idx(i, 1, num_x)];
        u.set(idx(i, 0, num_x), low);
        proof {
            lemma_mark_step(
                u_pre,
                u@,
                u0,
                uvals,
                |a: int, b: int| rows_done(a, b, h, i as int),
                |a: int, b: int| rows_done_mid(a, b, h, i as int),
                w,
                h,
                i as int,
                0,
            );
        }
        let ghost u_mid = u@;
        let high: i64 = u[idx(i, num_y - 2, num_x)];
        u.set(idx(i, num_y - 1, num_x), high);
        proof {
            lemma_mark_step(
                u_mid,
                u@,
                u0,
                uvals,
                |a: int, b: int| rows_done_mid(a, b, h, i as int),
                |a: int, b: int| rows_done(a, b, h, i as int + 1),
                w,
                h,
                i as int,
                h - 1,
            );
        }
        i = i + 1;
    }
    proof {
        assert forall|t: int| 0 <= t < u@.len() implies u@[t] == extrap_u_field(u0, w, h)[t] by {
            lemma_grid_decomp(t, w, h);
        }
        assert(u@ =~= extrap_u_field(u0, w, h));
    }

    let ghost vvals = |a: int, b: int|
        if a == 0 {
            v0[idx_s(1, b, w)]
        } else {
            v0[idx_s(w - 2, b, w)]
        };
    let mut j: usize = 0;
    while j < num_y
        invariant
            3 <= num_x,
            3 <= num_y,
            j <= num_y,
            w == num_x as int,
            h == num_y as int,
            v0.len() == w * h,
            v@.len() == w * h,
            w * h <= usize::MAX as int,
            vvals == (|a: int, b: int|
                if a == 0 {
                    v0[idx_s(1, b, w)]
                } else {
                    v0[idx_s(w - 2, b, w)]
                }),
            forall|a: int, b: int|
                #![trigger idx_s(a, b, w)]
                in_grid(a, b, w, h) && cols_done(a, b, w, j as int) ==> v@[idx_s(a, b, w)] == vvals(
                    a,
                    b,
                ),
            forall|a: int, b: int|
                #![trigger idx_s(a, b, w)]
                in_grid(a, b, w, h) && !cols_done(a, b, w, j as int) ==> v@[idx_s(a, b, w)] == v0[
                    idx_s(a, b, w)
                ],
        decreases num_y - j,
    {
        proof {
            lemma_idx_bounds(0, j as int, w, h);
            lemma_idx_bounds(1, j as int, w, h);
            lemma_idx_bounds(w - 2, j as int, w, h);
            lemma_idx_bounds(w - 1, j as int, w, h);
        }
        let ghost v_pre = v@;
        let left: i64 = v[idx(1, j, num_x)];
        v.set(idx(0, j, num_x), left);
        proof {
            lemma_mark_step(
                v_pre,
                v@,
                v0,
                vvals,
                |a: int, b: int| cols_done(a, b, w, j as int),
                |a: int, b: int| cols_done_mid(a, b, w, j as int),
                w,
                h,
                0,
                j as int,
            );
        }
        let ghost v_mid = v@;
        let right: i64 = v[idx(num_x - 2, j, num_x)];
        v.set(idx(num_x - 1, j, num_x), right);
        proof {
            lemma_mark_step(
                v_mid,
                v@,
                v0,
                vvals,
                |a: int, b: int| cols_done_mid(a, b, w, j as int),
                |a: int, b: int| cols_done(a, b, w, j as int + 1),
                w,
                h,
                w - 1,
                j as int,
            );
        }
        j = j + 1;
    }
    proof {
        assert forall|t: int| 0 <= t < v@.len() implies v@[t] == extrap_v_field(v0, w, h)[t] by {
            lemma_grid_decomp(t, w, h);
        }
        assert(v@ =~= extrap_v_field(v0, w, h));
    }
}

/// The solidity mask of a fresh scene: halo cells are solid walls, every
/// other cell is open fluid.
pub open spec fn scene_mask(len: nat, w: int, h: int) -> Seq<i64> {
    Seq::new(
        len,
        |k: int|
            if in_grid(k % w, k / w, w, h) && !(k % w == 0 || k % w == w - 1 || k / w == 0 || k / w
                == h - 1) {
                FX_ONE
            } else {
                0i64
            },
    )
}

/// Scene setup: mark the one-cell halo as solid walls and every interior
/// cell as open fluid.  Runs once; the mask is read-only afterwards.
pub fn setup_scene(num_x: usize, num_y: usize, s: &mut Vec<i64>)
    requires
        3 <= num_x,
        3 <= num_y,
        old(s)@.len() == num_x * num_y,
    ensures
        final(s)@ == scene_mask(old(s)@.len(), num_x as int, num_y as int),
{
    let ghost w = num_x as int;
    let ghost h = num_y as int;
    let ghost len0 = s@.len();
    let len: usize = s.len();
    let mut k: usize = 0;
    while k < len
        invariant
            3 <= num_x,
            3 <= num_y,
            k <= len,
            w == num_x as int,
            h == num_y as int,
            len as nat == len0,
            s@.len() == len0,
            len0 == w * h,
            forall|t: int| 0 <= t < k as int ==> s@[t] == scene_mask(len0, w, h)[t],
        decreases len - k,
    {
        let x: usize = k % num_x;
        let y: usize = k / num_x;
        proof {
            lemma_grid_decomp(k as int, w, h);
        }
        if x == 0 || x == num_x - 1 || y == 0 || y == num_y - 1 {
            s.set(k, 0);
        } else {
            s.set(k, FX_ONE);
        }
        k = k + 1;
    }
    proof {
        assert(s@ =~= scene_mask(len0, w, h));
    }
}

/// The grid cell under the pointer, or nothing: the pointer position is
/// given in pixels relative to the window centre, the window is
/// `grid_size * cell_size` pixels on a side, and a press outside the grid
/// selects nothing.
pub open spec fn mouse_cell(
    pressed: bool,
    mouse_x: int,
    mouse_y: int,
    grid_size: int,
    cell_size: int,
) -> Option<(u32, u32)> {
    let ws = grid_size * cell_size;
    let px = mouse_x + ws / 2;
    let py = mouse_y + ws / 2;
    if pressed && 0 <= px && 0 <= py && px / cell_size < grid_size && py / cell_size < grid_size {
        Some(((px / cell_size) as u32, (py / cell_size) as u32))
    } else {
        None
    }
}

/// Map a pressed pointer position to the grid cell under it, or `None` when
/// the pointer is not pressed or lies outside the grid.  The frame driver
/// feeds the result to the injection step.
pub fn mouse_clicked(
    pressed: bool,
    mouse_x: i64,
    mouse_y: i64,
    grid_size: u32,
    cell_size: u32,
) -> (r: Option<(u32, u32)>)
    requires
        1 <= cell_size,
        grid_size as int * cell_size as int <= u32::MAX as int,
        -0x4000_0000_0000_0000 <= mouse_x <= 0x4000_0000_0000_0000,
        -0x4000_0000_0000_0000 <= mouse_y <= 0x4000_0000_0000_0000,
    ensures
        r == mouse_cell(
            pressed,
            mouse_x as int,
            mouse_y as int,
            grid_size as int,
            cell_size as int,
        ),
{
    if !pressed {
        return None;
    }
    let ws: u64 = (grid_size as u64) * (cell_size as u64);
    let half: i64 = (ws / 2) as i64;
    let px: i64 = mouse_x + half;
    let py: i64 = mouse_y + half;
    if px < 0 || py < 0 {
        return None;
    }
    let cx: u64 = (px as u64) / (cell_size as u64);
    let cy: u64 = (py as u64) / (cell_size as u64);
    if cx < grid_size as u64 && cy < grid_size as u64 {
        Some((cx as u32, cy as u32))
    } else {
        None
    }
}

/// Bilinear sampling on the staggered grid.  The position `(x, y)` is in
/// physical units with grid spacing `h`; the field kind selects the
/// half-cell offset of the buffer being sampled (x-velocities live on
/// vertical faces, y-velocities on horizontal faces, scalars at centres).
/// The position is clamped into `[h, num * h]`, split into a cell index and
/// a fractional weight by division by `h`, and the four surrounding values
/// are blended with weights `sx = 1 - tx`, `sy = 1 - ty`.
pub open spec fn sample_s(
    kind: FieldKind,
    f: Seq<i64>,
    x: int,
    y: int,
    h: int,
    w: int,
    nh: int,
) -> int {
    let h2 = fx_div_int_s(h, 2);
    let xc = clamp_s(x, h, fx_scale_s(h, w));
    let yc = clamp_s(y, h, fx_scale_s(h, nh));
    let dx = if kind == FieldKind::XVelocity {
        0
    } else {
        h2
    };
    let dy = if kind == FieldKind::YVelocity {
        0
    } else {
        h2
    };
    let x0 = imin(fx_div_int_s(fx_sub_s(xc, dx), h), w - 1);
    let tx = fx_div_s(fx_sub_s(fx_sub_s(xc, dx), fx_scale_s(h, x0)), h);
    let x1 = imin(x0 + 1, w - 1);
    let y0 = imin(fx_div_int_s(fx_sub_s(yc, dy), h), nh - 1);
    let ty = fx_div_s(fx_sub_s(fx_sub_s(yc, dy), fx_scale_s(h, y0)), h);
    let y1 = imin(y0 + 1, nh - 1);
    let sx = fx_sub_s(FX_ONE as int, tx);
    let sy = fx_sub_s(FX_ONE as int, ty);
    fx_add_s(
        fx_add_s(
            fx_add_s(
                fx_mul_s(fx_mul_s(sx, sy), f[idx_s(x0, y0, w)] as int),
                fx_mul_s(fx_mul_s(tx, sy), f[idx_s(x1, y0, w)] as int),
            ),
            fx_mul_s(fx_mul_s(tx, ty), f[idx_s(x1, y1, w)] as int),
        ),
        fx_mul_s(fx_mul_s(sx, ty), f[idx_s(x0, y1, w)] as int),
    )
}

/// Sample the field `f` of kind `kind` at physical position `(x, y)`.
pub fn sample_field(
    kind: FieldKind,
    f: &Vec<i64>,
    x: i64,
    y: i64,
    h: i64,
    num_x: usize,
    num_y: usize,
) -> (r: i64)
    requires
        3 <= num_x,
        3 <= num_y,
        f@.len() == num_x * num_y,
        1 <= h,
        num_x as int * h as int <= i64::MAX as int,
        num_y as int * h as int <= i64::MAX as int,
    ensures
        r as int == sample_s(kind, f@, x as int, y as int, h as int, num_x as int, num_y as int),
{
    let ghost w = num_x as int;
    let ghost nh = num_y as int;
    let len: usize = f.len();
    proof {
        assert(h as int <= h as int * w && w <= w * (h as int) && h as int * w == w * (h as int))
            by (nonlinear_arith)
            requires
                1 <= h as int,
                3 <= w,
        ;
        assert(h as int <= h as int * nh && nh <= nh * (h as int) && h as int * nh == nh * (
        h as int)) by (nonlinear_arith)
            requires
                1 <= h as int,
                3 <= nh,
        ;
    }
    let h2: i64 = fx_div_int(h, 2);
    let hw: i64 = fx_scale(h, num_x as i64);
    let hn: i64 = fx_scale(h, num_y as i64);
    let xc: i64 = fx_clamp(x, h, hw);
    let yc: i64 = fx_clamp(y, h, hn);
    let dx: i64 = if kind == FieldKind::XVelocity {
        0
    } else {
        h2
    };
    let dy: i64 = if kind == FieldKind::YVelocity {
        0
    } else {
        h2
    };
    let xd: i64 = fx_sub(xc, dx);
    let yd: i64 = fx_sub(yc, dy);
    proof {
        vstd::arithmetic::div_mod::lemma_div_pos_is_pos(h as int, 2);
        vstd::arithmetic::div_mod::lemma_div_is_ordered(h as int, 2 * (h as int), 2);
        vstd::arithmetic::div_mod::lemma_div_multiples_vanish(h as int, 2);
        vstd::arithmetic::div_mod::lemma_div_pos_is_pos(xd as int, h as int);
        vstd::arithmetic::div_mod::lemma_div_pos_is_pos(yd as int, h as int);
    }
    let qx: i64 = fx_div_int(xd, h);
    let x0: i64 = if qx < (num_x as i64) - 1 {
        qx
    } else {
        (num_x as i64) - 1
    };
    let tx: i64 = fx_div(fx_sub(xd, fx_scale(h, x0)), h);
    let x1: i64 = if x0 + 1 < (num_x as i64) - 1 {
        x0 + 1
    } else {
        (num_x as i64) - 1
    };
    let qy: i64 = fx_div_int(yd, h);
    let y0: i64 = if qy < (num_y as i64) - 1 {
        qy
    } else {
        (num_y as i64) - 1
    };
    let ty: i64 = fx_div(fx_sub(yd, fx_scale(h, y0)), h);
    let y1: i64 = if y0 + 1 < (num_y as i64) - 1 {
        y0 + 1
    } else {
        (num_y as i64) - 1
    };
    let sx: i64 = fx_sub(FX_ONE, tx);
    let sy: i64 = fx_sub(FX_ONE, ty);
    proof {
        lemma_idx_bounds(x0 as int, y0 as int, w, nh);
        lemma_idx_bounds(x1 as int, y0 as int, w, nh);
        lemma_idx_bounds(x1 as int, y1 as int, w, nh);
        lemma_idx_bounds(x0 as int, y1 as int, w, nh);
    }
    let f00: i64 = f[idx(x0 as usize, y0 as usize, num_x)];
    let f10: i64 = f[idx(x1 as usize, y0 as usize, num_x)];
    let f11: i64 = f[idx(x1 as usize, y1 as usize, num_x)];
    let f01: i64 = f[idx(x0 as usize, y1 as usize, num_x)];
    fx_add(
        fx_add(
            fx_add(fx_mul(fx_mul(sx, sy), f00), fx_mul(fx_mul(tx, sy), f10)),
            fx_mul(fx_mul(tx, ty), f11),
        ),
        fx_mul(fx_mul(sx, ty), f01),
    )
}

/// The x-velocity averaged onto the horizontal face of cell `(i, j)`: the
/// mean of the four surrounding vertical-face values.
pub open spec fn avg_u_s(u: Seq<i64>, w: int, i: int, j: int) -> int {
    fx_mul_s(
        fx_add_s(
            fx_add_s(
                fx_add_s(u[idx_s(i, j - 1, w)] as int, u[idx_s(i, j, w)] as int),
                u[idx_s(i + 1, j - 1, w)] as int,
            ),
            u[idx_s(i + 1, j, w)] as int,
        ),
        FX_QUARTER as int,
    )
}

/// The y-velocity averaged onto the vertical face of cell `(i, j)`: the
/// mean of the four surrounding horizontal-face values.
pub open spec fn avg_v_s(v: Seq<i64>, w: int, i: int, j: int) -> int {
    fx_mul_s(
        fx_add_s(
            fx_add_s(
                fx_add_s(v[idx_s(i - 1, j, w)] as int, v[idx_s(i, j, w)] as int),
                v[idx_s(i - 1, j + 1, w)] as int,
            ),
            v[idx_s(i, j + 1, w)] as int,
        ),
        FX_QUARTER as int,
    )
}

/// The x-velocity at the horizontal face of cell `(i, j)`.
pub fn avg_u(u: &Vec<i64>, i: usize, j: usize, num_x: usize, num_y: usize) -> (r: i64)
    requires
        u@.len() == num_x * num_y,
        1 <= j < num_y,
        i + 1 < num_x,
    ensures
        r as int == avg_u_s(u@, num_x as int, i as int, j as int),
{
    let ghost w = num_x as int;
    let ghost nh = num_y as int;
    let len: usize = u.len();
    proof {
        lemma_idx_bounds(i as int, j as int - 1, w, nh);
        lemma_idx_bounds(i as int, j as int, w, nh);
        lemma_idx_bounds(i as int + 1, j as int - 1, w, nh);
        lemma_idx_bounds(i as int + 1, j as int, w, nh);
    }
    fx_mul(
        fx_add(
            fx_add(
                fx_add(u[idx(i, j - 1, num_x)], u[idx(i, j, num_x)]),
                u[idx(i + 1, j - 1, num_x)],
            ),
            u[idx(i + 1, j, num_x)],
        ),
        FX_QUARTER,
    )
}

/// The y-velocity at the vertical face of cell `(i, j)`.
pub fn avg_v(v: &Vec<i64>, i: usize, j: usize, num_x: usize, num_y: usize) -> (r: i64)
    requires
        v@.len() == num_x * num_y,
        1 <= i < num_x,
        j + 1 < num_y,
    ensures
        r as int == avg_v_s(v@, num_x as int, i as int, j as int),
{
    let ghost w = num_x as int;
    let ghost nh = num_y as int;
    let len: usize = v.len();
    proof {
        lemma_idx_bounds(i as int - 1, j as int, w, nh);
        lemma_idx_bounds(i as int, j as int, w, nh);
        lemma_idx_bounds(i as int - 1, j as int + 1, w, nh);
        lemma_idx_bounds(i as int, j as int + 1, w, nh);
    }
    fx_mul(
        fx_add(
            fx_add(
                fx_add(v[idx(i - 1, j, num_x)], v[idx(i, j, num_x)]),
                v[idx(i - 1, j + 1, num_x)],
            ),
            v[idx(i, j + 1, num_x)],
        ),
        FX_QUARTER,
    )
}

/// The cells the velocity advection scan visits: everything except the left
/// and bottom halo lines.
pub open spec fn vel_region(a: int, b: int, w: int, nh: int) -> bool {
    1 <= a < w && 1 <= b < nh
}

/// The advected x-velocity of cell `(i, j)`: where the cell and its left
/// face neighbour are fluid (and the cell is below the top halo), back-trace
/// from the vertical face position `(i*h, j*h + h/2)` along `(u, avg v)` and
/// sample the old x-velocity there; elsewhere the value is kept.
pub open spec fn advect_u_cell(
    u: Seq<i64>,
    v: Seq<i64>,
    s: Seq<i64>,
    w: int,
    nh: int,
    h: int,
    dt: int,
    i: int,
    j: int,
) -> int {
    if s[idx_s(i, j, w)] != 0i64 && s[idx_s(i - 1, j, w)] != 0i64 && j < nh - 1 {
        let x = fx_sub_s(fx_scale_s(h, i), fx_mul_s(dt, u[idx_s(i, j, w)] as int));
        let y = fx_sub_s(
            fx_add_s(fx_scale_s(h, j), fx_div_int_s(h, 2)),
            fx_mul_s(dt, avg_v_s(v, w, i, j)),
        );
        sample_s(FieldKind::XVelocity, u, x, y, h, w, nh)
    } else {
        u[idx_s(i, j, w)] as int
    }
}

/// The advected y-velocity of cell `(i, j)`, symmetric to
/// [`advect_u_cell`]: back-trace from the horizontal face position
/// `(i*h + h/2, j*h)` along `(avg u, v)`.
pub open spec fn advect_v_cell(
    u: Seq<i64>,
    v: Seq<i64>,
    s: Seq<i64>,
    w: int,
    nh: int,
    h: int,
    dt: int,
    i: int,
    j: int,
) -> int {
    if s[idx_s(i, j, w)] != 0i64 && s[idx_s(i, j - 1, w)] != 0i64 && i < w - 1 {
        let x = fx_sub_s(
            fx_add_s(fx_scale_s(h, i), fx_div_int_s(h, 2)),
            fx_mul_s(dt, avg_u_s(u, w, i, j)),
        );
        let y = fx_sub_s(fx_scale_s(h, j), fx_mul_s(dt, v[idx_s(i, j, w)] as int));
        sample_s(FieldKind::YVelocity, v, x, y, h, w, nh)
    } else {
        v[idx_s(i, j, w)] as int
    }
}

/// The whole x-velocity field after velocity advection.
pub open spec fn advected_u(
    u: Seq<i64>,
    v: Seq<i64>,
    s: Seq<i64>,
    w: int,
    nh: int,
    h: int,
    dt: int,
) -> Seq<i64> {
    Seq::new(
        u.len(),
        |k: int|
            if vel_region(k % w, k / w, w, nh) {
                advect_u_cell(u, v, s, w, nh, h, dt, k % w, k / w) as i64
            } else {
                u[k]
            },
    )
}

/// The whole y-velocity field after velocity advection.
pub open spec fn advected_v(
    u: Seq<i64>,
    v: Seq<i64>,
    s: Seq<i64>,
    w: int,
    nh: int,
    h: int,
    dt: int,
) -> Seq<i64> {
    Seq::new(
        v.len(),
        |k: int|
            if vel_region(k % w, k / w, w, nh) {
                advect_v_cell(u, v, s, w, nh, h, dt, k % w, k / w) as i64
            } else {
                v[k]
            },
    )
}

/// Semi-Lagrangian advection of both velocity components on the staggered
/// grid.  The scratch buffers double-buffer the pass: every new face value
/// is computed from the old fields, then both components are copied back.
#[verifier::rlimit(60)]
pub fn advect_vel(
    dt: i64,
    new_u: &mut Vec<i64>,
    new_v: &mut Vec<i64>,
    u: &mut Vec<i64>,
    v: &mut Vec<i64>,
    s: &Vec<i64>,
    num_x: usize,
    num_y: usize,
    h: i64,
)
    requires
        3 <= num_x,
        3 <= num_y,
        old(new_u)@.len() == num_x * num_y,
        old(new_v)@.len() == num_x * num_y,
        old(u)@.len() == num_x * num_y,
        old(v)@.len() == num_x * num_y,
        s@.len() == num_x * num_y,
        1 <= h,
        num_x as int * h as int <= i64::MAX as int,
        num_y as int * h as int <= i64::MAX as int,
    ensures
        final(u)@ == advected_u(old(u)@, old(v)@, s@, num_x as int, num_y as int, h as int, dt as int),
        final(v)@ == advected_v(old(u)@, old(v)@, s@, num_x as int, num_y as int, h as int, dt as int),
        final(new_u)@ == final(u)@,
        final(new_v)@ == final(v)@,
{
    let ghost w = num_x as int;
    let ghost nh = num_y as int;
    let ghost u0 = u@;
    let ghost v0 = v@;
    proof {
        assert(w <= w * (h as int) && nh <= nh * (h as int)) by (nonlinear_arith)
            requires
                1 <= h as int,
                0 <= w,
                0 <= nh,
        ;
    }
    copy_field(new_u, u);
    copy_field(new_v, v);
    let len: usize = u.len();
    let h2: i64 = fx_div_int(h, 2);
    let ghost uvals = |a: int, b: int| advect_u_cell(u0, v0, s@, w, nh, h as int, dt as int, a, b) as i64;
    let ghost vvals = |a: int, b: int| advect_v_cell(u0, v0, s@, w, nh, h as int, dt as int, a, b) as i64;
    let mut i: usize = 1;
    while i < num_x
        invariant
            3 <= num_x,
            3 <= num_y,
            1 <= i <= num_x,
            w == num_x as int,
            nh == num_y as int,
            1 <= h,
            num_x as int * h as int <= i64::MAX as int,
            num_y as int * h as int <= i64::MAX as int,
            num_x as int <= i64::MAX as int,
            num_y as int <= i64::MAX as int,
            h2 as int == fx_div_int_s(h as int, 2),
            u@ == u0,
            v@ == v0,
            u0.len() == w * nh,
            v0.len() == w * nh,
            s@.len() == w * nh,
            new_u@.len() == w * nh,
            new_v@.len() == w * nh,
            w * nh <= usize::MAX as int,
            uvals == (|a: int, b: int| advect_u_cell(u0, v0, s@, w, nh, h as int, dt as int, a, b) as i64),
            vvals == (|a: int, b: int| advect_v_cell(u0, v0, s@, w, nh, h as int, dt as int, a, b) as i64),
            forall|a: int, b: int|
                #![trigger idx_s(a, b, w)]
                in_grid(a, b, w, nh) && vel_region(a, b, w, nh) && col_lt(a, b, i as int, 1)
                    ==> new_u@[idx_s(a, b, w)] == uvals(a, b) && new_v@[idx_s(a, b, w)] == vvals(a, b),
            forall|a: int, b: int|
                #![trigger idx_s(a, b, w)]
                in_grid(a, b, w, nh) && !(vel_region(a, b, w, nh) && col_lt(a, b, i as int, 1))
                    ==> new_u@[idx_s(a, b, w)] == u0[idx_s(a, b, w)] && new_v@[idx_s(a, b, w)]
                    == v0[idx_s(a, b, w)],
        decreases num_x - i,
    {
        let mut j: usize = 1;
        while j < num_y
            invariant
                3 <= num_x,
                3 <= num_y,
                1 <= i < num_x,
                1 <= j <= num_y,
                w == num_x as int,
                nh == num_y as int,
                1 <= h,
                num_x as int * h as int <= i64::MAX as int,
                num_y as int * h as int <= i64::MAX as int,
                num_x as int <= i64::MAX as int,
                num_y as int <= i64::MAX as int,
                h2 as int == fx_div_int_s(h as int, 2),
                u@ == u0,
                v@ == v0,
                u0.len() == w * nh,
                v0.len() == w * nh,
                s@.len() == w * nh,
                new_u@.len() == w * nh,
                new_v@.len() == w * nh,
                w * nh <= usize::MAX as int,
                uvals == (|a: int, b: int| advect_u_cell(u0, v0, s@, w, nh, h as int, dt as int, a, b) as i64),
                vvals == (|a: int, b: int| advect_v_cell(u0, v0, s@, w, nh, h as int, dt as int, a, b) as i64),
                forall|a: int, b: int|
                    #![trigger idx_s(a, b, w)]
                    in_grid(a, b, w, nh) && vel_region(a, b, w, nh) && col_lt(a, b, i as int, j as int)
                        ==> new_u@[idx_s(a, b, w)] == uvals(a, b) && new_v@[idx_s(a, b, w)] == vvals(a, b),
                forall|a: int, b: int|
                    #![trigger idx_s(a, b, w)]
                    in_grid(a, b, w, nh) && !(vel_region(a, b, w, nh) && col_lt(a, b, i as int, j as int))
                        ==> new_u@[idx_s(a, b, w)] == u0[idx_s(a, b, w)] && new_v@[idx_s(a, b, w)]
                        == v0[idx_s(a, b, w)],
            decreases num_y - j,
        {
            proof {
                lemma_idx_bounds(i as int, j as int, w, nh);
                lemma_idx_bounds(i as int - 1, j as int, w, nh);
                lemma_idx_bounds(i as int, j as int - 1, w, nh);
            }
            let ghost nu_pre = new_u@;
            if s[idx(i, j, num_x)] != 0 && s[idx(i - 1, j, num_x)] != 0 && j < num_y - 1 {
                let xv: i64 = fx_sub(fx_scale(h, i as i64), fx_mul(dt, u[idx(i, j, num_x)]));
                let av: i64 = avg_v(v, i, j, num_x, num_y);
                let yv: i64 = fx_sub(fx_add(fx_scale(h, j as i64), h2), fx_mul(dt, av));
                let val: i64 = sample_field(FieldKind::XVelocity, u, xv, yv, h, num_x, num_y);
                new_u.set(idx(i, j, num_x), val);
            }
            proof {
                let ii = i as int;
                let jj = j as int;
                assert(new_u@[idx_s(ii, jj, w)] == uvals(ii, jj));
                lemma_mark_step(
                    nu_pre,
                    new_u@,
                    u0,
                    uvals,
                    |a: int, b: int| vel_region(a, b, w, nh) && col_lt(a, b, ii, jj),
                    |a: int, b: int| vel_region(a, b, w, nh) && col_lt(a, b, ii, jj + 1),
                    w,
                    nh,
                    ii,
                    jj,
                );
            }
            let ghost nv_pre = new_v@;
            if s[idx(i, j, num_x)] != 0 && s[idx(i, j - 1, num_x)] != 0 && i < num_x - 1 {
                let au: i64 = avg_u(u, i, j, num_x, num_y);
                let xv: i64 = fx_sub(fx_add(fx_scale(h, i as i64), h2), fx_mul(dt, au));
                let yv: i64 = fx_sub(fx_scale(h, j as i64), fx_mul(dt, v[idx(i, j, num_x)]));
                let val: i64 = sample_field(FieldKind::YVelocity, v, xv, yv, h, num_x, num_y);
                new_v.set(idx(i, j, num_x), val);
            }
            proof {
                let ii = i as int;
                let jj = j as int;
                assert(new_v@[idx_s(ii, jj, w)] == vvals(ii, jj));
                lemma_mark_step(
                    nv_pre,
                    new_v@,
                    v0,
                    vvals,
                    |a: int, b: int| vel_region(a, b, w, nh) && col_lt(a, b, ii, jj),
                    |a: int, b: int| vel_region(a, b, w, nh) && col_lt(a, b, ii, jj + 1),
                    w,
                    nh,
                    ii,
                    jj,
                );
                assert forall|a: int, b: int|
                    in_grid(a, b, w, nh) && vel_region(a, b, w, nh) && col_lt(a, b, ii, jj + 1)
                        implies new_u@[idx_s(a, b, w)] == uvals(a, b) by {
                    lemma_idx_bounds(a, b, w, nh);
                }
            }
            j = j + 1;
        }
        proof {
            assert forall|a: int, b: int| vel_region(a, b, w, nh) implies (col_lt(
                a,
                b,
                i as int + 1,
                1,
            ) <==> col_lt(a, b, i as int, nh)) by {}
        }
        i = i + 1;
    }
    proof {
        assert forall|t: int| 0 <= t < new_u@.len() implies new_u@[t] == advected_u(
            u0,
            v0,
            s@,
            w,
            nh,
            h as int,
            dt as int,
        )[t] by {
            lemma_grid_decomp(t, w, nh);
        }
        assert(new_u@ =~= advected_u(u0, v0, s@, w, nh, h as int, dt as int));
        assert forall|t: int| 0 <= t < new_v@.len() implies new_v@[t] == advected_v(
            u0,
            v0,
            s@,
            w,
            nh,
            h as int,
            dt as int,
        )[t] by {
            lemma_grid_decomp(t, w, nh);
        }
        assert(new_v@ =~= advected_v(u0, v0, s@, w, nh, h as int, dt as int));
    }
    copy_field(u, new_u);
    copy_field(v, new_v);
}

/// The advected smoke density of interior cell `(i, j)`: where the cell is
/// fluid, back-trace from the cell centre along the face-averaged velocity
/// and sample the old density there; solid cells keep their value.
pub open spec fn advect_m_cell(
    m: Seq<i64>,
    u: Seq<i64>,
    v: Seq<i64>,
    s: Seq<i64>,
    w: int,
    nh: int,
    h: int,
    dt: int,
    i: int,
    j: int,
) -> int {
    if s[idx_s(i, j, w)] != 0i64 {
        let uv = fx_mul_s(
            fx_add_s(u[idx_s(i, j, w)] as int, u[idx_s(i + 1, j, w)] as int),
            FX_HALF as int,
        );
        let vv = fx_mul_s(
            fx_add_s(v[idx_s(i, j, w)] as int, v[idx_s(i, j + 1, w)] as int),
            FX_HALF as int,
        );
        let x = fx_sub_s(fx_add_s(fx_scale_s(h, i), fx_div_int_s(h, 2)), fx_mul_s(dt, uv));
        let y = fx_sub_s(fx_add_s(fx_scale_s(h, j), fx_div_int_s(h, 2)), fx_mul_s(dt, vv));
        sample_s(FieldKind::Scalar, m, x, y, h, w, nh)
    } else {
        m[idx_s(i, j, w)] as int
    }
}

/// The whole smoke field after advection.
pub open spec fn advected_m(
    m: Seq<i64>,
    u: Seq<i64>,
    v: Seq<i64>,
    s: Seq<i64>,
    w: int,
    nh: int,
    h: int,
    dt: int,
) -> Seq<i64> {
    Seq::new(
        m.len(),
        |k: int|
            if interior(k % w, k / w, w, nh) {
                advect_m_cell(m, u, v, s, w, nh, h, dt, k % w, k / w) as i64
            } else {
                m[k]
            },
    )
}

/// Semi-Lagrangian advection of the smoke density on the staggered grid,
/// double-buffered through the scratch field.
#[verifier::rlimit(60)]
pub fn advect_smoke(
    dt: i64,
    h: i64,
    num_x: usize,
    num_y: usize,
    new_m: &mut Vec<i64>,
    m: &mut Vec<i64>,
    s: &Vec<i64>,
    u: &Vec<i64>,
    v: &Vec<i64>,
)
    requires
        3 <= num_x,
        3 <= num_y,
        old(new_m)@.len() == num_x * num_y,
        old(m)@.len() == num_x * num_y,
        s@.len() == num_x * num_y,
        u@.len() == num_x * num_y,
        v@.len() == num_x * num_y,
        1 <= h,
        num_x as int * h as int <= i64::MAX as int,
        num_y as int * h as int <= i64::MAX as int,
    ensures
        final(m)@ == advected_m(old(m)@, u@, v@, s@, num_x as int, num_y as int, h as int, dt as int),
        final(new_m)@ == final(m)@,
{
    let ghost w = num_x as int;
    let ghost nh = num_y as int;
    let ghost m0 = m@;
    proof {
        assert(w <= w * (h as int) && nh <= nh * (h as int)) by (nonlinear_arith)
            requires
                1 <= h as int,
                0 <= w,
                0 <= nh,
        ;
    }
    copy_field(new_m, m);
    let len: usize = m.len();
    let h2: i64 = fx_div_int(h, 2);
    let ghost mvals = |a: int, b: int| advect_m_cell(m0, u@, v@, s@, w, nh, h as int, dt as int, a, b) as i64;
    let mut i: usize = 1;
    while i < num_x - 1
        invariant
            3 <= num_x,
            3 <= num_y,
            1 <= i <= num_x - 1,
            w == num_x as int,
            nh == num_y as int,
            1 <= h,
            num_x as int * h as int <= i64::MAX as int,
            num_y as int * h as int <= i64::MAX as int,
            num_x as int <= i64::MAX as int,
            num_y as int <= i64::MAX as int,
            h2 as int == fx_div_int_s(h as int, 2),
            m@ == m0,
            m0.len() == w * nh,
            s@.len() == w * nh,
            u@.len() == w * nh,
            v@.len() == w * nh,
            new_m@.len() == w * nh,
            w * nh <= usize::MAX as int,
            mvals == (|a: int, b: int| advect_m_cell(m0, u@, v@, s@, w, nh, h as int, dt as int, a, b) as i64),
            forall|a: int, b: int|
                #![trigger idx_s(a, b, w)]
                in_grid(a, b, w, nh) && interior(a, b, w, nh) && col_lt(a, b, i as int, 1)
                    ==> new_m@[idx_s(a, b, w)] == mvals(a, b),
            forall|a: int, b: int|
                #![trigger idx_s(a, b, w)]
                in_grid(a, b, w, nh) && !(interior(a, b, w, nh) && col_lt(a, b, i as int, 1))
                    ==> new_m@[idx_s(a, b, w)] == m0[idx_s(a, b, w)],
        decreases num_x - 1 - i,
    {
        let mut j: usize = 1;
        while j < num_y - 1
            invariant
                3 <= num_x,
                3 <= num_y,
                1 <= i < num_x - 1,
                1 <= j <= num_y - 1,
                w == num_x as int,
                nh == num_y as int,
                1 <= h,
                num_x as int * h as int <= i64::MAX as int,
                num_y as int * h as int <= i64::MAX as int,
                num_x as int <= i64::MAX as int,
                num_y as int <= i64::MAX as int,
                h2 as int == fx_div_int_s(h as int, 2),
                m@ == m0,
                m0.len() == w * nh,
                s@.len() == w * nh,
                u@.len() == w * nh,
                v@.len() == w * nh,
                new_m@.len() == w * nh,
                w * nh <= usize::MAX as int,
                mvals == (|a: int, b: int| advect_m_cell(m0, u@, v@, s@, w, nh, h as int, dt as int, a, b) as i64),
                forall|a: int, b: int|
                    #![trigger idx_s(a, b, w)]
                    in_grid(a, b, w, nh) && interior(a, b, w, nh) && col_lt(a, b, i as int, j as int)
                        ==> new_m@[idx_s(a, b, w)] == mvals(a, b),
                forall|a: int, b: int|
                    #![trigger idx_s(a, b, w)]
                    in_grid(a, b, w, nh) && !(interior(a, b, w, nh) && col_lt(a, b, i as int, j as int))
                        ==> new_m@[idx_s(a, b, w)] == m0[idx_s(a, b, w)],
            decreases num_y - 1 - j,
        {
            proof {
                lemma_idx_bounds(i as int, j as int, w, nh);
                lemma_idx_bounds(i as int + 1, j as int, w, nh);
                lemma_idx_bounds(i as int, j as int + 1, w, nh);
            }
            let ghost nm_pre = new_m@;
            if s[idx(i, j, num_x)] != 0 {
                let uv: i64 = fx_mul(fx_add(u[idx(i, j, num_x)], u[idx(i + 1, j, num_x)]), FX_HALF);
                let vv: i64 = fx_mul(fx_add(v[idx(i, j, num_x)], v[idx(i, j + 1, num_x)]), FX_HALF);
                let xv: i64 = fx_sub(fx_add(fx_scale(h, i as i64), h2), fx_mul(dt, uv));
                let yv: i64 = fx_sub(fx_add(fx_scale(h, j as i64), h2), fx_mul(dt, vv));
                let val: i64 = sample_field(FieldKind::Scalar, m, xv, yv, h, num_x, num_y);
                new_m.set(idx(i, j, num_x), val);
            }
            proof {
                let ii = i as int;
                let jj = j as int;
                assert(new_m@[idx_s(ii, jj, w)] == mvals(ii, jj));
                lemma_mark_step(
                    nm_pre,
                    new_m@,
                    m0,
                    mvals,
                    |a: int, b: int| interior(a, b, w, nh) && col_lt(a, b, ii, jj),
                    |a: int, b: int| interior(a, b, w, nh) && col_lt(a, b, ii, jj + 1),
                    w,
                    nh,
                    ii,
                    jj,
                );
            }
            j = j + 1;
        }
        proof {
            assert forall|a: int, b: int| interior(a, b, w, nh) implies (col_lt(
                a,
                b,
                i as int + 1,
                1,
            ) <==> col_lt(a, b, i as int, nh - 1)) by {}
        }
        i = i + 1;
    }
    proof {
        assert forall|t: int| 0 <= t < new_m@.len() implies new_m@[t] == advected_m(
            m0,
            u@,
            v@,
            s@,
            w,
            nh,
            h as int,
            dt as int,
        )[t] by {
            lemma_grid_decomp(t, w, nh);
        }
        assert(new_m@ =~= advected_m(m0, u@, v@, s@, w, nh, h as int, dt as int));
    }
    copy_field(m, new_m);
}

/// The pressure scale `density * h / dt` of the staggered correction.
pub open spec fn cp_s(density: int, h: int, dt: int) -> int {
    fx_div_s(fx_mul_s(density, h), dt)
}

/// One cell of the over-relaxed incompressibility sweep, acting on the
/// state `(u, v, p)`.  A solid cell, or a cell with no open neighbour
/// (which would divide by zero), is skipped.  Otherwise the local
/// divergence, weighted by the open-neighbour count and the over-relaxation
/// factor, is redistributed into the four adjacent face velocities (each
/// scaled by its own solidity flag) and accumulated into the pressure.
pub open spec fn sic_cell(
    s: Seq<i64>,
    st: (Seq<i64>, Seq<i64>, Seq<i64>),
    w: int,
    cp: int,
    orx: int,
    i: int,
    j: int,
) -> (Seq<i64>, Seq<i64>, Seq<i64>) {
    let u = st.0;
    let v = st.1;
    let p = st.2;
    if s[idx_s(i, j, w)] == 0i64 {
        st
    } else {
        let sx0 = s[idx_s(i - 1, j, w)] as int;
        let sx1 = s[idx_s(i + 1, j, w)] as int;
        let sy0 = s[idx_s(i, j - 1, w)] as int;
        let sy1 = s[idx_s(i, j + 1, w)] as int;
        let ssum = fx_add_s(fx_add_s(fx_add_s(sx0, sx1), sy0), sy1);
        if ssum == 0 {
            st
        } else {
            let dv = fx_add_s(
                fx_sub_s(u[idx_s(i + 1, j, w)] as int, u[idx_s(i, j, w)] as int),
                fx_sub_s(v[idx_s(i, j + 1, w)] as int, v[idx_s(i, j, w)] as int),
            );
            let pv = fx_mul_s(fx_neg_s(fx_div_s(dv, ssum)), orx);
            (
                u.update(
                    idx_s(i, j, w),
                    fx_sub_s(u[idx_s(i, j, w)] as int, fx_mul_s(sx0, pv)) as i64,
                ).update(
                    idx_s(i + 1, j, w),
                    fx_add_s(u[idx_s(i + 1, j, w)] as int, fx_mul_s(sx1, pv)) as i64,
                ),
                v.update(
                    idx_s(i, j, w),
                    fx_sub_s(v[idx_s(i, j, w)] as int, fx_mul_s(sy0, pv)) as i64,
                ).update(
                    idx_s(i, j + 1, w),
                    fx_add_s(v[idx_s(i, j + 1, w)] as int, fx_mul_s(sy1, pv)) as i64,
                ),
                p.update(
                    idx_s(i, j, w),
                    fx_add_s(p[idx_s(i, j, w)] as int, fx_mul_s(cp, pv)) as i64,
                ),
            )
        }
    }
}

/// The state after the sweep has treated cells `(i, 1)` up to
/// `(i, j_end - 1)` of column `i`.
pub open spec fn sic_row(
    s: Seq<i64>,
    st: (Seq<i64>, Seq<i64>, Seq<i64>),
    w: int,
    nh: int,
    cp: int,
    orx: int,
    i: int,
    j_end: int,
) -> (Seq<i64>, Seq<i64>, Seq<i64>)
    decreases j_end,
{
    if j_end <= 1 {
        st
    } else {
        sic_cell(s, sic_row(s, st, w, nh, cp, orx, i, j_end - 1), w, cp, orx, i, j_end - 1)
    }
}

/// The state after the sweep has finished columns `1` up to `i_end - 1`.
pub open spec fn sic_cols(
    s: Seq<i64>,
    st: (Seq<i64>, Seq<i64>, Seq<i64>),
    w: int,
    nh: int,
    cp: int,
    orx: int,
    i_end: int,
) -> (Seq<i64>, Seq<i64>, Seq<i64>)
    decreases i_end,
{
    if i_end <= 1 {
        st
    } else {
        sic_row(s, sic_cols(s, st, w, nh, cp, orx, i_end - 1), w, nh, cp, orx, i_end - 1, nh - 1)
    }
}

/// The state after `k` complete incompressibility sweeps.
pub open spec fn sic_iters(
    s: Seq<i64>,
    st: (Seq<i64>, Seq<i64>, Seq<i64>),
    w: int,
    nh: int,
    cp: int,
    orx: int,
    k: nat,
) -> (Seq<i64>, Seq<i64>, Seq<i64>)
    decreases k,
{
    if k == 0 {
        st
    } else {
        sic_cols(s, sic_iters(s, st, w, nh, cp, orx, (k - 1) as nat), w, nh, cp, orx, w - 1)
    }
}

/// Every value of a solidity mask is either solid or open fluid.
pub open spec fn is_mask(s: Seq<i64>) -> bool {
    forall|k: int| 0 <= k < s.len() ==> s[k] == 0i64 || s[k] == FX_ONE
}

/// A partial column of the sweep keeps the field lengths.
pub proof fn lemma_sic_row_len(
    s: Seq<i64>,
    st: (Seq<i64>, Seq<i64>, Seq<i64>),
    w: int,
    nh: int,
    cp: int,
    orx: int,
    i: int,
    j_end: int,
)
    requires
        3 <= w,
        3 <= nh,
        1 <= i < w - 1,
        j_end <= nh - 1,
        st.0.len() == w * nh,
        st.1.len() == w * nh,
        st.2.len() == w * nh,
    ensures
        sic_row(s, st, w, nh, cp, orx, i, j_end).0.len() == w * nh,
        sic_row(s, st, w, nh, cp, orx, i, j_end).1.len() == w * nh,
        sic_row(s, st, w, nh, cp, orx, i, j_end).2.len() == w * nh,
    decreases j_end,
{
    if j_end > 1 {
        lemma_sic_row_len(s, st, w, nh, cp, orx, i, j_end - 1);
        lemma_idx_bounds(i, j_end - 1, w, nh);
        lemma_idx_bounds(i + 1, j_end - 1, w, nh);
        lemma_idx_bounds(i - 1, j_end - 1, w, nh);
        lemma_idx_bounds(i, j_end - 2, w, nh);
        lemma_idx_bounds(i, j_end, w, nh);
    }
}

/// A partial sweep keeps the field lengths.
pub proof fn lemma_sic_cols_len(
    s: Seq<i64>,
    st: (Seq<i64>, Seq<i64>, Seq<i64>),
    w: int,
    nh: int,
    cp: int,
    orx: int,
    i_end: int,
)
    requires
        3 <= w,
        3 <= nh,
        i_end <= w - 1,
        st.0.len() == w * nh,
        st.1.len() == w * nh,
        st.2.len() == w * nh,
    ensures
        sic_cols(s, st, w, nh, cp, orx, i_end).0.len() == w * nh,
        sic_cols(s, st, w, nh, cp, orx, i_end).1.len() == w * nh,
        sic_cols(s, st, w, nh, cp, orx, i_end).2.len() == w * nh,
    decreases i_end,
{
    if i_end > 1 {
        lemma_sic_cols_len(s, st, w, nh, cp, orx, i_end - 1);
        lemma_sic_row_len(
            s,
            sic_cols(s, st, w, nh, cp, orx, i_end - 1),
            w,
            nh,
            cp,
            orx,
            i_end - 1,
            nh - 1,
        );
    }
}

/// Any number of sweeps keeps the field lengths.
pub proof fn lemma_sic_iters_len(
    s: Seq<i64>,
    st: (Seq<i64>, Seq<i64>, Seq<i64>),
    w: int,
    nh: int,
    cp: int,
    orx: int,
    k: nat,
)
    requires
        3 <= w,
        3 <= nh,
        st.0.len() == w * nh,
        st.1.len() == w * nh,
        st.2.len() == w * nh,
    ensures
        sic_iters(s, st, w, nh, cp, orx, k).0.len() == w * nh,
        sic_iters(s, st, w, nh, cp, orx, k).1.len() == w * nh,
        sic_iters(s, st, w, nh, cp, orx, k).2.len() == w * nh,
    decreases k,
{
    if k > 0 {
        lemma_sic_iters_len(s, st, w, nh, cp, orx, (k - 1) as nat);
        lemma_sic_cols_len(s, sic_iters(s, st, w, nh, cp, orx, (k - 1) as nat), w, nh, cp, orx, w - 1);
    }
}

/// Enforce incompressibility on the staggered grid: `num_iters` over-relaxed
/// Gauss-Seidel sweeps over the interior fluid cells, each one
/// redistributing the local divergence into the adjacent open faces and
/// accumulating `density * h / dt` times the correction into the pressure.
/// Cells that are solid or fully enclosed contribute nothing.
#[verifier::rlimit(100)]
pub fn solve_incompressibility(
    num_x: usize,
    num_y: usize,
    density: i64,
    h: i64,
    s: &Vec<i64>,
    v: &mut Vec<i64>,
    u: &mut Vec<i64>,
    p: &mut Vec<i64>,
    over_relaxation: i64,
    num_iters: u32,
    dt: i64,
)
    requires
        3 <= num_x,
        3 <= num_y,
        s@.len() == num_x * num_y,
        old(u)@.len() == num_x * num_y,
        old(v)@.len() == num_x * num_y,
        old(p)@.len() == num_x * num_y,
        dt > 0,
        is_mask(s@),
    ensures
        final(u)@ == sic_iters(
            s@,
            (old(u)@, old(v)@, old(p)@),
            num_x as int,
            num_y as int,
            cp_s(density as int, h as int, dt as int),
            over_relaxation as int,
            num_iters as nat,
        ).0,
        final(v)@ == sic_iters(
            s@,
            (old(u)@, old(v)@, old(p)@),
            num_x as int,
            num_y as int,
            cp_s(density as int, h as int, dt as int),
            over_relaxation as int,
            num_iters as nat,
        ).1,
        final(p)@ == sic_iters(
            s@,
            (old(u)@, old(v)@, old(p)@),
            num_x as int,
            num_y as int,
            cp_s(density as int, h as int, dt as int),
            over_relaxation as int,
            num_iters as nat,
        ).2,
{
    let ghost w = num_x as int;
    let ghost nh = num_y as int;
    let ghost st0 = (u@, v@, p@);
    let ghost orx = over_relaxation as int;
    let len: usize = u.len();
    let cp: i64 = fx_div(fx_mul(density, h), dt);
    let ghost cpi = cp as int;
    let mut it: u32 = 0;
    while it < num_iters
        invariant
            3 <= num_x,
            3 <= num_y,
            it <= num_iters,
            w == num_x as int,
            nh == num_y as int,
            orx == over_relaxation as int,
            cpi == cp as int,
            cpi == cp_s(density as int, h as int, dt as int),
            is_mask(s@),
            st0.0.len() == w * nh,
            st0.1.len() == w * nh,
            st0.2.len() == w * nh,
            s@.len() == w * nh,
            w * nh <= usize::MAX as int,
            (u@, v@, p@) == sic_iters(s@, st0, w, nh, cpi, orx, it as nat),
        decreases num_iters - it,
    {
        proof {
            lemma_sic_iters_len(s@, st0, w, nh, cpi, orx, it as nat);
        }
        let ghost sweep_base = (u@, v@, p@);
        let mut i: usize = 1;
        while i < num_x - 1
            invariant
                3 <= num_x,
                3 <= num_y,
                1 <= i <= num_x - 1,
                w == num_x as int,
                nh == num_y as int,
                orx == over_relaxation as int,
                cpi == cp as int,
                is_mask(s@),
                sweep_base.0.len() == w * nh,
                sweep_base.1.len() == w * nh,
                sweep_base.2.len() == w * nh,
                s@.len() == w * nh,
                w * nh <= usize::MAX as int,
                (u@, v@, p@) == sic_cols(s@, sweep_base, w, nh, cpi, orx, i as int),
            decreases num_x - 1 - i,
        {
            proof {
                lemma_sic_cols_len(s@, sweep_base, w, nh, cpi, orx, i as int);
            }
            let ghost col_base = (u@, v@, p@);
            let mut j: usize = 1;
            while j < num_y - 1
                invariant
                    3 <= num_x,
                    3 <= num_y,
                    1 <= i < num_x - 1,
                    1 <= j <= num_y - 1,
                    w == num_x as int,
                    nh == num_y as int,
                    orx == over_relaxation as int,
                    cpi == cp as int,
                    is_mask(s@),
                    col_base.0.len() == w * nh,
                    col_base.1.len() == w * nh,
                    col_base.2.len() == w * nh,
                    s@.len() == w * nh,
                    w * nh <= usize::MAX as int,
                    (u@, v@, p@) == sic_row(s@, col_base, w, nh, cpi, orx, i as int, j as int),
                decreases num_y - 1 - j,
            {
                proof {
                    lemma_sic_row_len(s@, col_base, w, nh, cpi, orx, i as int, j as int);
                    lemma_idx_bounds(i as int, j as int, w, nh);
                    lemma_idx_bounds(i as int - 1, j as int, w, nh);
                    lemma_idx_bounds(i as int + 1, j as int, w, nh);
                    lemma_idx_bounds(i as int, j as int - 1, w, nh);
                    lemma_idx_bounds(i as int, j as int + 1, w, nh);
                }
                let ghost cur = (u@, v@, p@);
                if s[idx(i, j, num_x)] != 0 {
                    let sx0: i64 = s[idx(i - 1, j, num_x)];
                    let sx1: i64 = s[idx(i + 1, j, num_x)];
                    let sy0: i64 = s[idx(i, j - 1, num_x)];
                    let sy1: i64 = s[idx(i, j + 1, num_x)];
                    let ssum: i64 = fx_add(fx_add(fx_add(sx0, sx1), sy0), sy1);
                    if ssum != 0 {
                        proof {
                            assert(ssum > 0);
                        }
                        let u_c: i64 = u[idx(i, j, num_x)];
                        let u_r: i64 = u[idx(i + 1, j, num_x)];
                        let v_c: i64 = v[idx(i, j, num_x)];
                        let v_t: i64 = v[idx(i, j + 1, num_x)];
                        let p_c: i64 = p[idx(i, j, num_x)];
                        let dv: i64 = fx_add(fx_sub(u_r, u_c), fx_sub(v_t, v_c));
                        let pv: i64 = fx_mul(fx_neg(fx_div(dv, ssum)), over_relaxation);
                        u.set(idx(i, j, num_x), fx_sub(u_c, fx_mul(sx0, pv)));
                        u.set(idx(i + 1, j, num_x), fx_add(u_r, fx_mul(sx1, pv)));
                        v.set(idx(i, j, num_x), fx_sub(v_c, fx_mul(sy0, pv)));
                        v.set(idx(i, j + 1, num_x), fx_add(v_t, fx_mul(sy1, pv)));
                        p.set(idx(i, j, num_x), fx_add(p_c, fx_mul(cp, pv)));
                    }
                }
                proof {
                    let ii = i as int;
                    let jj = j as int;
                    assert((u@, v@, p@) == sic_cell(s@, cur, w, cpi, orx, ii, jj));
                    assert((u@, v@, p@) == sic_row(s@, col_base, w, nh, cpi, orx, ii, jj + 1));
                }
                j = j + 1;
            }
            proof {
                assert((u@, v@, p@) == sic_cols(s@, sweep_base, w, nh, cpi, orx, i as int + 1));
            }
            i = i + 1;
        }
        proof {
            assert((u@, v@, p@) == sic_iters(s@, st0, w, nh, cpi, orx, it as nat + 1));
        }
        it = it + 1;
    }
}

/// Advection idempotence on zero velocity, staggered variant: when both
/// velocity fields are zero everywhere, the smoke advection pass hands
/// every interior cell its old value unchanged.
pub proof fn lemma_advect_smoke_zero_velocity(
    m: Seq<i64>,
    u: Seq<i64>,
    v: Seq<i64>,
    s: Seq<i64>,
    w: int,
    nh: int,
    h: int,
    dt: int,
    i: int,
    j: int,
)
    requires
        3 <= w,
        3 <= nh,
        m.len() == w * nh,
        u.len() == w * nh,
        v.len() == w * nh,
        s.len() == w * nh,
        1 <= h,
        w * h <= i64::MAX as int,
        nh * h <= i64::MAX as int,
        forall|k: int| 0 <= k < u.len() ==> u[k] == 0i64,
        forall|k: int| 0 <= k < v.len() ==> v[k] == 0i64,
        interior(i, j, w, nh),
    ensures
        advected_m(m, u, v, s, w, nh, h, dt)[idx_s(i, j, w)] == m[idx_s(i, j, w)],
{
    lemma_idx_bounds(i, j, w, nh);
    lemma_grid_decomp(idx_s(i, j, w), w, nh);
    if s[idx_s(i, j, w)] != 0i64 {
        lemma_idx_bounds(i + 1, j, w, nh);
        lemma_idx_bounds(i, j + 1, w, nh);
        crate::fixed::lemma_fx_mul_zero(FX_HALF as int);
        crate::fixed::lemma_fx_mul_zero(dt);
        assert(h * i <= h * (w - 1) && h * (w - 1) + h == h * w && 0 <= h * i && h <= h * i && h
            * w == w * h) by (nonlinear_arith)
            requires
                1 <= h,
                1 <= i <= w - 1,
        ;
        assert(h * j <= h * (nh - 1) && h * (nh - 1) + h == h * nh && 0 <= h * j && h <= h * j && h
            * nh == nh * h) by (nonlinear_arith)
            requires
                1 <= h,
                1 <= j <= nh - 1,
        ;
        vstd::arithmetic::div_mod::lemma_div_pos_is_pos(h, 2);
        vstd::arithmetic::div_mod::lemma_div_is_ordered(h, 2 * h, 2);
        vstd::arithmetic::div_mod::lemma_div_multiples_vanish(h, 2);
        let h2 = fx_div_int_s(h, 2);
        assert(h2 == h / 2);
        let x = fx_sub_s(fx_add_s(fx_scale_s(h, i), h2), fx_mul_s(dt, 0));
        assert(x == h * i + h / 2);
        let y = fx_sub_s(fx_add_s(fx_scale_s(h, j), h2), fx_mul_s(dt, 0));
        assert(y == h * j + h / 2);
        // The clamp is a no-op: the cell centre is inside the sampleable
        // range, and subtracting the scalar half-cell offset lands exactly
        // on the face coordinate h * i.
        assert(clamp_s(x, h, fx_scale_s(h, w)) == x);
        assert(fx_sub_s(clamp_s(x, h, fx_scale_s(h, w)), h2) == h * i);
        assert(fx_sub_s(clamp_s(y, h, fx_scale_s(h, nh)), h2) == h * j);
        vstd::arithmetic::div_mod::lemma_div_multiples_vanish(i, h);
        vstd::arithmetic::div_mod::lemma_div_multiples_vanish(j, h);
        assert(h * i / h == i);
        assert(fx_div_int_s(h * i, h) == i);
        assert(imin(fx_div_int_s(h * i, h), w - 1) == i);
        assert(fx_sub_s(h * i, fx_scale_s(h, i)) == 0);
        assert(fx_div_s(0, h) == 0) by {
            vstd::arithmetic::div_mod::lemma_div_pos_is_pos(0, h);
            vstd::arithmetic::div_mod::lemma_div_nonincreasing(0, h);
        }
        let f00 = m[idx_s(i, j, w)] as int;
        crate::fixed::lemma_fx_mul_one(FX_ONE as int);
        crate::fixed::lemma_fx_mul_one(f00);
        crate::fixed::lemma_fx_mul_zero(FX_ONE as int);
        crate::fixed::lemma_fx_mul_zero(m[idx_s(i + 1, j, w)] as int);
        crate::fixed::lemma_fx_mul_zero(m[idx_s(i + 1, j + 1, w)] as int);
        crate::fixed::lemma_fx_mul_zero(m[idx_s(i, j + 1, w)] as int);
        assert(sample_s(FieldKind::Scalar, m, x, y, h, w, nh) == f00);
    }
}

} // verus!
