//! The boundary enforcer: after a relaxation or advection pass over the
//! interior, the one-cell border is rewritten so that interior updates see
//! physically sensible neighbour values.
//!
//! The policy is keyed by the kind of field.  An x-velocity field mirrors
//! the adjacent interior column at the left and right walls with the sign
//! flipped and copies it at the top and bottom; a y-velocity field does the
//! symmetric thing; a scalar field copies the adjacent interior value on all
//! four sides.  Each corner becomes the mean of its two adjacent border
//! cells and its own previous value.

use vstd::prelude::*;

use crate::fixed::fx_add;
use crate::fixed::fx_add_s;
use crate::fixed::fx_div_int;
use crate::fixed::fx_div_int_s;
use crate::fixed::fx_neg;
use crate::fixed::fx_neg_s;
use crate::grid::idx;
use crate::grid::idx_s;
use crate::grid::in_grid;
use crate::grid::lemma_grid_decomp;
use crate::grid::lemma_idx_bounds;

verus! {

broadcast use crate::grid::lemma_idx_inj_auto;

/// The closed set of field kinds that selects the boundary policy (and,
/// on a staggered grid, the half-cell sampling offset).
#[derive(Clone, Copy, PartialEq, Eq, Structural, Debug)]
pub enum FieldKind {
    /// A velocity x-component, stored at vertical cell faces.
    XVelocity,
    /// A velocity y-component, stored at horizontal cell faces.
    YVelocity,
    /// A cell-centred scalar such as smoke density or pressure.
    Scalar,
}

/// The mean of two adjacent border cells and the corner's own previous
/// value, as the corner update computes it.
pub open spec fn avg3_s(a: int, b: int, c: int) -> int {
    fx_div_int_s(fx_add_s(fx_add_s(a, b), c), 3)
}

/// Value of left-wall cell `(0, y)` after enforcement.
pub open spec fn sb_left(kind: FieldKind, s: Seq<i64>, n: int, y: int) -> int {
    if kind == FieldKind::XVelocity {
        fx_neg_s(s[idx_s(1, y, n)] as int)
    } else {
        s[idx_s(1, y, n)] as int
    }
}

/// Value of right-wall cell `(n-1, y)` after enforcement.
pub open spec fn sb_right(kind: FieldKind, s: Seq<i64>, n: int, y: int) -> int {
    if kind == FieldKind::XVelocity {
        fx_neg_s(s[idx_s(n - 2, y, n)] as int)
    } else {
        s[idx_s(n - 2, y, n)] as int
    }
}

/// Value of bottom-wall cell `(x, 0)` after enforcement.
pub open spec fn sb_bottom(kind: FieldKind, s: Seq<i64>, n: int, x: int) -> int {
    if kind == FieldKind::YVelocity {
        fx_neg_s(s[idx_s(x, 1, n)] as int)
    } else {
        s[idx_s(x, 1, n)] as int
    }
}

/// Value of top-wall cell `(x, n-1)` after enforcement.
pub open spec fn sb_top(kind: FieldKind, s: Seq<i64>, n: int, x: int) -> int {
    if kind == FieldKind::YVelocity {
        fx_neg_s(s[idx_s(x, n - 2, n)] as int)
    } else {
        s[idx_s(x, n - 2, n)] as int
    }
}

/// Value of cell `(x, y)` after boundary enforcement of the field `s`.
/// Interior cells keep their value; walls take the mirrored or copied
/// neighbour; corners average their two (already rewritten) wall
/// neighbours with their own previous value.
pub open spec fn sb_val(kind: FieldKind, s: Seq<i64>, n: int, x: int, y: int) -> int {
    if 1 <= x < n - 1 && 1 <= y < n - 1 {
        s[idx_s(x, y, n)] as int
    } else if x == 0 && y == 0 {
        avg3_s(sb_bottom(kind, s, n, 1), sb_left(kind, s, n, 1), s[idx_s(0, 0, n)] as int)
    } else if x == n - 1 && y == 0 {
        avg3_s(sb_bottom(kind, s, n, n - 2), sb_right(kind, s, n, 1), s[idx_s(n - 1, 0, n)] as int)
    } else if x == 0 && y == n - 1 {
        avg3_s(sb_top(kind, s, n, 1), sb_left(kind, s, n, n - 2), s[idx_s(0, n - 1, n)] as int)
    } else if x == n - 1 && y == n - 1 {
        avg3_s(
            sb_top(kind, s, n, n - 2),
            sb_right(kind, s, n, n - 2),
            s[idx_s(n - 1, n - 1, n)] as int,
        )
    } else if x == 0 {
        sb_left(kind, s, n, y)
    } else if x == n - 1 {
        sb_right(kind, s, n, y)
    } else if y == 0 {
        sb_bottom(kind, s, n, x)
    } else {
        sb_top(kind, s, n, x)
    }
}

/// The whole field after boundary enforcement.
pub open spec fn sb(kind: FieldKind, s: Seq<i64>, n: int) -> Seq<i64> {
    Seq::new(s.len(), |k: int| sb_val(kind, s, n, k % n, k / n) as i64)
}

/// A wall cell `(x, y)` whose running coordinate is below `i`, i.e. one the
/// edge loop has already rewritten.
pub open spec fn edge_done(x: int, y: int, n: int, i: int) -> bool {
    ||| ((x == 0 || x == n - 1) && 1 <= y < i)
    ||| ((y == 0 || y == n - 1) && 1 <= x < i)
}

/// One round of the edge loop preserves its invariant: the four wall cells
/// at running coordinate `ii` now hold their enforced values, and nothing
/// else moved.
proof fn lemma_edge_step(
    kind: FieldKind,
    s0: Seq<i64>,
    x_pre: Seq<i64>,
    x_post: Seq<i64>,
    v1: i64,
    v2: i64,
    v3: i64,
    v4: i64,
    ni: int,
    ii: int,
)
    requires
        3 <= ni,
        1 <= ii < ni - 1,
        s0.len() == ni * ni,
        x_pre.len() == ni * ni,
        forall|a: int, b: int|
            in_grid(a, b, ni, ni) && edge_done(a, b, ni, ii) ==> #[trigger] x_pre[idx_s(
                a,
                b,
                ni,
            )] as int == sb_val(kind, s0, ni, a, b),
        forall|a: int, b: int|
            in_grid(a, b, ni, ni) && !edge_done(a, b, ni, ii) ==> #[trigger] x_pre[idx_s(a, b, ni)]
                == s0[idx_s(a, b, ni)],
        v1 as int == sb_val(kind, s0, ni, 0, ii),
        v2 as int == sb_val(kind, s0, ni, ni - 1, ii),
        v3 as int == sb_val(kind, s0, ni, ii, 0),
        v4 as int == sb_val(kind, s0, ni, ii, ni - 1),
        x_post == x_pre.update(idx_s(0, ii, ni), v1).update(idx_s(ni - 1, ii, ni), v2).update(
            idx_s(ii, 0, ni),
            v3,
        ).update(idx_s(ii, ni - 1, ni), v4),
    ensures
        forall|a: int, b: int|
            in_grid(a, b, ni, ni) && edge_done(a, b, ni, ii + 1) ==> #[trigger] x_post[idx_s(
                a,
                b,
                ni,
            )] as int == sb_val(kind, s0, ni, a, b),
        forall|a: int, b: int|
            in_grid(a, b, ni, ni) && !edge_done(a, b, ni, ii + 1) ==> #[trigger] x_post[idx_s(
                a,
                b,
                ni,
            )] == s0[idx_s(a, b, ni)],
{
    lemma_idx_bounds(0, ii, ni, ni);
    lemma_idx_bounds(ni - 1, ii, ni, ni);
    lemma_idx_bounds(ii, 0, ni, ni);
    lemma_idx_bounds(ii, ni - 1, ni, ni);
    assert forall|a: int, b: int|
        in_grid(a, b, ni, ni) && edge_done(a, b, ni, ii + 1) implies x_post[idx_s(
        a,
        b,
        ni,
    )] as int == sb_val(kind, s0, ni, a, b) by {
        lemma_idx_bounds(a, b, ni, ni);
        if a == 0 && b == ii {
            assert(x_post[idx_s(a, b, ni)] == v1);
        } else if a == ni - 1 && b == ii {
            assert(x_post[idx_s(a, b, ni)] == v2);
        } else if b == 0 && a == ii {
            assert(x_post[idx_s(a, b, ni)] == v3);
        } else if b == ni - 1 && a == ii {
            assert(x_post[idx_s(a, b, ni)] == v4);
        } else {
            assert(edge_done(a, b, ni, ii));
            assert(x_post[idx_s(a, b, ni)] == x_pre[idx_s(a, b, ni)]);
        }
    }
    assert forall|a: int, b: int|
        in_grid(a, b, ni, ni) && !edge_done(a, b, ni, ii + 1) implies x_post[idx_s(a, b, ni)]
        == s0[idx_s(a, b, ni)] by {
        lemma_idx_bounds(a, b, ni, ni);
        assert(!edge_done(a, b, ni, ii));
        assert(x_post[idx_s(a, b, ni)] == x_pre[idx_s(a, b, ni)]);
    }
}

/// Rewrite the one-cell border of the square field `x` (side `n`) according
/// to the boundary policy of `kind`.  Runs in O(n); every cell of the result
/// is pinned down by [`sb_val`].
#[verifier::rlimit(60)]
pub fn enforce_boundary(kind: FieldKind, x: &mut Vec<i64>, n: usize)
    requires
        3 <= n,
        old(x)@.len() == n * n,
    ensures
        final(x)@ == sb(kind, old(x)@, n as int),
{
    let ghost s0 = x@;
    let ghost ni = n as int;
    let ghost mut x_pre = x@;
    let len: usize = x.len();
    assert(idx_s(ni - 1, ni - 1, ni) < ni * ni) by {
        lemma_idx_bounds(ni - 1, ni - 1, ni, ni);
    }
    let mut i: usize = 1;
    while i < n - 1
        invariant
            3 <= n,
            1 <= i <= n - 1,
            ni == n as int,
            x@.len() == s0.len(),
            s0.len() == ni * ni,
            ni * ni <= usize::MAX as int,
            forall|a: int, b: int|
                in_grid(a, b, ni, ni) && edge_done(a, b, ni, i as int) ==> #[trigger] x@[idx_s(
                    a,
                    b,
                    ni,
                )] as int == sb_val(kind, s0, ni, a, b),
            forall|a: int, b: int|
                in_grid(a, b, ni, ni) && !edge_done(a, b, ni, i as int) ==> #[trigger] x@[idx_s(
                    a,
                    b,
                    ni,
                )] == s0[idx_s(a, b, ni)],
        decreases n - 1 - i,
    {
        proof {
            x_pre = x@;
            lemma_idx_bounds(0, i as int, ni, ni);
            lemma_idx_bounds(ni - 1, i as int, ni, ni);
            lemma_idx_bounds(i as int, 0, ni, ni);
            lemma_idx_bounds(i as int, ni - 1, ni, ni);
            lemma_idx_bounds(1, i as int, ni, ni);
            lemma_idx_bounds(ni - 2, i as int, ni, ni);
            lemma_idx_bounds(i as int, 1, ni, ni);
            lemma_idx_bounds(i as int, ni - 2, ni, ni);
        }
        let t_left: i64 = x[idx(1, i, n)];
        let v_left: i64 = if kind == FieldKind::XVelocity {
            fx_neg(t_left)
        } else {
            t_left
        };
        x.set(idx(0, i, n), v_left);

        let t_right: i64 = x[idx(n - 2, i, n)];
        let v_right: i64 = if kind == FieldKind::XVelocity {
            fx_neg(t_right)
        } else {
            t_right
        };
        x.set(idx(n - 1, i, n), v_right);

        let t_bottom: i64 = x[idx(i, 1, n)];
        let v_bottom: i64 = if kind == FieldKind::YVelocity {
            fx_neg(t_bottom)
        } else {
            t_bottom
        };
        x.set(idx(i, 0, n), v_bottom);

        let t_top: i64 = x[idx(i, n - 2, n)];
        let v_top: i64 = if kind == FieldKind::YVelocity {
            fx_neg(t_top)
        } else {
            t_top
        };
        x.set(idx(i, n - 1, n), v_top);

        proof {
            let ii = i as int;
            assert(x@[idx_s(0, ii, ni)] == v_left);
            assert(x@[idx_s(ni - 1, ii, ni)] == v_right);
            assert(x@[idx_s(ii, 0, ni)] == v_bottom);
            assert(x@[idx_s(ii, ni - 1, ni)] == v_top);
            assert(t_left == s0[idx_s(1, ii, ni)]);
            assert(t_right == s0[idx_s(ni - 2, ii, ni)]);
            assert(t_bottom == s0[idx_s(ii, 1, ni)]);
            assert(t_top == s0[idx_s(ii, ni - 2, ni)]);
            assert(v_left as int == sb_val(kind, s0, ni, 0, ii));
            assert(v_right as int == sb_val(kind, s0, ni, ni - 1, ii));
            assert(v_bottom as int == sb_val(kind, s0, ni, ii, 0));
            assert(v_top as int == sb_val(kind, s0, ni, ii, ni - 1));
            assert(x@ == x_pre.update(idx_s(0, ii, ni), v_left).update(
                idx_s(ni - 1, ii, ni),
                v_right,
            ).update(idx_s(ii, 0, ni), v_bottom).update(idx_s(ii, ni - 1, ni), v_top));
            lemma_edge_step(kind, s0, x_pre, x@, v_left, v_right, v_bottom, v_top, ni, ii);
        }
        i = i + 1;
    }

    proof {
        lemma_idx_bounds(0, 0, ni, ni);
        lemma_idx_bounds(ni - 1, 0, ni, ni);
        lemma_idx_bounds(0, ni - 1, ni, ni);
        lemma_idx_bounds(ni - 1, ni - 1, ni, ni);
        lemma_idx_bounds(1, 0, ni, ni);
        lemma_idx_bounds(0, 1, ni, ni);
        lemma_idx_bounds(ni - 2, 0, ni, ni);
        lemma_idx_bounds(ni - 1, 1, ni, ni);
        lemma_idx_bounds(1, ni - 1, ni, ni);
        lemma_idx_bounds(0, ni - 2, ni, ni);
        lemma_idx_bounds(ni - 2, ni - 1, ni, ni);
        lemma_idx_bounds(ni - 1, ni - 2, ni, ni);
    }
    let c00: i64 = fx_div_int(fx_add(fx_add(x[idx(1, 0, n)], x[idx(0, 1, n)]), x[idx(0, 0, n)]), 3);
    x.set(idx(0, 0, n), c00);
    let c10: i64 = fx_div_int(
        fx_add(fx_add(x[idx(n - 2, 0, n)], x[idx(n - 1, 1, n)]), x[idx(n - 1, 0, n)]),
        3,
    );
    x.set(idx(n - 1, 0, n), c10);
    let c01: i64 = fx_div_int(
        fx_add(fx_add(x[idx(1, n - 1, n)], x[idx(0, n - 2, n)]), x[idx(0, n - 1, n)]),
        3,
    );
    x.set(idx(0, n - 1, n), c01);
    let c11: i64 = fx_div_int(
        fx_add(fx_add(x[idx(n - 2, n - 1, n)], x[idx(n - 1, n - 2, n)]), x[idx(n - 1, n - 1, n)]),
        3,
    );
    x.set(idx(n - 1, n - 1, n), c11);

    proof {
        assert forall|k: int| 0 <= k < s0.len() implies x@[k] == sb(kind, s0, ni)[k] by {
            lemma_grid_decomp(k, ni, ni);
            let a = k % ni;
            let b = k / ni;
            assert(x@[idx_s(a, b, ni)] as int == sb_val(kind, s0, ni, a, b));
        }
        assert(x@ =~= sb(kind, s0, ni));
    }
}

/// Boundary mirroring law: after enforcement, each left or right wall cell
/// of an x-velocity field is the sign-flipped copy of its interior
/// neighbour, and each wall cell of a scalar field is the plain copy.
pub proof fn lemma_boundary_mirroring(s: Seq<i64>, n: int, j: int)
    requires
        3 <= n,
        s.len() == n * n,
        1 <= j < n - 1,
    ensures
        sb(FieldKind::XVelocity, s, n)[idx_s(0, j, n)] as int == fx_neg_s(
            s[idx_s(1, j, n)] as int,
        ),
        sb(FieldKind::XVelocity, s, n)[idx_s(n - 1, j, n)] as int == fx_neg_s(
            s[idx_s(n - 2, j, n)] as int,
        ),
        sb(FieldKind::Scalar, s, n)[idx_s(0, j, n)] == s[idx_s(1, j, n)],
        sb(FieldKind::Scalar, s, n)[idx_s(n - 1, j, n)] == s[idx_s(n - 2, j, n)],
        sb(FieldKind::YVelocity, s, n)[idx_s(j, 0, n)] as int == fx_neg_s(
            s[idx_s(j, 1, n)] as int,
        ),
        sb(FieldKind::YVelocity, s, n)[idx_s(j, n - 1, n)] as int == fx_neg_s(
            s[idx_s(j, n - 2, n)] as int,
        ),
{
    lemma_idx_bounds(0, j, n, n);
    lemma_idx_bounds(n - 1, j, n, n);
    lemma_idx_bounds(j, 0, n, n);
    lemma_idx_bounds(j, n - 1, n, n);
    lemma_grid_decomp(idx_s(0, j, n), n, n);
    lemma_grid_decomp(idx_s(n - 1, j, n), n, n);
    lemma_grid_decomp(idx_s(j, 0, n), n, n);
    lemma_grid_decomp(idx_s(j, n - 1, n), n, n);
}

} // verus!
