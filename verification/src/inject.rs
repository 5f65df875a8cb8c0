//! Forcing and injection: external impulses added at a single grid cell.
//!
//! The cell is selected from pointer input by the surrounding frame driver,
//! which has already converted screen coordinates to grid coordinates and
//! range-checked them; an out-of-range cell here is a programming error,
//! ruled out by the preconditions.

use vstd::prelude::*;

use crate::fixed::fx_add;
use crate::fixed::fx_add_s;
use crate::grid::idx;
use crate::grid::idx_s;

verus! {

/// Add `amount` of density at cell `(x, y)` of a field of width `w`.
/// Exactly one cell changes, by exactly the fixed-point sum.
pub fn inject_density(m: &mut Vec<i64>, x: usize, y: usize, amount: i64, w: usize)
    requires
        x < w,
        0 <= idx_s(x as int, y as int, w as int) < old(m)@.len(),
    ensures
        final(m)@.len() == old(m)@.len(),
        final(m)@[idx_s(x as int, y as int, w as int)] as int == fx_add_s(
            old(m)@[idx_s(x as int, y as int, w as int)] as int,
            amount as int,
        ),
        forall|k: int|
            0 <= k < old(m)@.len() && k != idx_s(x as int, y as int, w as int) ==> final(m)@[k]
                == old(m)@[k],
{
    let len: usize = m.len();
    let k: usize = idx(x, y, w);
    let current: i64 = m[k];
    m.set(k, fx_add(current, amount));
}

/// Add a velocity impulse `(amount_x, amount_y)` at cell `(x, y)` of the
/// velocity fields `u` and `v` of width `w`.  Exactly one cell of each
/// component changes, by exactly the fixed-point sum.
pub fn inject_velocity(
    u: &mut Vec<i64>,
    v: &mut Vec<i64>,
    x: usize,
    y: usize,
    amount_x: i64,
    amount_y: i64,
    w: usize,
)
    requires
        x < w,
        0 <= idx_s(x as int, y as int, w as int) < old(u)@.len(),
        0 <= idx_s(x as int, y as int, w as int) < old(v)@.len(),
    ensures
        final(u)@.len() == old(u)@.len(),
        final(v)@.len() == old(v)@.len(),
        final(u)@[idx_s(x as int, y as int, w as int)] as int == fx_add_s(
            old(u)@[idx_s(x as int, y as int, w as int)] as int,
            amount_x as int,
        ),
        final(v)@[idx_s(x as int, y as int, w as int)] as int == fx_add_s(
            old(v)@[idx_s(x as int, y as int, w as int)] as int,
            amount_y as int,
        ),
        forall|k: int|
            0 <= k < old(u)@.len() && k != idx_s(x as int, y as int, w as int) ==> final(u)@[k]
                == old(u)@[k],
        forall|k: int|
            0 <= k < old(v)@.len() && k != idx_s(x as int, y as int, w as int) ==> final(v)@[k]
                == old(v)@[k],
{
    let len_u: usize = u.len();
    let ku: usize = idx(x, y, w);
    let cu: i64 = u[ku];
    u.set(ku, fx_add(cu, amount_x));
    let len_v: usize = v.len();
    let kv: usize = idx(x, y, w);
    let cv: i64 = v[kv];
    v.set(kv, fx_add(cv, amount_y));
}

} // verus!
