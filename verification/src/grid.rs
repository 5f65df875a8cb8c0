//! Flat storage for grid fields and the 2-D to 1-D index mapping.
//!
//! Every field of a `w`-by-`h` grid is a `Vec<i64>` of exactly `w * h`
//! fixed-point values, addressed row-major: cell `(x, y)` lives at
//! `x + y * w`.  The same convention is used for every field of a run.

use vstd::prelude::*;

verus! {

/// Flat offset of cell `(x, y)` on a grid of width `w`, row-major.
pub open spec fn idx_s(x: int, y: int, w: int) -> int {
    x + y * w
}

/// `(x, y)` lies on the `w`-by-`h` grid.
pub open spec fn in_grid(x: int, y: int, w: int, h: int) -> bool {
    0 <= x < w && 0 <= y < h
}

/// `(x, y)` is an interior cell: not on the one-cell border.
pub open spec fn interior(x: int, y: int, w: int, h: int) -> bool {
    1 <= x < w - 1 && 1 <= y < h - 1
}

/// The flat offset of an in-range cell addresses a field of `w * h` values.
pub proof fn lemma_idx_bounds(x: int, y: int, w: int, h: int)
    requires
        in_grid(x, y, w, h),
    ensures
        0 <= idx_s(x, y, w),
        idx_s(x, y, w) < w * h,
{
    assert(0 <= x + y * w) by (nonlinear_arith)
        requires
            0 <= x,
            0 <= y,
            0 < w,
    ;
    assert(x + y * w < w * h) by (nonlinear_arith)
        requires
            0 <= x < w,
            0 <= y < h,
    ;
}

/// A flat offset of a field decomposes into unique grid coordinates.
pub proof fn lemma_grid_decomp(k: int, w: int, h: int)
    requires
        1 <= w,
        1 <= h,
        0 <= k < w * h,
    ensures
        idx_s(k % w, k / w, w) == k,
        in_grid(k % w, k / w, w, h),
{
    vstd::arithmetic::div_mod::lemma_fundamental_div_mod(k, w);
    vstd::arithmetic::div_mod::lemma_mod_division_less_than_divisor(k, w);
    vstd::arithmetic::div_mod::lemma_div_pos_is_pos(k, w);
    assert(k / w < h) by (nonlinear_arith)
        requires
            k < w * h,
            1 <= w,
            k == w * (k / w) + k % w,
            0 <= k % w,
    ;
    assert(k % w + (k / w) * w == w * (k / w) + k % w) by (nonlinear_arith);
}

/// Two flat offsets on the same grid agree exactly when the cells do.
pub broadcast proof fn lemma_idx_inj_auto(x1: int, y1: int, x2: int, y2: int, w: int)
    requires
        0 <= x1 < w,
        0 <= x2 < w,
        0 <= y1,
        0 <= y2,
    ensures
        #![trigger idx_s(x1, y1, w), idx_s(x2, y2, w)]
        (idx_s(x1, y1, w) == idx_s(x2, y2, w)) <==> (x1 == x2 && y1 == y2),
{
    if idx_s(x1, y1, w) == idx_s(x2, y2, w) {
        let k = idx_s(x1, y1, w);
        vstd::arithmetic::div_mod::lemma_fundamental_div_mod_converse_mod(k, w, y1, x1);
        vstd::arithmetic::div_mod::lemma_fundamental_div_mod_converse_div(k, w, y1, x1);
        vstd::arithmetic::div_mod::lemma_fundamental_div_mod_converse_mod(k, w, y2, x2);
        vstd::arithmetic::div_mod::lemma_fundamental_div_mod_converse_div(k, w, y2, x2);
        assert(y1 * w + x1 == w * y1 + x1) by (nonlinear_arith);
        assert(y2 * w + x2 == w * y2 + x2) by (nonlinear_arith);
    }
}

/// The interior cells a row-major interior sweep has visited before
/// reaching cell `(i, j)`.
pub open spec fn lex_done(a: int, b: int, n: int, i: int, j: int) -> bool {
    interior(a, b, n, n) && (b < j || (b == j && a < i))
}

/// One write of a row-major interior pass preserves its invariant: visited
/// cells hold the pass's value, unvisited cells still hold the original.
pub proof fn lemma_lex_step(
    x_pre: Seq<i64>,
    x_post: Seq<i64>,
    orig: Seq<i64>,
    vals: spec_fn(int, int) -> i64,
    n: int,
    i: int,
    j: int,
)
    requires
        3 <= n,
        1 <= i < n - 1,
        1 <= j < n - 1,
        orig.len() == n * n,
        x_pre.len() == n * n,
        forall|a: int, b: int|
            #![trigger idx_s(a, b, n)]
            in_grid(a, b, n, n) && lex_done(a, b, n, i, j) ==> x_pre[idx_s(a, b, n)] == vals(a, b),
        forall|a: int, b: int|
            #![trigger idx_s(a, b, n)]
            in_grid(a, b, n, n) && !lex_done(a, b, n, i, j) ==> x_pre[idx_s(a, b, n)] == orig[
                idx_s(a, b, n)
            ],
        x_post == x_pre.update(idx_s(i, j, n), vals(i, j)),
    ensures
        forall|a: int, b: int|
            #![trigger idx_s(a, b, n)]
            in_grid(a, b, n, n) && lex_done(a, b, n, i + 1, j) ==> x_post[idx_s(a, b, n)] == vals(
                a,
                b,
            ),
        forall|a: int, b: int|
            #![trigger idx_s(a, b, n)]
            in_grid(a, b, n, n) && !lex_done(a, b, n, i + 1, j) ==> x_post[idx_s(a, b, n)] == orig[
                idx_s(a, b, n)
            ],
{
    broadcast use lemma_idx_inj_auto;

    lemma_idx_bounds(i, j, n, n);
    assert forall|a: int, b: int|
        in_grid(a, b, n, n) && lex_done(a, b, n, i + 1, j) implies #[trigger] x_post[idx_s(
        a,
        b,
        n,
    )] == vals(a, b) by {
        lemma_idx_bounds(a, b, n, n);
        if a == i && b == j {
            assert(x_post[idx_s(i, j, n)] == vals(i, j));
        } else {
            assert(lex_done(a, b, n, i, j));
        }
    }
    assert forall|a: int, b: int|
        in_grid(a, b, n, n) && !lex_done(a, b, n, i + 1, j) implies #[trigger] x_post[idx_s(
        a,
        b,
        n,
    )] == orig[idx_s(a, b, n)] by {
        lemma_idx_bounds(a, b, n, n);
        assert(!lex_done(a, b, n, i, j));
    }
}

/// One cell of a single-writer pass preserves its invariant, for any
/// visit order: `done_post` marks exactly the cells of `done_pre` plus the
/// cell `(i, j)` just given its pass value.
pub proof fn lemma_mark_step(
    x_pre: Seq<i64>,
    x_post: Seq<i64>,
    orig: Seq<i64>,
    vals: spec_fn(int, int) -> i64,
    done_pre: spec_fn(int, int) -> bool,
    done_post: spec_fn(int, int) -> bool,
    w: int,
    h: int,
    i: int,
    j: int,
)
    requires
        1 <= w,
        1 <= h,
        in_grid(i, j, w, h),
        orig.len() == w * h,
        x_pre.len() == w * h,
        x_post.len() == w * h,
        forall|a: int, b: int| #[trigger]
            done_post(a, b) <==> done_pre(a, b) || (a == i && b == j),
        forall|a: int, b: int|
            #![trigger idx_s(a, b, w)]
            in_grid(a, b, w, h) && done_pre(a, b) ==> x_pre[idx_s(a, b, w)] == vals(a, b),
        forall|a: int, b: int|
            #![trigger idx_s(a, b, w)]
            in_grid(a, b, w, h) && !done_pre(a, b) ==> x_pre[idx_s(a, b, w)] == orig[idx_s(a, b, w)],
        x_post[idx_s(i, j, w)] == vals(i, j),
        forall|k: int| 0 <= k < w * h && k != idx_s(i, j, w) ==> x_post[k] == x_pre[k],
    ensures
        forall|a: int, b: int|
            #![trigger idx_s(a, b, w)]
            in_grid(a, b, w, h) && done_post(a, b) ==> x_post[idx_s(a, b, w)] == vals(a, b),
        forall|a: int, b: int|
            #![trigger idx_s(a, b, w)]
            in_grid(a, b, w, h) && !done_post(a, b) ==> x_post[idx_s(a, b, w)] == orig[
                idx_s(a, b, w)
            ],
{
    broadcast use lemma_idx_inj_auto;

    lemma_idx_bounds(i, j, w, h);
    assert forall|a: int, b: int|
        in_grid(a, b, w, h) && done_post(a, b) implies x_post[idx_s(a, b, w)] == vals(a, b) by {
        lemma_idx_bounds(a, b, w, h);
        if a == i && b == j {
        } else {
            assert(done_pre(a, b));
        }
    }
    assert forall|a: int, b: int|
        in_grid(a, b, w, h) && !done_post(a, b) implies x_post[idx_s(a, b, w)] == orig[
        idx_s(a, b, w)
    ] by {
        lemma_idx_bounds(a, b, w, h);
        assert(!done_pre(a, b));
        assert(!(a == i && b == j));
    }
}

/// Flat offset of cell `(x, y)` on a grid of width `w`.  The caller is
/// responsible for staying in range: out-of-range coordinates are a
/// programming error, ruled out by the precondition.
pub fn idx(x: usize, y: usize, w: usize) -> (r: usize)
    requires
        x < w,
        idx_s(x as int, y as int, w as int) <= usize::MAX as int,
    ensures
        r as int == idx_s(x as int, y as int, w as int),
{
    x + y * w
}

/// A freshly allocated field: `len` cells, all holding `value`.
pub fn make_field(len: usize, value: i64) -> (v: Vec<i64>)
    ensures
        v@.len() == len as nat,
        forall|k: int| 0 <= k < len as int ==> v@[k] == value,
{
    let mut v: Vec<i64> = Vec::new();
    let mut i: usize = 0;
    while i < len
        invariant
            i <= len,
            v@.len() == i as nat,
            forall|k: int| 0 <= k < i as int ==> v@[k] == value,
        decreases len - i,
    {
        v.push(value);
        i = i + 1;
    }
    v
}

/// Overwrite `dst` with the contents of `src` (the stage-boundary copy of
/// a double-buffered pass).
pub fn copy_field(dst: &mut Vec<i64>, src: &Vec<i64>)
    requires
        old(dst)@.len() == src@.len(),
    ensures
        final(dst)@ == src@,
{
    let mut i: usize = 0;
    let n: usize = src.len();
    while i < n
        invariant
            i <= n,
            n == src@.len(),
            dst@.len() == src@.len(),
            forall|k: int| 0 <= k < i as int ==> dst@[k] == src@[k],
        decreases n - i,
    {
        let x: i64 = src[i];
        dst.set(i, x);
        i = i + 1;
    }
    assert(dst@ =~= src@);
}

} // verus!
