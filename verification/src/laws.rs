use vstd::prelude::*;

use vstd::arithmetic::div_mod::{
    lemma_fundamental_div_mod,
    lemma_fundamental_div_mod_converse,
    lemma_mod_bound,
};

use crate::propagate::{
    apply_cell,
    cell_update,
    dest_col,
    pair_x,
    pair_y,
    step_rec,
    step_spec,
    write_index,
    write_value,
};

verus! {

/// Two cells of different rows occupy different linear indices.
proof fn lemma_rows_disjoint(w: int, r1: int, r2: int, c1: int, c2: int)
    by (nonlinear_arith)
    requires
        w >= 1,
        0 <= c1 < w,
        0 <= c2 < w,
        r1 != r2,
    ensures
        r1 * w + c1 != r2 * w + c2,
{
}

/// The `k`-th source cell of a step is a real cell: its column lies in
/// `[0, w)`, its row in `[1, h)`, and `k` decomposes over them.
proof fn lemma_pair_bounds(k: int, w: int, h: int)
    requires
        w >= 1,
        h >= 2,
        0 <= k < w * (h - 1),
    ensures
        0 <= pair_x(k, h) < w,
        1 <= pair_y(k, h) < h,
        k == pair_x(k, h) * (h - 1) + (pair_y(k, h) - 1),
{
    lemma_fundamental_div_mod(k, h - 1);
    lemma_mod_bound(k, h - 1);
    let q = k / (h - 1);
    let r = k % (h - 1);
    assert(0 <= q < w) by (nonlinear_arith)
        requires
            k == (h - 1) * q + r,
            0 <= r < h - 1,
            0 <= k < w * (h - 1),
            h >= 2,
    ;
    assert(k == q * (h - 1) + r) by (nonlinear_arith)
        requires
            k == (h - 1) * q + r,
    ;
}

/// The index written by the `k`-th source cell lies strictly above the bottom
/// row, inside the buffer.
proof fn lemma_write_index_range(v: u8, w: int, h: int, x: int, y: int, drift: int, d: int)
    requires
        w >= 1,
        h >= 2,
        0 <= x < w,
        1 <= y < h,
    ensures
        0 <= write_index(v, w, x, y, drift, d) < (h - 1) * w,
        (y - 1) * w <= write_index(v, w, x, y, drift, d) < (y - 1) * w + w,
{
    let c = if v == 0 {
        x
    } else {
        dest_col(x, drift, d, w)
    };
    assert(0 <= c < w);
    assert(0 <= (y - 1) * w + c && (y - 1) * w + c < (h - 1) * w) by (nonlinear_arith)
        requires
            0 <= c < w,
            1 <= y < h,
            w >= 1,
    ;
}

/// The step fold never changes the length of the working buffer.
proof fn lemma_step_rec_len(
    a: Seq<u8>,
    b: Seq<u8>,
    w: int,
    h: int,
    drift: int,
    ds: Seq<u8>,
    k: int,
)
    requires
        w >= 1,
        h >= 2,
        b.len() == w * h,
        ds.len() <= w * (h - 1),
    ensures
        step_rec(a, b, w, h, drift, ds, k).len() == b.len(),
    decreases ds.len() - k,
{
    if 0 <= k < ds.len() {
        lemma_pair_bounds(k, w, h);
        let x = pair_x(k, h);
        let y = pair_y(k, h);
        let v = a[y * w + x];
        lemma_write_index_range(v, w, h, x, y, drift, ds[k] as int);
        assert((h - 1) * w < w * h) by (nonlinear_arith)
            requires
                w >= 1,
                h >= 2,
        ;
        let b2 = apply_cell(a, b, w, x, y, drift, ds[k] as int);
        lemma_step_rec_len(a, b2, w, h, drift, ds, k + 1);
    }
}

/// No source cell writes into the bottom row, so the step fold leaves it as
/// the working buffer had it.
proof fn lemma_step_rec_bottom_row(
    a: Seq<u8>,
    b: Seq<u8>,
    w: int,
    h: int,
    drift: int,
    ds: Seq<u8>,
    k: int,
)
    requires
        w >= 1,
        h >= 2,
        b.len() == w * h,
        ds.len() <= w * (h - 1),
    ensures
        forall|j: int|
            (h - 1) * w <= j < w * h ==> #[trigger] step_rec(a, b, w, h, drift, ds, k)[j] == b[j],
    decreases ds.len() - k,
{
    if 0 <= k < ds.len() {
        lemma_pair_bounds(k, w, h);
        let x = pair_x(k, h);
        let y = pair_y(k, h);
        let d = ds[k] as int;
        let v = a[y * w + x];
        lemma_write_index_range(v, w, h, x, y, drift, d);
        assert((h - 1) * w < w * h) by (nonlinear_arith)
            requires
                w >= 1,
                h >= 2,
        ;
        let b2 = apply_cell(a, b, w, x, y, drift, d);
        lemma_step_rec_bottom_row(a, b2, w, h, drift, ds, k + 1);
        assert forall|j: int| (h - 1) * w <= j < w * h implies #[trigger] step_rec(
            a,
            b,
            w,
            h,
            drift,
            ds,
            k,
        )[j] == b[j] by {
            assert(b2[j] == b[j]);
            assert(step_rec(a, b, w, h, drift, ds, k) == step_rec(a, b2, w, h, drift, ds, k + 1));
            assert(step_rec(a, b2, w, h, drift, ds, k + 1)[j] == b2[j]);
        }
    }
}

/// If the source row `y0` of the pre-step buffer is entirely cold, then once
/// the fold has run to completion the row above it is entirely cold: every
/// write into that row comes from row `y0`, and every such write is cold.
proof fn lemma_step_rec_cold_row(
    a: Seq<u8>,
    b: Seq<u8>,
    w: int,
    h: int,
    drift: int,
    ds: Seq<u8>,
    k: int,
    y0: int,
)
    requires
        w >= 1,
        h >= 2,
        b.len() == w * h,
        ds.len() == w * (h - 1),
        0 <= k <= ds.len(),
        1 <= y0 < h,
        forall|j: int| y0 * w <= j < y0 * w + w ==> a[j] == 0,
        forall|j: int|
            (y0 - 1) * w <= j < (y0 - 1) * w + w && (j - (y0 - 1) * w) * (h - 1) + (y0 - 1) < k
                ==> b[j] == 0,
    ensures
        forall|j: int|
            (y0 - 1) * w <= j < (y0 - 1) * w + w ==> #[trigger] step_rec(
                a,
                b,
                w,
                h,
                drift,
                ds,
                k,
            )[j] == 0,
    decreases ds.len() - k,
{
    if k >= ds.len() {
        assert forall|j: int| (y0 - 1) * w <= j < (y0 - 1) * w + w implies #[trigger] step_rec(
            a,
            b,
            w,
            h,
            drift,
            ds,
            k,
        )[j] == 0 by {
            let x0 = j - (y0 - 1) * w;
            assert(x0 * (h - 1) + (y0 - 1) < k && 0 <= j < w * h) by (nonlinear_arith)
                requires
                    0 <= x0 < w,
                    1 <= y0 < h,
                    h >= 2,
                    k == w * (h - 1),
                    j == (y0 - 1) * w + x0,
            ;
            assert(b[j] == 0);
            assert(step_rec(a, b, w, h, drift, ds, k) == b);
        }
    } else {
        lemma_pair_bounds(k, w, h);
        let x = pair_x(k, h);
        let y = pair_y(k, h);
        let d = ds[k] as int;
        let v = a[y * w + x];
        lemma_write_index_range(v, w, h, x, y, drift, d);
        assert((h - 1) * w < w * h) by (nonlinear_arith)
            requires
                w >= 1,
                h >= 2,
        ;
        let wi = write_index(v, w, x, y, drift, d);
        let b2 = apply_cell(a, b, w, x, y, drift, d);
        assert forall|j: int|
            (y0 - 1) * w <= j < (y0 - 1) * w + w && (j - (y0 - 1) * w) * (h - 1) + (y0 - 1) < k
                + 1 implies b2[j] == 0 by {
            let x0 = j - (y0 - 1) * w;
            assert(0 <= j < w * h) by (nonlinear_arith)
                requires
                    0 <= x0 < w,
                    1 <= y0 < h,
                    j == (y0 - 1) * w + x0,
                    w >= 1,
                    h >= 2,
            ;
            if y == y0 {
                // The source sits in the all-cold row, so it writes a cold
                // cell directly above itself.
                assert(a[y0 * w + x] == 0);
                assert(v == 0);
                assert(wi == (y0 - 1) * w + x);
                if x0 * (h - 1) + (y0 - 1) < k {
                    if j != wi {
                        assert(b2[j] == b[j]);
                    }
                } else {
                    assert(x0 * (h - 1) + (y0 - 1) == k);
                    assert(x0 == x) by (nonlinear_arith)
                        requires
                            x0 * (h - 1) + (y0 - 1) == k,
                            k == x * (h - 1) + (y - 1),
                            y == y0,
                            h >= 2,
                    ;
                    assert(j == wi);
                    assert(b2[j] == write_value(v, d));
                }
            } else {
                // The write of this source cell lands in a different row.
                lemma_rows_disjoint(w, y - 1, y0 - 1, wi - (y - 1) * w, x0);
                assert(wi != j);
                assert(b2[j] == b[j]);
                if x0 * (h - 1) + (y0 - 1) >= k {
                    // Index k belongs to row y, not to row y0.
                    assert(x0 * (h - 1) + (y0 - 1) <= k);
                    lemma_fundamental_div_mod_converse(k, h - 1, x0, y0 - 1);
                    assert(y0 - 1 == k % (h - 1));
                    lemma_fundamental_div_mod_converse(k, h - 1, x, y - 1);
                    assert(false);
                }
                assert(b[j] == 0);
            }
        }
        lemma_step_rec_cold_row(a, b2, w, h, drift, ds, k + 1, y0);
        assert forall|j: int| (y0 - 1) * w <= j < (y0 - 1) * w + w implies #[trigger] step_rec(
            a,
            b,
            w,
            h,
            drift,
            ds,
            k,
        )[j] == 0 by {
            assert(step_rec(a, b, w, h, drift, ds, k) == step_rec(a, b2, w, h, drift, ds, k + 1));
            assert(step_rec(a, b2, w, h, drift, ds, k + 1)[j] == 0);
        }
    }
}

/// A fully cold source row keeps the row above it fully cold across one step:
/// cold never self-reignites, and nothing else can reach that row.
pub proof fn lemma_cold_row_stays_cold(
    a: Seq<u8>,
    w: int,
    h: int,
    drift: int,
    ds: Seq<u8>,
    y0: int,
)
    requires
        w >= 1,
        h >= 2,
        a.len() == w * h,
        ds.len() == w * (h - 1),
        1 <= y0 < h,
        forall|j: int| y0 * w <= j < y0 * w + w ==> a[j] == 0,
    ensures
        forall|j: int|
            (y0 - 1) * w <= j < (y0 - 1) * w + w ==> #[trigger] step_spec(a, w, h, drift, ds)[j]
                == 0,
{
    assert forall|j: int|
        (y0 - 1) * w <= j < (y0 - 1) * w + w && (j - (y0 - 1) * w) * (h - 1) + (y0 - 1) < 0
            implies a[j] == 0 by {
        let x0 = j - (y0 - 1) * w;
        assert(x0 * (h - 1) + (y0 - 1) >= 0) by (nonlinear_arith)
            requires
                0 <= x0,
                1 <= y0,
                h >= 2,
        ;
    }
    lemma_step_rec_cold_row(a, a, w, h, drift, ds, 0, y0);
}

/// The bottom row — the perpetual heat source — is never touched by a step.
pub proof fn lemma_bottom_row_unchanged(a: Seq<u8>, w: int, h: int, drift: int, ds: Seq<u8>)
    requires
        w >= 1,
        h >= 1,
        a.len() == w * h,
        ds.len() == w * (h - 1),
    ensures
        forall|j: int|
            (h - 1) * w <= j < w * h ==> #[trigger] step_spec(a, w, h, drift, ds)[j] == a[j],
{
    if h >= 2 {
        lemma_step_rec_bottom_row(a, a, w, h, drift, ds, 0);
    } else {
        assert(w * (h - 1) == 0) by (nonlinear_arith)
            requires
                h == 1,
        ;
        assert(ds.len() == 0);
    }
}

/// A grid with no heat anywhere stays that way across a step: there is no
/// spontaneous heat, whatever the drift bias and the decay draws.
pub proof fn lemma_all_zero_stays_zero(a: Seq<u8>, w: int, h: int, drift: int, ds: Seq<u8>)
    requires
        w >= 1,
        h >= 1,
        a.len() == w * h,
        ds.len() == w * (h - 1),
        forall|j: int| 0 <= j < a.len() ==> a[j] == 0,
    ensures
        step_spec(a, w, h, drift, ds).len() == a.len(),
        forall|j: int| 0 <= j < a.len() ==> #[trigger] step_spec(a, w, h, drift, ds)[j] == 0,
{
    if h == 1 {
        assert(w * (h - 1) == 0) by (nonlinear_arith)
            requires
                h == 1,
        ;
        assert(ds.len() == 0);
        return;
    }
    lemma_step_rec_len(a, a, w, h, drift, ds, 0);
    lemma_bottom_row_unchanged(a, w, h, drift, ds);
    assert forall|j: int| 0 <= j < a.len() implies #[trigger] step_spec(a, w, h, drift, ds)[j]
        == 0 by {
        if j < (h - 1) * w {
            lemma_fundamental_div_mod(j, w);
            lemma_mod_bound(j, w);
            let r = j / w;
            let c = j % w;
            assert(0 <= r < h - 1) by (nonlinear_arith)
                requires
                    j == w * r + c,
                    0 <= c < w,
                    0 <= j < (h - 1) * w,
                    w >= 1,
                    h >= 2,
            ;
            let y0 = r + 1;
            assert forall|j2: int| y0 * w <= j2 < y0 * w + w implies a[j2] == 0 by {
                assert(0 <= j2 < w * h) by (nonlinear_arith)
                    requires
                        y0 * w <= j2 < y0 * w + w,
                        1 <= y0 < h,
                        w >= 1,
                ;
            }
            lemma_cold_row_stays_cold(a, w, h, drift, ds, y0);
            assert(r * w <= j < r * w + w) by (nonlinear_arith)
                requires
                    j == w * r + c,
                    0 <= c < w,
            ;
            assert((y0 - 1) * w <= j < (y0 - 1) * w + w);
        }
    }
}

/// A cold cell writes cold directly above itself: the single-cell update of a
/// source with intensity 0 sets the cell one row up to 0.
pub proof fn lemma_cold_cell_stays_cold(s: Seq<u8>, w: int, x: int, y: int, drift: int, d: int)
    requires
        w >= 1,
        0 <= x < w,
        1 <= y,
        0 <= (y - 1) * w + x < s.len(),
        s[y * w + x] == 0,
    ensures
        cell_update(s, w, x, y, drift, d)[(y - 1) * w + x] == 0,
{
}

} // verus!
