use vstd::prelude::*;

use vstd::arithmetic::div_mod::lemma_fundamental_div_mod_converse;

use rand::Rng;

use crate::grid::{HeatGrid, MAX_INTENSITY, lemma_index_in_range};

verus! {

/// Highest value the per-cell decay jitter can take.
pub const MAX_DECAY: u8 = 3;

/// Destination column of a hot source cell at column `x`: shifted right by the
/// drift bias, left by the decay jitter, and clamped into `[0, w)` so that the
/// flame never wraps into a neighbouring row.
pub open spec fn dest_col(x: int, drift: int, d: int, w: int) -> int {
    let c = x + drift - d;
    if c < 0 {
        0
    } else if c >= w {
        w - 1
    } else {
        c
    }
}

/// Linear index written by the source cell at `(x, y)` holding intensity `v`:
/// one row up, directly above for a cold cell, drifted sideways otherwise.
pub open spec fn write_index(v: u8, w: int, x: int, y: int, drift: int, d: int) -> int {
    if v == 0 {
        (y - 1) * w + x
    } else {
        (y - 1) * w + dest_col(x, drift, d, w)
    }
}

/// Intensity written by a source cell holding `v`: cold stays cold, and a hot
/// cell cools by one level exactly when the decay jitter is odd.
pub open spec fn write_value(v: u8, d: int) -> u8 {
    if v == 0 {
        0u8
    } else {
        (v - d % 2) as u8
    }
}

/// One cell's contribution to a step: read the source at `(x, y)` from the
/// pre-step buffer `a` and write one row above into the working buffer `b`.
pub open spec fn apply_cell(
    a: Seq<u8>,
    b: Seq<u8>,
    w: int,
    x: int,
    y: int,
    drift: int,
    d: int,
) -> Seq<u8> {
    let v = a[y * w + x];
    b.update(write_index(v, w, x, y, drift, d), write_value(v, d))
}

/// A single-cell update where source and destination live in the same buffer;
/// source and destination rows differ, so no aliasing can arise within one cell.
pub open spec fn cell_update(s: Seq<u8>, w: int, x: int, y: int, drift: int, d: int) -> Seq<u8> {
    apply_cell(s, s, w, x, y, drift, d)
}

/// Source column of the `k`-th cell processed by a step (columns outermost).
pub open spec fn pair_x(k: int, h: int) -> int {
    k / (h - 1)
}

/// Source row of the `k`-th cell processed by a step (rows 1..h innermost).
pub open spec fn pair_y(k: int, h: int) -> int {
    1 + k % (h - 1)
}

/// The step as a fold: starting from the working buffer `b`, apply the source
/// cells `k`, `k+1`, ... with their decay draws `ds`, reading every source
/// from the pre-step buffer `a`.
pub open spec fn step_rec(
    a: Seq<u8>,
    b: Seq<u8>,
    w: int,
    h: int,
    drift: int,
    ds: Seq<u8>,
    k: int,
) -> Seq<u8>
    decreases ds.len() - k,
{
    if k < 0 || k >= ds.len() {
        b
    } else {
        step_rec(
            a,
            apply_cell(a, b, w, pair_x(k, h), pair_y(k, h), drift, ds[k] as int),
            w,
            h,
            drift,
            ds,
            k + 1,
        )
    }
}

/// One full simulation step of the buffer `a` under the decay draws `ds`,
/// one draw per source cell.
pub open spec fn step_spec(a: Seq<u8>, w: int, h: int, drift: int, ds: Seq<u8>) -> Seq<u8> {
    step_rec(a, a, w, h, drift, ds, 0)
}

/// A valid family of decay draws for one step: one per source cell, each in
/// `0..=3`.
pub open spec fn decays_ok(ds: Seq<u8>, w: int, h: int) -> bool {
    &&& ds.len() == w * (h - 1)
    &&& forall|i: int| 0 <= i < ds.len() ==> ds[i] <= MAX_DECAY
}

#[verifier::external_type_specification]
#[verifier::external_body]
pub struct ExThreadRng(rand::rngs::ThreadRng);

/// Relies on rand::thread_rng for a handle to the thread-local generator;
/// nothing is assumed about the values it will produce.
#[verifier::external_body]
fn fresh_rng() -> rand::rngs::ThreadRng {
    rand::thread_rng()
}

/// Relies on rand::Rng::gen_range over the non-empty inclusive range 0..=3:
/// the draw is uniform over that range, so it never exceeds 3.
#[verifier::external_body]
fn draw_decay(rng: &mut rand::rngs::ThreadRng) -> (d: u8)
    ensures
        d <= MAX_DECAY,
{
    rng.gen_range(0..=MAX_DECAY)
}

/// The clamped destination column, computed in executable code.
fn dest_col_exec(x: usize, drift_bias: i32, d: u8, w: usize) -> (c: usize)
    requires
        x < w,
    ensures
        c == dest_col(x as int, drift_bias as int, d as int, w as int),
        c < w,
{
    let raw: i128 = x as i128 + drift_bias as i128 - d as i128;
    if raw < 0 {
        0
    } else if raw >= w as i128 {
        w - 1
    } else {
        raw as usize
    }
}

/// Performs the single write of one source cell into the working buffer.
/// `v` is the source intensity, already read from the pre-step buffer.
fn write_spread(
    cells: &mut Vec<u8>,
    w: usize,
    h: usize,
    x: usize,
    y: usize,
    drift_bias: i32,
    d: u8,
    v: u8,
)
    requires
        old(cells).len() == w * h,
        x < w,
        1 <= y < h,
        v <= MAX_INTENSITY,
    ensures
        final(cells)@ == old(cells)@.update(
            write_index(v, w as int, x as int, y as int, drift_bias as int, d as int),
            write_value(v, d as int),
        ),
{
    let n: usize = cells.len();
    if v == 0 {
        proof {
            lemma_index_in_range(w as int, h as int, x as int, y - 1);
            assert((y - 1) * w + x < n);
        }
        let idx: usize = (y - 1) * w + x;
        cells.set(idx, 0);
    } else {
        let dc: usize = dest_col_exec(x, drift_bias, d, w);
        proof {
            lemma_index_in_range(w as int, h as int, dc as int, y - 1);
            assert((y - 1) * w + dc < n);
        }
        let idx: usize = (y - 1) * w + dc;
        assert(d & 1 == d % 2) by (bit_vector);
        cells.set(idx, v - (d & 1));
    }
}

/// Advances one source cell of the grid by one step with an explicit decay
/// jitter, writing its contribution one row above in place.
pub fn spread_cell(grid: &mut HeatGrid, x: usize, y: usize, drift_bias: i32, decay: u8)
    requires
        old(grid).wf(),
        x < old(grid).width,
        1 <= y < old(grid).height,
        decay <= MAX_DECAY,
    ensures
        final(grid).wf(),
        final(grid).width == old(grid).width,
        final(grid).height == old(grid).height,
        final(grid)@ == cell_update(
            old(grid)@,
            old(grid).width as int,
            x as int,
            y as int,
            drift_bias as int,
            decay as int,
        ),
{
    let w: usize = grid.width;
    let h: usize = grid.height;
    let n: usize = grid.cells.len();
    proof {
        lemma_index_in_range(w as int, h as int, x as int, y as int);
        assert(y * w + x < n);
    }
    let v: u8 = grid.cells[y * w + x];
    write_spread(&mut grid.cells, w, h, x, y, drift_bias, decay, v);
    proof {
        let wi = write_index(v, w as int, x as int, y as int, drift_bias as int, decay as int);
        if v == 0 {
            lemma_index_in_range(w as int, h as int, x as int, y - 1);
        } else {
            lemma_index_in_range(
                w as int,
                h as int,
                dest_col(x as int, drift_bias as int, decay as int, w as int),
                y - 1,
            );
        }
        assert(0 <= wi < grid@.len());
        assert(write_value(v, decay as int) <= MAX_INTENSITY);
        assert forall|i: int| 0 <= i < grid@.len() implies grid@[i] <= MAX_INTENSITY by {
            if i != wi {
                assert(grid@[i] == old(grid)@[i]);
            }
        }
    }
}

/// Advances one source cell of the grid by one step, drawing the decay jitter
/// at random; the outcome is one of the explicit-decay updates.
pub fn spread_fire(grid: &mut HeatGrid, x: usize, y: usize, drift_bias: i32)
    requires
        old(grid).wf(),
        x < old(grid).width,
        1 <= y < old(grid).height,
    ensures
        final(grid).wf(),
        final(grid).width == old(grid).width,
        final(grid).height == old(grid).height,
        exists|d: u8|
            d <= MAX_DECAY && final(grid)@ == cell_update(
                old(grid)@,
                old(grid).width as int,
                x as int,
                y as int,
                drift_bias as int,
                d as int,
            ),
{
    let mut rng = fresh_rng();
    let d: u8 = draw_decay(&mut rng);
    spread_cell(grid, x, y, drift_bias, d);
}

/// An element-for-element copy of the intensity buffer, used as the read-only
/// pre-step snapshot of a full step.
fn copy_cells(v: &Vec<u8>) -> (r: Vec<u8>)
    ensures
        r@ == v@,
{
    let mut r: Vec<u8> = Vec::new();
    let mut i: usize = 0;
    while i < v.len()
        invariant
            i <= v@.len(),
            r@.len() == i,
            forall|j: int| 0 <= j < i ==> r@[j] == v@[j],
        decreases v@.len() - i,
    {
        r.push(v[i]);
        i = i + 1;
    }
    proof {
        assert(r@ =~= v@);
    }
    r
}

/// One random decay jitter per source cell of a step.
fn draw_decays(n: usize) -> (r: Vec<u8>)
    ensures
        r@.len() == n,
        forall|i: int| 0 <= i < n ==> r@[i] <= MAX_DECAY,
{
    let mut rng = fresh_rng();
    let mut r: Vec<u8> = Vec::new();
    let mut i: usize = 0;
    while i < n
        invariant
            i <= n,
            r@.len() == i,
            forall|j: int| 0 <= j < i ==> r@[j] <= MAX_DECAY,
        decreases n - i,
    {
        let d: u8 = draw_decay(&mut rng);
        r.push(d);
        i = i + 1;
    }
    r
}

/// Advances the whole grid by one simulation step with an explicit decay draw
/// for every source cell, so the outcome is fully determined: sources are read
/// from a snapshot of the pre-step state and written one row above, columns
/// outermost, rows `1..height` innermost.
pub fn step_with_decays(grid: &mut HeatGrid, drift_bias: i32, decays: &Vec<u8>)
    requires
        old(grid).wf(),
        decays_ok(decays@, old(grid).width as int, old(grid).height as int),
    ensures
        final(grid).wf(),
        final(grid).width == old(grid).width,
        final(grid).height == old(grid).height,
        final(grid)@ == step_spec(
            old(grid)@,
            old(grid).width as int,
            old(grid).height as int,
            drift_bias as int,
            decays@,
        ),
        forall|j: int|
            (old(grid).height - 1) * old(grid).width <= j < old(grid)@.len()
                ==> #[trigger] final(grid)@[j] == old(grid)@[j],
{
    let w: usize = grid.width;
    let h: usize = grid.height;
    if h < 2 {
        proof {
            assert(h == 1);
            assert(w as int * (h as int - 1) == 0) by (nonlinear_arith)
                requires
                    h == 1,
            ;
            assert(decays@.len() == 0);
        }
        return;
    }
    let snapshot: Vec<u8> = copy_cells(&grid.cells);
    let n: usize = snapshot.len();
    let mut x: usize = 0;
    while x < w
        invariant
            grid.width == w,
            grid.height == h,
            w >= 1,
            h >= 2,
            x <= w,
            old(grid).wf(),
            old(grid).width == w,
            old(grid).height == h,
            snapshot@ == old(grid)@,
            n == w * h,
            decays_ok(decays@, w as int, h as int),
            grid@.len() == n,
            forall|i: int| 0 <= i < grid@.len() ==> #[trigger] grid@[i] <= MAX_INTENSITY,
            step_rec(
                old(grid)@,
                grid@,
                w as int,
                h as int,
                drift_bias as int,
                decays@,
                x as int * (h - 1),
            ) == step_spec(old(grid)@, w as int, h as int, drift_bias as int, decays@),
        decreases w - x,
    {
        let mut y: usize = 1;
        while y < h
            invariant
                grid.width == w,
                grid.height == h,
                w >= 1,
                h >= 2,
                x < w,
                1 <= y <= h,
                old(grid).wf(),
                old(grid).width == w,
                old(grid).height == h,
                snapshot@ == old(grid)@,
                n == w * h,
                decays_ok(decays@, w as int, h as int),
                grid@.len() == n,
                forall|i: int| 0 <= i < grid@.len() ==> #[trigger] grid@[i] <= MAX_INTENSITY,
                step_rec(
                    old(grid)@,
                    grid@,
                    w as int,
                    h as int,
                    drift_bias as int,
                    decays@,
                    x as int * (h - 1) + (y - 1),
                ) == step_spec(old(grid)@, w as int, h as int, drift_bias as int, decays@),
            decreases h - y,
        {
            proof {
                assert(x * (h - 1) + (y - 1) < w * (h - 1) && w * (h - 1) <= n)
                    by (nonlinear_arith)
                    requires
                        x < w,
                        1 <= y < h,
                        n == w * h,
                ;
                lemma_index_in_range(w as int, h as int, x as int, y as int);
            }
            let k: usize = x * (h - 1) + (y - 1);
            let v: u8 = snapshot[y * w + x];
            let d: u8 = decays[k];
            let ghost b_before = grid@;
            write_spread(&mut grid.cells, w, h, x, y, drift_bias, d, v);
            proof {
                lemma_fundamental_div_mod_converse(
                    k as int,
                    h - 1,
                    x as int,
                    y - 1,
                );
                assert(pair_x(k as int, h as int) == x as int);
                assert(pair_y(k as int, h as int) == y as int);
                assert(grid@ == apply_cell(
                    old(grid)@,
                    b_before,
                    w as int,
                    x as int,
                    y as int,
                    drift_bias as int,
                    d as int,
                ));
                let wi = write_index(v, w as int, x as int, y as int, drift_bias as int, d as int);
                if v == 0 {
                    lemma_index_in_range(w as int, h as int, x as int, y - 1);
                } else {
                    lemma_index_in_range(
                        w as int,
                        h as int,
                        dest_col(x as int, drift_bias as int, d as int, w as int),
                        y - 1,
                    );
                }
                assert(0 <= wi < grid@.len());
                assert forall|i: int| 0 <= i < grid@.len() implies #[trigger] grid@[i]
                    <= MAX_INTENSITY by {
                    if i != wi {
                        assert(grid@[i] == b_before[i]);
                    }
                }
            }
            y = y + 1;
        }
        proof {
            assert(x * (h - 1) + (h - 1) == (x + 1) * (h - 1)) by (nonlinear_arith);
        }
        x = x + 1;
    }
    proof {
        assert(step_rec(
            old(grid)@,
            grid@,
            w as int,
            h as int,
            drift_bias as int,
            decays@,
            w as int * (h - 1),
        ) == grid@);
        crate::laws::lemma_bottom_row_unchanged(
            old(grid)@,
            w as int,
            h as int,
            drift_bias as int,
            decays@,
        );
    }
}

/// Advances the whole grid by one simulation step, drawing every decay jitter
/// uniformly at random from `0..=3`: the outcome is the deterministic step
/// under some valid family of decay draws.
pub fn calculate_fire(grid: &mut HeatGrid, drift_bias: i32)
    requires
        old(grid).wf(),
    ensures
        final(grid).wf(),
        final(grid).width == old(grid).width,
        final(grid).height == old(grid).height,
        exists|ds: Seq<u8>|
            decays_ok(ds, old(grid).width as int, old(grid).height as int) && final(grid)@
                == step_spec(
                old(grid)@,
                old(grid).width as int,
                old(grid).height as int,
                drift_bias as int,
                ds,
            ),
        forall|j: int|
            (old(grid).height - 1) * old(grid).width <= j < old(grid)@.len()
                ==> #[trigger] final(grid)@[j] == old(grid)@[j],
        (forall|j: int| 0 <= j < old(grid)@.len() ==> #[trigger] old(grid)@[j] == 0)
            ==> (forall|j: int|
                0 <= j < final(grid)@.len() ==> #[trigger] final(grid)@[j] == 0),
{
    let w: usize = grid.width;
    let h: usize = grid.height;
    let n0: usize = grid.cells.len();
    proof {
        assert(w * (h - 1) <= n0) by (nonlinear_arith)
            requires
                h >= 1,
                n0 == w * h,
        ;
    }
    let n: usize = w * (h - 1);
    let ds: Vec<u8> = draw_decays(n);
    step_with_decays(grid, drift_bias, &ds);
    proof {
        assert(decays_ok(ds@, w as int, h as int) && grid@ == step_spec(
            old(grid)@,
            w as int,
            h as int,
            drift_bias as int,
            ds@,
        ));
        if forall|j: int| 0 <= j < old(grid)@.len() ==> #[trigger] old(grid)@[j] == 0 {
            crate::laws::lemma_all_zero_stays_zero(
                old(grid)@,
                w as int,
                h as int,
                drift_bias as int,
                ds@,
            );
        }
    }
}

} // verus!
