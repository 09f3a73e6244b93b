use vstd::prelude::*;

use crate::error::FireError;

verus! {

/// The hottest intensity a cell can hold; the bottom source row is pinned to it.
pub const MAX_INTENSITY: u8 = 36;

/// A fixed-size rectangular buffer of heat intensities, row-major with the
/// origin at the top left. Every cell holds a value in `0..=36`.
pub struct HeatGrid {
    pub width: usize,
    pub height: usize,
    pub cells: Vec<u8>,
}

impl View for HeatGrid {
    type V = Seq<u8>;

    open spec fn view(&self) -> Seq<u8> {
        self.cells@
    }
}

/// Well-formedness of a raw intensity buffer: positive dimensions, row-major
/// length, and every intensity within `0..=36`.
pub open spec fn grid_wf(s: Seq<u8>, w: int, h: int) -> bool {
    &&& w > 0
    &&& h > 0
    &&& s.len() == w * h
    &&& forall|i: int| 0 <= i < s.len() ==> s[i] <= MAX_INTENSITY
}

impl HeatGrid {
    pub open spec fn wf(&self) -> bool {
        grid_wf(self@, self.width as int, self.height as int)
    }

    /// The linear index of the cell at column `x`, row `y`.
    pub open spec fn spec_index_of(&self, x: int, y: int) -> int {
        y * self.width + x
    }

    /// A grid of the given dimensions with every cell cold (intensity 0).
    /// Zero width or height is rejected with `InvalidDimensions`.
    pub fn new(width: usize, height: usize) -> (r: Result<HeatGrid, FireError>)
        requires
            width * height <= usize::MAX,
        ensures
            r is Err <==> (width == 0 || height == 0),
            r is Err ==> r->Err_0 == FireError::InvalidDimensions,
            r is Ok ==> {
                let g = r->Ok_0;
                &&& g.wf()
                &&& g.width == width
                &&& g.height == height
                &&& forall|i: int| 0 <= i < g@.len() ==> g@[i] == 0
            },
    {
        if width == 0 || height == 0 {
            return Err(FireError::InvalidDimensions);
        }
        let n: usize = width * height;
        let mut cells: Vec<u8> = Vec::new();
        let mut i: usize = 0;
        while i < n
            invariant
                i <= n,
                cells@.len() == i,
                forall|j: int| 0 <= j < i ==> cells@[j] == 0,
            decreases n - i,
        {
            cells.push(0);
            i = i + 1;
        }
        Ok(HeatGrid { width, height, cells })
    }

    /// Bounds-checked read of the cell at `(x, y)`.
    pub fn get(&self, x: usize, y: usize) -> (r: Result<u8, FireError>)
        requires
            self.wf(),
        ensures
            r is Ok <==> (x < self.width && y < self.height),
            r is Err ==> r->Err_0 == FireError::OutOfRange,
            r is Ok ==> r->Ok_0 == self@[self.spec_index_of(x as int, y as int)],
    {
        if x >= self.width || y >= self.height {
            return Err(FireError::OutOfRange);
        }
        let n: usize = self.cells.len();
        proof {
            lemma_index_in_range(self.width as int, self.height as int, x as int, y as int);
            assert(y * self.width + x < n);
        }
        Ok(self.cells[y * self.width + x])
    }

    /// Bounds-checked write of the cell at `(x, y)`; the coordinate and the
    /// intensity must both be in range.
    pub fn set(&mut self, x: usize, y: usize, intensity: u8) -> (r: Result<(), FireError>)
        requires
            old(self).wf(),
        ensures
            final(self).wf(),
            final(self).width == old(self).width,
            final(self).height == old(self).height,
            r is Ok <==> (x < old(self).width && y < old(self).height
                && intensity <= MAX_INTENSITY),
            r is Err ==> r->Err_0 == FireError::OutOfRange && final(self)@ == old(self)@,
            r is Ok ==> final(self)@ == old(self)@.update(
                old(self).spec_index_of(x as int, y as int),
                intensity,
            ),
    {
        if x >= self.width || y >= self.height || intensity > MAX_INTENSITY {
            return Err(FireError::OutOfRange);
        }
        let n: usize = self.cells.len();
        proof {
            lemma_index_in_range(self.width as int, self.height as int, x as int, y as int);
            assert(y * self.width + x < n);
        }
        self.cells.set(y * self.width + x, intensity);
        Ok(())
    }

    /// Pins every cell of the bottom row (the perpetual heat source) to the
    /// maximum intensity, leaving all other rows untouched.
    pub fn reseed_bottom_row(&mut self)
        requires
            old(self).wf(),
        ensures
            final(self).wf(),
            final(self).width == old(self).width,
            final(self).height == old(self).height,
            forall|x: int| 0 <= x < final(self).width as int
                ==> #[trigger] final(self)@[final(self).spec_index_of(x, final(self).height - 1)]
                    == MAX_INTENSITY,
            forall|i: int| 0 <= i < (final(self).height - 1) * final(self).width as int
                ==> final(self)@[i] == old(self)@[i],
    {
        let n: usize = self.cells.len();
        proof {
            assert((self.height - 1) * self.width + self.width == n) by (nonlinear_arith)
                requires
                    self.height >= 1,
                    n == self.width * self.height,
            ;
        }
        let base: usize = (self.height - 1) * self.width;
        let mut x: usize = 0;
        while x < self.width
            invariant
                x <= self.width,
                self.width == old(self).width,
                self.height == old(self).height,
                base == (self.height - 1) * self.width,
                base + self.width == n,
                n == self@.len(),
                self@.len() == old(self)@.len(),
                forall|i: int| 0 <= i < base ==> self@[i] == old(self)@[i],
                forall|i: int| 0 <= i < self@.len() ==> self@[i] <= MAX_INTENSITY,
                forall|c: int| 0 <= c < x ==> #[trigger] self@[base + c] == MAX_INTENSITY,
            decreases self.width - x,
        {
            self.cells.set(base + x, MAX_INTENSITY);
            x = x + 1;
        }
        proof {
            assert forall|x0: int| 0 <= x0 < self.width as int
                implies #[trigger] self@[self.spec_index_of(x0, self.height - 1)]
                    == MAX_INTENSITY by {
                assert(self.spec_index_of(x0, self.height - 1) == base + x0);
            }
        }
    }

    /// Convenience read of a dimension pair for callers outside the library.
    pub fn dimensions(&self) -> (r: (usize, usize))
        ensures
            r.0 == self.width,
            r.1 == self.height,
    {
        (self.width, self.height)
    }
}

/// A cell coordinate inside the grid maps to a linear index inside the buffer.
pub proof fn lemma_index_in_range(w: int, h: int, x: int, y: int)
    by (nonlinear_arith)
    requires
        0 <= x < w,
        0 <= y < h,
    ensures
        0 <= y * w + x < w * h,
{
}

} // verus!
