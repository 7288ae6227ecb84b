//! The pixel grid: its dimensions, the row-major order of its cells, and its
//! division into bands of rows, one for each worker.

use vstd::arithmetic::div_mod::{
    lemma_div_is_ordered, lemma_div_multiples_vanish, lemma_div_pos_is_pos,
    lemma_fundamental_div_mod, lemma_fundamental_div_mod_converse, lemma_mod_bound,
};
use vstd::arithmetic::mul::lemma_mul_nonnegative;
use vstd::prelude::*;

verus! {

/// The dimensions of a raster, in pixels.
#[derive(Clone, Copy, Debug, PartialEq, Eq, Structural)]
pub struct Grid {
    pub width: u32,
    pub height: u32,
}

/// The rows from `start` up to, not including, `end`.
#[derive(Clone, Copy, Debug, PartialEq, Eq, Structural)]
pub struct Band {
    pub start: u32,
    pub end: u32,
}

/// The first row of band `j` when `height` rows are divided among `workers`.
pub open spec fn band_start(j: int, workers: int, height: int) -> int {
    j * height / workers
}

impl Band {
    /// The number of rows in the band.
    pub open spec fn rows(&self) -> int {
        self.end - self.start
    }
}

impl Grid {
    /// The number of cells fits a `usize`, so that every cell has an index.
    pub open spec fn wf(&self) -> bool {
        self.width * self.height <= usize::MAX
    }

    /// The number of cells.
    pub open spec fn spec_pixel_count(&self) -> int {
        self.width * self.height
    }

    /// The place of cell `(x, y)` in row-major order.
    pub open spec fn spec_index(&self, x: int, y: int) -> int {
        y * self.width + x
    }

    /// Whether the band lies within the grid.
    pub open spec fn holds(&self, band: Band) -> bool {
        band.start <= band.end <= self.height
    }

    /// Band `j` of `workers`: rows `j * height / workers` up to
    /// `(j + 1) * height / workers`.
    pub open spec fn spec_band(&self, j: int, workers: int) -> Band {
        Band {
            start: band_start(j, workers, self.height as int) as u32,
            end: band_start(j + 1, workers, self.height as int) as u32,
        }
    }

    /// The grid of the given dimensions, unless the number of its cells
    /// does not fit a `usize`.
    pub fn new(width: u32, height: u32) -> (grid: Option<Grid>)
        ensures
            grid.is_some() <==> width * height <= usize::MAX,
            grid.is_some() ==> grid.unwrap() == (Grid { width, height }),
    {
        proof {
            lemma_count_bound(width as int, height as int);
        }
        let cells: u64 = (width as u64) * (height as u64);
        if cells <= usize::MAX as u64 {
            Some(Grid { width, height })
        } else {
            None
        }
    }

    /// The number of cells, `width * height`.
    pub fn pixel_count(&self) -> (count: usize)
        requires
            self.wf(),
        ensures
            count == self.spec_pixel_count(),
    {
        proof {
            lemma_count_bound(self.width as int, self.height as int);
        }
        ((self.width as u64) * (self.height as u64)) as usize
    }

    /// The place of cell `(x, y)` in row-major order: `y * width + x`.
    pub fn index(&self, x: u32, y: u32) -> (k: usize)
        requires
            self.wf(),
            x < self.width,
            y < self.height,
        ensures
            k == self.spec_index(x as int, y as int),
            k < self.spec_pixel_count(),
    {
        proof {
            lemma_index_bound(self.width as int, self.height as int, x as int, y as int);
            lemma_count_bound(y as int, self.width as int);
        }
        ((y as u64) * (self.width as u64) + (x as u64)) as usize
    }

    /// The cell at place `k` of row-major order: column `k % width` of row
    /// `k / width`.
    pub fn coords(&self, k: usize) -> (cell: (u32, u32))
        requires
            self.wf(),
            k < self.spec_pixel_count(),
        ensures
            cell.0 == k % (self.width as usize),
            cell.1 == k / (self.width as usize),
            cell.0 < self.width,
            cell.1 < self.height,
            self.spec_index(cell.0 as int, cell.1 as int) == k,
    {
        proof {
            lemma_coords(self.width as int, self.height as int, k as int);
        }
        let w: usize = self.width as usize;
        ((k % w) as u32, (k / w) as u32)
    }

    /// Band `j` of the division of the rows among `workers`.
    pub fn band(&self, j: u32, workers: u32) -> (band: Band)
        requires
            j < workers,
        ensures
            band == self.spec_band(j as int, workers as int),
            self.holds(band),
    {
        proof {
            lemma_band_starts(j as int, workers as int, self.height as int);
            lemma_count_bound(j as int + 1, self.height as int);
            lemma_count_bound(j as int, self.height as int);
        }
        let h: u64 = self.height as u64;
        let n: u64 = workers as u64;
        let start: u64 = (j as u64) * h / n;
        let end: u64 = (j as u64 + 1) * h / n;
        Band { start: start as u32, end: end as u32 }
    }

    /// The division of the rows among `workers`: one band for each, in the
    /// order of the rows.
    pub fn bands(&self, workers: u32) -> (bands: Vec<Band>)
        requires
            workers > 0,
        ensures
            bands@.len() == workers,
            forall|j: int|
                0 <= j < workers ==> #[trigger] bands@[j] == self.spec_band(j, workers as int),
    {
        let mut bands: Vec<Band> = Vec::new();
        let mut j: u32 = 0;
        while j < workers
            invariant
                j <= workers,
                bands@.len() == j,
                forall|i: int| 0 <= i < j ==> #[trigger] bands@[i] == self.spec_band(i, workers as int),
            decreases workers - j,
        {
            bands.push(self.band(j, workers));
            j += 1;
        }
        bands
    }
}

/// The product of two 32-bit factors fits 64 bits.
proof fn lemma_count_bound(a: int, b: int)
    requires
        0 <= a <= 0x1_0000_0000,
        0 <= b <= 0xffff_ffff,
    ensures
        0 <= a * b <= 0xffff_ffff_0000_0000,
{
    assert(0 <= a * b <= 0xffff_ffff_0000_0000) by (nonlinear_arith)
        requires
            0 <= a <= 0x1_0000_0000,
            0 <= b <= 0xffff_ffff,
    ;
}

/// A cell of the grid has an index below the number of cells.
proof fn lemma_index_bound(width: int, height: int, x: int, y: int)
    requires
        0 <= x < width,
        0 <= y < height,
    ensures
        0 <= y * width + x < width * height,
{
    assert(0 <= y * width + x < width * height) by (nonlinear_arith)
        requires
            0 <= x < width,
            0 <= y < height,
    ;
}

/// An index below the number of cells names a cell of the grid.
proof fn lemma_coords(width: int, height: int, k: int)
    requires
        0 <= width,
        0 <= height,
        0 <= k < width * height,
    ensures
        width > 0,
        0 <= k % width < width,
        0 <= k / width < height,
        (k / width) * width + k % width == k,
{
    if width == 0 {
        assert(width * height == 0) by (nonlinear_arith)
            requires
                width == 0,
        ;
    }
    lemma_fundamental_div_mod(k, width);
    lemma_mod_bound(k, width);
    lemma_div_pos_is_pos(k, width);
    let q = k / width;
    if q >= height {
        assert(width * q >= width * height) by (nonlinear_arith)
            requires
                q >= height,
                width > 0,
        ;
    }
    assert(q * width == width * q) by (nonlinear_arith);
}

/// The bands start at row 0, end at the last row, and each ends where the
/// next begins, at or after its own start.
pub proof fn lemma_band_starts(j: int, workers: int, height: int)
    requires
        0 <= j < workers,
        0 <= height,
    ensures
        band_start(0, workers, height) == 0,
        band_start(workers, workers, height) == height,
        0 <= band_start(j, workers, height) <= band_start(j + 1, workers, height) <= height,
{
    lemma_mul_nonnegative(j, height);
    lemma_mul_nonnegative(j + 1, height);
    lemma_div_pos_is_pos(j * height, workers);
    assert(j * height <= (j + 1) * height <= workers * height) by (nonlinear_arith)
        requires
            0 <= j < workers,
            0 <= height,
    ;
    lemma_div_is_ordered(j * height, (j + 1) * height, workers);
    lemma_div_is_ordered((j + 1) * height, workers * height, workers);
    lemma_div_multiples_vanish(height, workers);
    assert(0 * height == 0) by (nonlinear_arith);
}

/// No two bands share a row: a band ends at or before the start of every
/// band after it.
pub proof fn lemma_bands_disjoint(i: int, j: int, workers: int, height: int)
    requires
        0 <= i < j < workers,
        0 <= height,
    ensures
        band_start(i + 1, workers, height) <= band_start(j, workers, height),
{
    assert((i + 1) * height <= j * height) by (nonlinear_arith)
        requires
            i + 1 <= j,
            0 <= height,
    ;
    lemma_div_is_ordered((i + 1) * height, j * height, workers);
}

/// The rows are divided evenly: every band has `height / workers` rows or
/// one more.
pub proof fn lemma_band_sizes(j: int, workers: int, height: int)
    requires
        0 <= j < workers,
        0 <= height,
    ensures
        height / workers <= band_start(j + 1, workers, height) - band_start(j, workers, height)
            <= height / workers + 1,
{
    let a = j * height;
    lemma_mul_nonnegative(j, height);
    assert((j + 1) * height == a + height) by (nonlinear_arith)
        requires
            a == j * height,
    ;
    lemma_fundamental_div_mod(a, workers);
    lemma_fundamental_div_mod(height, workers);
    lemma_mod_bound(a, workers);
    lemma_mod_bound(height, workers);
    let q = a / workers + height / workers;
    let r = a % workers + height % workers;
    assert(a + height == workers * q + r) by (nonlinear_arith)
        requires
            a == workers * (a / workers) + a % workers,
            height == workers * (height / workers) + height % workers,
            q == a / workers + height / workers,
            r == a % workers + height % workers,
    ;
    if r < workers {
        assert(a + height == q * workers + r) by (nonlinear_arith)
            requires
                a + height == workers * q + r,
        ;
        lemma_fundamental_div_mod_converse(a + height, workers, q, r);
    } else {
        assert(a + height == (q + 1) * workers + (r - workers)) by (nonlinear_arith)
            requires
                a + height == workers * q + r,
        ;
        lemma_fundamental_div_mod_converse(a + height, workers, q + 1, r - workers);
    }
}

/// Row-major order numbers the cells without gaps or repeats: a cell's
/// index leads back to the cell.
pub proof fn lemma_index_coords(grid: Grid, x: int, y: int)
    requires
        0 <= x < grid.width,
        0 <= y < grid.height,
    ensures
        0 <= grid.spec_index(x, y) < grid.spec_pixel_count(),
        grid.spec_index(x, y) % (grid.width as int) == x,
        grid.spec_index(x, y) / (grid.width as int) == y,
{
    lemma_index_bound(grid.width as int, grid.height as int, x, y);
    lemma_fundamental_div_mod_converse(y * grid.width + x, grid.width as int, y, x);
}

} // verus!
