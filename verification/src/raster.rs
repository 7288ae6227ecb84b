//! The raster and the sampler that fills it.
//!
//! The sampler asks a shading function for the color of every cell, row by
//! row. A band of rows can be sampled on its own, so that several workers
//! can each fill a band of their own and the bands be joined afterwards:
//! whatever the division, the joined raster is the same.

use crate::grid::{band_start, lemma_band_starts, Band, Grid};
use crate::palette::Color;
use vstd::arithmetic::div_mod::{lemma_fundamental_div_mod, lemma_fundamental_div_mod_converse, lemma_mod_bound};
use vstd::prelude::*;

verus! {

/// The parts joined end to end, in their order.
pub open spec fn concat(parts: Seq<Seq<Color>>) -> Seq<Color>
    decreases parts.len(),
{
    if parts.len() == 0 {
        Seq::empty()
    } else {
        concat(parts.drop_last()) + parts.last()
    }
}

/// What each of the vectors holds.
pub open spec fn views(parts: Seq<Vec<Color>>) -> Seq<Seq<Color>> {
    Seq::new(parts.len(), |i: int| parts[i]@)
}

/// The rows from `start` to `end` of a raster `width` cells wide in which
/// cell `(x, y)` has the color `model(x, y)`, in row-major order.
pub open spec fn shaded(
    width: int,
    model: spec_fn(int, int) -> Color,
    start: int,
    end: int,
) -> Seq<Color> {
    Seq::new(((end - start) * width) as nat, |k: int| model(k % width, start + k / width))
}

/// The bands of a raster shaded by `model`, as `workers` workers fill them.
pub open spec fn banded(grid: Grid, model: spec_fn(int, int) -> Color, workers: int) -> Seq<
    Seq<Color>,
> {
    Seq::new(
        workers as nat,
        |j: int|
            shaded(
                grid.width as int,
                model,
                band_start(j, workers, grid.height as int),
                band_start(j + 1, workers, grid.height as int),
            ),
    )
}

/// Whether `cells` holds, for every cell of the band in row-major order, a
/// color that `shade` can return for that cell.
pub open spec fn sampled<F: Fn(u32, u32) -> Color>(
    grid: Grid,
    band: Band,
    shade: F,
    cells: Seq<Color>,
) -> bool {
    &&& cells.len() == band.rows() * grid.width
    &&& forall|k: int|
        0 <= k < cells.len() ==> call_ensures(
            shade,
            ((k % (grid.width as int)) as u32, (band.start + k / (grid.width as int)) as u32),
            #[trigger] cells[k],
        )
}

/// A grid of colors in row-major order, every cell filled.
#[derive(Clone, Debug)]
pub struct Raster {
    grid: Grid,
    pixels: Vec<Color>,
}

impl Raster {
    /// The dimensions of the raster.
    pub closed spec fn grid(&self) -> Grid {
        self.grid
    }

    /// The colors of the cells, in row-major order.
    pub closed spec fn pixels(&self) -> Seq<Color> {
        self.pixels@
    }

    /// There is one color for each cell of the grid.
    pub open spec fn wf(&self) -> bool {
        &&& self.grid().wf()
        &&& self.pixels().len() == self.grid().spec_pixel_count()
    }

    /// The color of cell `(x, y)`.
    pub open spec fn spec_pixel(&self, x: int, y: int) -> Color {
        self.pixels()[self.grid().spec_index(x, y)]
    }

    /// The raster whose rows are the given parts, joined in their order.
    /// There is none unless the parts hold exactly one color for each cell
    /// of the grid.
    pub fn assemble(grid: Grid, parts: Vec<Vec<Color>>) -> (raster: Option<Raster>)
        requires
            grid.wf(),
        ensures
            raster.is_some() <==> concat(views(parts@)).len() == grid.spec_pixel_count(),
            raster.is_some() ==> {
                &&& raster.unwrap().wf()
                &&& raster.unwrap().grid() == grid
                &&& raster.unwrap().pixels() == concat(views(parts@))
            },
    {
        let count: usize = grid.pixel_count();
        let mut pixels: Vec<Color> = Vec::new();
        let mut i: usize = 0;
        while i < parts.len()
            invariant
                i <= parts@.len(),
                pixels@ == concat(views(parts@).take(i as int)),
                pixels@.len() <= count,
                count == grid.spec_pixel_count(),
            decreases parts@.len() - i,
        {
            let part: &Vec<Color> = &parts[i];
            proof {
                assert(views(parts@)[i as int] == part@);
                lemma_concat_step(views(parts@), i as int);
                lemma_concat_prefix_len(views(parts@), i as int + 1);
                assert(concat(views(parts@).take(i as int + 1)).len() == pixels@.len()
                    + part@.len());
            }
            if part.len() > count - pixels.len() {
                return None;
            }
            let mut j: usize = 0;
            let ghost before = pixels@;
            while j < part.len()
                invariant
                    j <= part@.len(),
                    pixels@ == before + part@.take(j as int),
                    before.len() + part@.len() <= count,
                decreases part@.len() - j,
            {
                pixels.push(part[j]);
                proof {
                    assert(part@.take(j as int + 1) =~= part@.take(j as int).push(part@[j as int]));
                    assert(pixels@ =~= before + part@.take(j as int + 1));
                }
                j += 1;
            }
            proof {
                assert(part@.take(j as int) =~= part@);
            }
            i += 1;
        }
        proof {
            assert(views(parts@).take(i as int) =~= views(parts@));
        }
        if pixels.len() == count {
            Some(Raster { grid, pixels })
        } else {
            None
        }
    }

    /// The raster in which every cell has the color that `shade` gives it.
    pub fn sample<F: Fn(u32, u32) -> Color>(grid: Grid, shade: F) -> (raster: Raster)
        requires
            grid.wf(),
            forall|x: u32, y: u32| x < grid.width && y < grid.height ==> call_requires(shade, (x, y)),
        ensures
            raster.wf(),
            raster.grid() == grid,
            sampled(grid, Band { start: 0, end: grid.height }, shade, raster.pixels()),
    {
        let pixels = sample_band(&grid, Band { start: 0, end: grid.height }, shade);
        proof {
            assert(grid.height * grid.width == grid.width * grid.height) by (nonlinear_arith);
        }
        Raster { grid, pixels }
    }

    /// The number of columns.
    pub fn width(&self) -> (width: u32)
        ensures
            width == self.grid().width,
    {
        self.grid.width
    }

    /// The number of rows.
    pub fn height(&self) -> (height: u32)
        ensures
            height == self.grid().height,
    {
        self.grid.height
    }

    /// The color of cell `(x, y)`.
    pub fn pixel(&self, x: u32, y: u32) -> (color: Color)
        requires
            self.wf(),
            x < self.grid().width,
            y < self.grid().height,
        ensures
            color == self.spec_pixel(x as int, y as int),
    {
        self.pixels[self.grid.index(x, y)]
    }

    /// The channels of all cells in one row-major sequence, red, green and
    /// blue of each cell in turn. There is none if three times the number
    /// of cells does not fit a `usize`.
    pub fn samples(&self) -> (samples: Option<Vec<u16>>)
        requires
            self.wf(),
        ensures
            samples.is_some() <==> 3 * self.grid().spec_pixel_count() <= usize::MAX,
            samples.is_some() ==> {
                &&& samples.unwrap()@.len() == 3 * self.pixels().len()
                &&& forall|k: int|
                    0 <= k < self.pixels().len() ==> {
                        &&& samples.unwrap()@[3 * k] == (#[trigger] self.pixels()[k]).r
                        &&& samples.unwrap()@[3 * k + 1] == self.pixels()[k].g
                        &&& samples.unwrap()@[3 * k + 2] == self.pixels()[k].b
                    }
            },
    {
        if self.pixels.len() > usize::MAX / 3 {
            return None;
        }
        let mut samples: Vec<u16> = Vec::new();
        let mut k: usize = 0;
        while k < self.pixels.len()
            invariant
                k <= self.pixels@.len(),
                samples@.len() == 3 * k,
                forall|i: int|
                    0 <= i < k ==> {
                        &&& samples@[3 * i] == (#[trigger] self.pixels@[i]).r
                        &&& samples@[3 * i + 1] == self.pixels@[i].g
                        &&& samples@[3 * i + 2] == self.pixels@[i].b
                    },
            decreases self.pixels@.len() - k,
        {
            let color: Color = self.pixels[k];
            samples.push(color.r);
            samples.push(color.g);
            samples.push(color.b);
            k += 1;
        }
        Some(samples)
    }
}

/// The colors of the cells of one band, in row-major order, each as `shade`
/// gives it.
pub fn sample_band<F: Fn(u32, u32) -> Color>(grid: &Grid, band: Band, shade: F) -> (cells: Vec<
    Color,
>)
    requires
        grid.wf(),
        grid.holds(band),
        forall|x: u32, y: u32|
            x < grid.width && band.start <= y < band.end ==> call_requires(shade, (x, y)),
    ensures
        sampled(*grid, band, shade, cells@),
{
    let mut cells: Vec<Color> = Vec::new();
    let mut y: u32 = band.start;
    let ghost w = grid.width as int;
    while y < band.end
        invariant
            band.start <= y <= band.end,
            w == grid.width,
            cells@.len() == (y - band.start) * w,
            forall|x: u32, y: u32|
                x < grid.width && band.start <= y < band.end ==> call_requires(shade, (x, y)),
            forall|k: int|
                0 <= k < cells@.len() ==> call_ensures(
                    shade,
                    ((k % w) as u32, (band.start + k / w) as u32),
                    #[trigger] cells@[k],
                ),
        decreases band.end - y,
    {
        let mut x: u32 = 0;
        while x < grid.width
            invariant
                band.start <= y < band.end,
                w == grid.width,
                x <= grid.width,
                cells@.len() == (y - band.start) * w + x,
                forall|x: u32, y: u32|
                    x < grid.width && band.start <= y < band.end ==> call_requires(shade, (x, y)),
                forall|k: int|
                    0 <= k < cells@.len() ==> call_ensures(
                        shade,
                        ((k % w) as u32, (band.start + k / w) as u32),
                        #[trigger] cells@[k],
                    ),
            decreases grid.width - x,
        {
            let color: Color = shade(x, y);
            proof {
                lemma_fundamental_div_mod_converse(
                    (y - band.start) * w + x,
                    w,
                    y - band.start,
                    x as int,
                );
            }
            cells.push(color);
            x += 1;
        }
        proof {
            assert((y - band.start) * w + w == (y + 1 - band.start) * w) by (nonlinear_arith);
        }
        y += 1;
    }
    cells
}

/// Joining one more part appends it to what was joined before.
proof fn lemma_concat_step(parts: Seq<Seq<Color>>, i: int)
    requires
        0 <= i < parts.len(),
    ensures
        concat(parts.take(i + 1)) == concat(parts.take(i)) + parts[i],
{
    assert(parts.take(i + 1).drop_last() =~= parts.take(i));
}

/// What is joined from the first `i` parts is no longer than the whole.
proof fn lemma_concat_prefix_len(parts: Seq<Seq<Color>>, i: int)
    requires
        0 <= i <= parts.len(),
    ensures
        concat(parts.take(i)).len() <= concat(parts).len(),
    decreases parts.len() - i,
{
    if i == parts.len() {
        assert(parts.take(i) =~= parts);
    } else {
        lemma_concat_step(parts, i);
        lemma_concat_prefix_len(parts, i + 1);
    }
}

/// Rows `a` to `b` followed by rows `b` to `c` are rows `a` to `c`.
proof fn lemma_shaded_split(width: int, model: spec_fn(int, int) -> Color, a: int, b: int, c: int)
    requires
        0 <= width,
        a <= b <= c,
    ensures
        shaded(width, model, a, b) + shaded(width, model, b, c) == shaded(width, model, a, c),
{
    let first = shaded(width, model, a, b);
    let second = shaded(width, model, b, c);
    let whole = shaded(width, model, a, c);
    assert((b - a) * width + (c - b) * width == (c - a) * width && (b - a) * width >= 0 && (c - b)
        * width >= 0) by (nonlinear_arith)
        requires
            0 <= width,
            a <= b <= c,
    ;
    assert forall|k: int| 0 <= k < whole.len() implies (first + second)[k] == whole[k] by {
        if k >= first.len() {
            let k2 = k - (b - a) * width;
            assert(width > 0) by (nonlinear_arith)
                requires
                    0 <= k < (c - a) * width,
                    0 <= width,
            ;
            lemma_fundamental_div_mod(k2, width);
            lemma_mod_bound(k2, width);
            assert(k == (k2 / width + (b - a)) * width + k2 % width) by (nonlinear_arith)
                requires
                    k2 == width * (k2 / width) + k2 % width,
                    k2 == k - (b - a) * width,
            ;
            lemma_fundamental_div_mod_converse(k, width, k2 / width + (b - a), k2 % width);
        }
    }
    assert(first + second =~= whole);
}

/// A shading function that can return only one color for each cell fixes
/// what a sampled band holds.
pub proof fn lemma_sampled_is_shaded<F: Fn(u32, u32) -> Color>(
    grid: Grid,
    band: Band,
    shade: F,
    model: spec_fn(int, int) -> Color,
    cells: Seq<Color>,
)
    requires
        grid.holds(band),
        sampled(grid, band, shade, cells),
        forall|x: u32, y: u32, color: Color|
            call_ensures(shade, (x, y), color) ==> color == model(x as int, y as int),
    ensures
        cells == shaded(grid.width as int, model, band.start as int, band.end as int),
{
    let w = grid.width as int;
    let whole = shaded(w, model, band.start as int, band.end as int);
    assert forall|k: int| 0 <= k < cells.len() implies cells[k] == whole[k] by {
        assert(w > 0) by (nonlinear_arith)
            requires
                0 <= k < (band.end - band.start) * w,
                w >= 0,
        ;
        lemma_fundamental_div_mod(k, w);
        lemma_mod_bound(k, w);
        let q = k / w;
        assert(0 <= q < band.end - band.start) by (nonlinear_arith)
            requires
                k == w * q + k % w,
                0 <= k % w < w,
                0 <= k < (band.end - band.start) * w,
        ;
        assert(call_ensures(shade, ((k % w) as u32, (band.start + k / w) as u32), cells[k]));
    }
    assert(cells =~= whole);
}

/// The raster does not depend on how many workers shared the rows: the
/// bands of any division, joined in their order, are the raster that one
/// worker fills alone, with one color for each cell.
pub proof fn lemma_division_independent(
    grid: Grid,
    model: spec_fn(int, int) -> Color,
    workers: int,
    others: int,
)
    requires
        workers > 0,
        others > 0,
    ensures
        concat(banded(grid, model, workers)) == shaded(
            grid.width as int,
            model,
            0,
            grid.height as int,
        ),
        concat(banded(grid, model, workers)) == concat(banded(grid, model, others)),
        concat(banded(grid, model, workers)).len() == grid.spec_pixel_count(),
{
    lemma_banded_prefix(grid, model, workers, workers);
    lemma_banded_prefix(grid, model, others, others);
    assert(banded(grid, model, workers).take(workers) =~= banded(grid, model, workers));
    assert(banded(grid, model, others).take(others) =~= banded(grid, model, others));
    lemma_band_starts(0, workers, grid.height as int);
    lemma_band_starts(0, others, grid.height as int);
    assert(grid.height * grid.width == grid.width * grid.height) by (nonlinear_arith);
}

/// The first `j` bands, joined, are the rows above the start of band `j`.
proof fn lemma_banded_prefix(grid: Grid, model: spec_fn(int, int) -> Color, workers: int, j: int)
    requires
        workers > 0,
        0 <= j <= workers,
    ensures
        concat(banded(grid, model, workers).take(j)) == shaded(
            grid.width as int,
            model,
            0,
            band_start(j, workers, grid.height as int),
        ),
    decreases j,
{
    let h = grid.height as int;
    let w = grid.width as int;
    lemma_band_starts(0, workers, h);
    if j == 0 {
        assert(concat(banded(grid, model, workers).take(0)) =~= shaded(w, model, 0, 0));
    } else {
        lemma_banded_prefix(grid, model, workers, j - 1);
        lemma_concat_step(banded(grid, model, workers), j - 1);
        lemma_band_starts(j - 1, workers, h);
        lemma_shaded_split(
            w,
            model,
            0,
            band_start(j - 1, workers, h),
            band_start(j, workers, h),
        );
    }
}

} // verus!
