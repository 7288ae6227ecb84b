use mandelbrot::grid::{Band, Grid};
use mandelbrot::palette::Color;
use mandelbrot::raster::{sample_band, Raster};
use std::sync::atomic::{AtomicUsize, Ordering};

fn tag(x: u32, y: u32) -> Color {
    Color { r: x as u16, g: y as u16, b: (x * 7 + y * 13) as u16 }
}

#[test]
fn grid_new_keeps_the_dimensions() {
    let g = Grid::new(4, 3).unwrap();
    assert_eq!(g, Grid { width: 4, height: 3 });
    assert_eq!(g.pixel_count(), 12);
    assert_eq!(Grid::new(0, 5).unwrap().pixel_count(), 0);
    assert_eq!(Grid::new(5, 0).unwrap().pixel_count(), 0);
}

#[test]
fn grid_new_refuses_what_has_no_index() {
    let all = u32::MAX as u128 * u32::MAX as u128;
    assert_eq!(Grid::new(u32::MAX, u32::MAX).is_some(), all <= usize::MAX as u128);
    assert!(Grid::new(u32::MAX, 1).is_some());
}

#[test]
fn grid_index_is_row_major() {
    let g = Grid::new(4, 3).unwrap();
    assert_eq!(g.index(0, 0), 0);
    assert_eq!(g.index(3, 0), 3);
    assert_eq!(g.index(0, 1), 4);
    assert_eq!(g.index(2, 2), 10);
    assert_eq!(g.index(3, 2), 11);
}

#[test]
fn grid_coords_undo_index() {
    let g = Grid::new(5, 7).unwrap();
    for k in 0..g.pixel_count() {
        let (x, y) = g.coords(k);
        assert!(x < 5 && y < 7);
        assert_eq!(g.index(x, y), k);
    }
    for y in 0..7 {
        for x in 0..5 {
            assert_eq!(g.coords(g.index(x, y)), (x, y));
        }
    }
}

#[test]
fn bands_divide_the_rows_evenly() {
    let g = Grid::new(4, 10).unwrap();
    assert_eq!(
        g.bands(3),
        vec![
            Band { start: 0, end: 3 },
            Band { start: 3, end: 6 },
            Band { start: 6, end: 10 }
        ]
    );
    assert_eq!(g.bands(1), vec![Band { start: 0, end: 10 }]);
    assert_eq!(g.band(1, 4), Band { start: 2, end: 5 });
}

#[test]
fn bands_tile_the_rows() {
    for height in [0u32, 1, 2, 7, 64, 1000] {
        let g = Grid::new(3, height).unwrap();
        for workers in 1..20u32 {
            let bands = g.bands(workers);
            assert_eq!(bands.len(), workers as usize);
            assert_eq!(bands[0].start, 0);
            assert_eq!(bands[bands.len() - 1].end, height);
            for j in 0..bands.len() {
                assert!(bands[j].start <= bands[j].end);
                let rows = bands[j].end - bands[j].start;
                assert!(rows == height / workers || rows == height / workers + 1);
                assert_eq!(bands[j], g.band(j as u32, workers));
                if j + 1 < bands.len() {
                    assert_eq!(bands[j].end, bands[j + 1].start);
                }
            }
        }
    }
}

#[test]
fn bands_of_more_workers_than_rows_leave_some_empty() {
    let g = Grid::new(2, 2).unwrap();
    let bands = g.bands(4);
    let rows: u32 = bands.iter().map(|b| b.end - b.start).sum();
    assert_eq!(rows, 2);
    assert_eq!(bands.iter().filter(|b| b.start == b.end).count(), 2);
}

#[test]
fn bands_of_the_tallest_grid() {
    let g = Grid::new(1, u32::MAX).unwrap();
    let bands = g.bands(1 << 16);
    assert_eq!(bands.len(), 1 << 16);
    assert_eq!(bands[0], Band { start: 0, end: 65535 });
    assert_eq!(bands[65535], Band { start: 4294901759, end: u32::MAX });
    assert_eq!(g.band(12345, u32::MAX), Band { start: 12345, end: 12346 });
    assert_eq!(g.band(u32::MAX - 1, u32::MAX), Band { start: u32::MAX - 1, end: u32::MAX });
}

#[test]
fn sample_fills_every_cell() {
    let g = Grid::new(4, 3).unwrap();
    let r = Raster::sample(g, tag);
    assert_eq!(r.width(), 4);
    assert_eq!(r.height(), 3);
    for y in 0..3 {
        for x in 0..4 {
            assert_eq!(r.pixel(x, y), tag(x, y));
        }
    }
}

#[test]
fn sample_band_holds_its_rows_in_order() {
    let g = Grid::new(3, 5).unwrap();
    let cells = sample_band(&g, Band { start: 1, end: 3 }, tag);
    assert_eq!(
        cells,
        vec![tag(0, 1), tag(1, 1), tag(2, 1), tag(0, 2), tag(1, 2), tag(2, 2)]
    );
    assert!(sample_band(&g, Band { start: 2, end: 2 }, tag).is_empty());
}

#[test]
fn raster_is_the_same_for_any_number_of_workers() {
    let g = Grid::new(7, 11).unwrap();
    let alone = Raster::sample(g, tag);
    for workers in 1..16u32 {
        let parts: Vec<Vec<Color>> =
            g.bands(workers).into_iter().map(|b| sample_band(&g, b, tag)).collect();
        let joined = Raster::assemble(g, parts).unwrap();
        assert_eq!(joined.samples(), alone.samples());
        for y in 0..11 {
            for x in 0..7 {
                assert_eq!(joined.pixel(x, y), alone.pixel(x, y));
            }
        }
    }
}

#[test]
fn every_pixel_is_completed_once() {
    let g = Grid::new(6, 9).unwrap();
    for workers in [1u32, 2, 4, 9, 12] {
        let counter = AtomicUsize::new(0);
        let shade = |x: u32, y: u32| {
            counter.fetch_add(1, Ordering::Relaxed);
            tag(x, y)
        };
        let parts: Vec<Vec<Color>> =
            g.bands(workers).into_iter().map(|b| sample_band(&g, b, &shade)).collect();
        assert!(Raster::assemble(g, parts).is_some());
        assert_eq!(counter.load(Ordering::Relaxed), g.pixel_count());
        assert_eq!(counter.load(Ordering::Relaxed), 54);
    }
}

#[test]
fn assemble_refuses_parts_of_the_wrong_size() {
    let g = Grid::new(2, 2).unwrap();
    let c = Color { r: 1, g: 2, b: 3 };
    assert!(Raster::assemble(g, vec![vec![c; 3]]).is_none());
    assert!(Raster::assemble(g, vec![vec![c; 2], vec![c; 3]]).is_none());
    assert!(Raster::assemble(g, vec![vec![c; 5]]).is_none());
    assert!(Raster::assemble(g, Vec::new()).is_none());
    assert!(Raster::assemble(g, vec![vec![c; 1], Vec::new(), vec![c; 3]]).is_some());
    assert!(Raster::assemble(Grid::new(0, 9).unwrap(), Vec::new()).is_some());
}

#[test]
fn assemble_joins_the_parts_in_order() {
    let g = Grid::new(2, 2).unwrap();
    let a = Color { r: 1, g: 0, b: 0 };
    let b = Color { r: 2, g: 0, b: 0 };
    let c = Color { r: 3, g: 0, b: 0 };
    let d = Color { r: 4, g: 0, b: 0 };
    let r = Raster::assemble(g, vec![vec![a], vec![b, c], vec![d]]).unwrap();
    assert_eq!(r.pixel(0, 0), a);
    assert_eq!(r.pixel(1, 0), b);
    assert_eq!(r.pixel(0, 1), c);
    assert_eq!(r.pixel(1, 1), d);
}

#[test]
fn samples_interleave_the_channels() {
    let g = Grid::new(2, 1).unwrap();
    let r = Raster::sample(g, |x, _y| Color { r: 10 + x as u16, g: 20 + x as u16, b: 30 + x as u16 });
    assert_eq!(r.samples(), Some(vec![10, 20, 30, 11, 21, 31]));
    let empty = Raster::sample(Grid::new(0, 0).unwrap(), tag);
    assert_eq!(empty.samples(), Some(Vec::new()));
}
