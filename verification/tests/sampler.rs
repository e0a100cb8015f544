use elevation::height::Height;
use elevation::raster::Raster;
use elevation::raster::RasterValue;
use elevation::sampler::GeoTiffElevation;

/// A `w` by `h` grid with every cell holding the float-tagged `fill`.
fn grid(w: u32, h: u32, fill: i64) -> Vec<RasterValue> {
    let mut cells = Vec::new();
    for _ in 0..(w as usize) * (h as usize) {
        cells.push(RasterValue::F32(fill));
    }
    cells
}

fn set(cells: &mut Vec<RasterValue>, w: u32, x: u32, y: u32, v: RasterValue) {
    cells[(y as usize) * (w as usize) + (x as usize)] = v;
}

/// Origin (0, 0), pixel size (1.0, 1.0) at scale 10, 10x10 pixels, with the
/// four samples around pixel (5, 5) set to 10.0, 20.0, 30.0, 40.0.
fn midpoint_sampler() -> GeoTiffElevation {
    let w = 10;
    let mut cells = grid(w, 10, 10);
    set(&mut cells, w, 5, 5, RasterValue::F32(100));
    set(&mut cells, w, 6, 5, RasterValue::F32(200));
    set(&mut cells, w, 5, 6, RasterValue::F32(300));
    set(&mut cells, w, 6, 6, RasterValue::F32(400));
    let raster = Raster::new(w, 10, cells).unwrap();
    GeoTiffElevation::new(raster, 0, 0, 10, 10)
}

#[test]
fn exact_grid_point() {
    // Scale 1: origin (0.0, 0.0), pixel size (1.0, 1.0), pixel (5,5) = 42.0
    // with all its neighbors holding the same value.
    let w = 10;
    let mut cells = grid(w, 10, 7);
    for x in 4..=6 {
        for y in 4..=6 {
            set(&mut cells, w, x, y, RasterValue::F32(42));
        }
    }
    let raster = Raster::new(w, 10, cells).unwrap();
    let sampler = GeoTiffElevation::new(raster, 0, 0, 1, 1);
    let h = sampler.get_height_for_lon_lat(5, 5).unwrap();
    assert!(h.is_exactly(42));
}

#[test]
fn exact_grid_point_ignores_neighbors() {
    // Exactly on a grid line both spans degenerate, so only the aligned
    // pixel is combined even when a neighbor is not float-tagged.
    let w = 10;
    let mut cells = grid(w, 10, 7);
    set(&mut cells, w, 5, 5, RasterValue::F32(42));
    set(&mut cells, w, 6, 5, RasterValue::Other);
    let raster = Raster::new(w, 10, cells).unwrap();
    let sampler = GeoTiffElevation::new(raster, 0, 0, 1, 1);
    let h = sampler.get_height_for_lon_lat(5, 5).unwrap();
    assert!(h.is_exactly(42));
}

#[test]
fn midpoint_interpolation() {
    // sample(5.5, 5.5) over corners 10.0, 20.0, 30.0, 40.0 is their
    // average 25.0 (250 at scale 10).
    let sampler = midpoint_sampler();
    let h = sampler.get_height_for_lon_lat(55, 55).unwrap();
    assert!(h.is_exactly(250));
}

#[test]
fn asymmetric_interpolation_exact_value() {
    // sample(5.3, 5.7): weights 7*3, 3*3, 7*7, 3*7 over denominator 100
    // give exactly 27.0.
    let sampler = midpoint_sampler();
    let h = sampler.get_height_for_lon_lat(53, 57).unwrap();
    assert!(h.is_exactly(270));
    assert!(!h.is_exactly(269));
    assert_eq!(h.num, 27000);
    assert_eq!(h.den, 100);
}

#[test]
fn convex_combination_bound() {
    let sampler = midpoint_sampler();
    let h = sampler.get_height_for_lon_lat(53, 57).unwrap();
    assert!(h.at_least(100));
    assert!(h.at_most(400));
    assert!(!h.at_most(269));
    assert!(!h.at_least(271));
}

#[test]
fn off_raster_query() {
    // sample(-1.0, -1.0) lies outside the raster.
    let sampler = midpoint_sampler();
    assert!(sampler.get_height_for_lon_lat(-10, -10).is_none());
}

#[test]
fn no_data_corner_propagates() {
    // One non-float corner makes the whole bilinear sample absent.
    let w = 10;
    let mut cells = grid(w, 10, 7);
    set(&mut cells, w, 6, 5, RasterValue::Other);
    let raster = Raster::new(w, 10, cells).unwrap();
    let sampler = GeoTiffElevation::new(raster, 0, 0, 10, 10);
    assert!(sampler.get_height_for_lon_lat(55, 55).is_none());
    // Off the right edge one corner is off-raster, so again no data.
    assert!(sampler.get_height_for_lon_lat(95, 55).is_none());
}

#[test]
fn repeated_queries_are_identical() {
    let sampler = midpoint_sampler();
    let a = sampler.get_height_for_lon_lat(53, 57);
    let b = sampler.get_height_for_lon_lat(53, 57);
    assert_eq!(a, b);
    let c = sampler.get_height_for_lon_lat_fast(53, 57);
    let d = sampler.get_height_for_lon_lat_fast(53, 57);
    assert_eq!(c, d);
}

#[test]
fn nearest_truncates_toward_zero() {
    let sampler = midpoint_sampler();
    // (5.7, 5.2) truncates to pixel (5, 5).
    assert_eq!(sampler.get_height_for_lon_lat_fast(57, 52), Some(100));
    // (6.2, 5.9) truncates to pixel (6, 5).
    assert_eq!(sampler.get_height_for_lon_lat_fast(62, 59), Some(200));
    // (-0.5, -0.5) truncates to pixel (0, 0): still a single read.
    assert_eq!(sampler.get_height_for_lon_lat_fast(-5, -5), Some(10));
    // (-1.5, 0.0) truncates to column -1, which is off-raster.
    assert_eq!(sampler.get_height_for_lon_lat_fast(-15, 0), None);
}

#[test]
fn nearest_rejects_non_float_cell() {
    let w = 10;
    let mut cells = grid(w, 10, 7);
    set(&mut cells, w, 5, 5, RasterValue::Other);
    let raster = Raster::new(w, 10, cells).unwrap();
    let sampler = GeoTiffElevation::new(raster, 0, 0, 10, 10);
    assert_eq!(sampler.get_height_for_lon_lat_fast(55, 55), None);
}

#[test]
fn negative_pixel_size_bounds() {
    // Origin (10.0, 50.0), pixel size (0.1, -0.1), 100x100 pixels, at
    // scale 10: the envelope is (10.0, 40.0, 20.0, 50.0).
    let raster = Raster::new(100, 100, grid(100, 100, 0)).unwrap();
    let sampler = GeoTiffElevation::new(raster, 100, 500, 1, -1);
    assert_eq!(sampler.get_bounds(), (100, 400, 200, 500));
}

#[test]
fn positive_pixel_size_bounds() {
    let raster = Raster::new(10, 10, grid(10, 10, 0)).unwrap();
    let sampler = GeoTiffElevation::new(raster, 0, 0, 1, 1);
    assert_eq!(sampler.get_bounds(), (0, 0, 10, 10));
}

#[test]
fn negative_pixel_size_sampling() {
    // With a negative latitude step, row j sits at latitude 50.0 - 0.1*j.
    let w = 100;
    let mut cells = grid(w, 100, 0);
    set(&mut cells, w, 2, 3, RasterValue::F32(77));
    let raster = Raster::new(w, 100, cells).unwrap();
    let sampler = GeoTiffElevation::new(raster, 100, 500, 1, -1);
    let h = sampler.get_height_for_lon_lat(102, 497).unwrap();
    assert!(h.is_exactly(77));
    assert_eq!(sampler.get_height_for_lon_lat_fast(102, 497), Some(77));
}

#[test]
fn raster_rejects_wrong_cell_count() {
    assert!(Raster::new(10, 10, grid(10, 9, 0)).is_none());
}

#[test]
fn raster_rejects_out_of_range_sample() {
    let w = 10;
    let mut cells = grid(w, 10, 0);
    set(&mut cells, w, 3, 3, RasterValue::F32(1_000_000_001));
    assert!(Raster::new(w, 10, cells).is_none());
}

#[test]
fn height_comparisons() {
    let h = Height { num: 5, den: 2 };
    assert!(!h.is_exactly(2));
    assert!(h.at_least(2));
    assert!(h.at_most(3));
    assert!(!h.at_most(2));
    assert!(!h.at_least(3));
}
