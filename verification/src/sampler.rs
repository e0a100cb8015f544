//! The elevation sampler: coordinate-to-pixel transform, bilinear
//! sampling, fast nearest-pixel sampling, and bounds reporting.
//!
//! Geographic coordinates, pixel sizes and samples are `i64` values in one
//! consistent caller-chosen scale.  The fractional pixel coordinate of a
//! query is kept exactly as a numerator over the positive denominator
//! `|pixel size|`, so floor, ceiling and the bilinear weights are exact.

use vstd::prelude::*;

verus! {

use vstd::arithmetic::div_mod::lemma_div_multiples_vanish;
use vstd::arithmetic::div_mod::lemma_fundamental_div_mod;
use vstd::arithmetic::div_mod::lemma_mod_division_less_than_divisor;
use vstd::arithmetic::div_mod::lemma_mod_multiples_basic;
use vstd::math::max;
use vstd::math::min;

use crate::height::DEN_LIMIT;
use crate::height::Height;
use crate::intdiv::floor_div;
use crate::intdiv::trunc_div;
use crate::intdiv::trunc_div_spec;
use crate::raster::lemma_value_at_bounded;
use crate::raster::Raster;
use crate::raster::RasterValue;
use crate::raster::VALUE_LIMIT;

/// Largest magnitude, in model units, of the raster geometry: origin
/// components, pixel sizes, and the full extents `|pixel size| * width`
/// and `|pixel size| * height`.
pub const GEO_LIMIT: i64 = 1_000_000_000_000;

/// Numerator of the exact fractional pixel coordinate along one axis,
/// after normalizing signs so that the denominator is positive:
/// `(coord - org) / ps == axis_num(coord, org, ps) / axis_den(ps)`.
pub open spec fn axis_num(coord: int, org: int, ps: int) -> int {
    if ps >= 0 {
        coord - org
    } else {
        org - coord
    }
}

/// Positive denominator of the fractional pixel coordinate: `|ps|`.
pub open spec fn axis_den(ps: int) -> int {
    if ps >= 0 {
        ps
    } else {
        -ps
    }
}

/// Index of the grid line at or below the exact pixel coordinate
/// (mathematical floor), for a nonzero pixel size.
pub open spec fn pix_floor(coord: int, org: int, ps: int) -> int {
    axis_num(coord, org, ps) / axis_den(ps)
}

/// Offset of the exact pixel coordinate above that grid line, in
/// `axis_den(ps)`-ths of one pixel; zero exactly on a grid line.
pub open spec fn pix_rem(coord: int, org: int, ps: int) -> int {
    axis_num(coord, org, ps) % axis_den(ps)
}

/// Pixel index the exact coordinate truncates to (toward zero), as the
/// fast nearest path rounds.
pub open spec fn pix_trunc(coord: int, org: int, ps: int) -> int {
    trunc_div_spec(axis_num(coord, org, ps), axis_den(ps))
}

/// The least of four values.
pub open spec fn min4(a: int, b: int, c: int, d: int) -> int {
    min(min(a, b), min(c, d))
}

/// The greatest of four values.
pub open spec fn max4(a: int, b: int, c: int, d: int) -> int {
    max(max(a, b), max(c, d))
}

/// Elevation sampler over a georeferenced raster grid.
///
/// `top_left` is the geographic coordinate of the raster's top-left pixel
/// corner and `pixel_size` the geographic delta per pixel step along each
/// axis; either component may be negative when the axis runs opposite to
/// increasing pixel index.  Both are fixed at construction.
pub struct GeoTiffElevation {
    pub raster: Raster,
    pub top_left_lon: i64,
    pub top_left_lat: i64,
    pub pixel_size_lon: i64,
    pub pixel_size_lat: i64,
}

impl GeoTiffElevation {
    /// Construction-time validity: a well-formed grid, nonzero pixel
    /// sizes, and geometry within `GEO_LIMIT` so every derivation stays
    /// in machine range.
    pub open spec fn wf(self) -> bool {
        &&& self.raster.wf()
        &&& self.pixel_size_lon != 0
        &&& self.pixel_size_lat != 0
        &&& -GEO_LIMIT <= self.top_left_lon <= GEO_LIMIT
        &&& -GEO_LIMIT <= self.top_left_lat <= GEO_LIMIT
        &&& -GEO_LIMIT <= self.pixel_size_lon <= GEO_LIMIT
        &&& -GEO_LIMIT <= self.pixel_size_lat <= GEO_LIMIT
        &&& axis_den(self.pixel_size_lon as int) * (self.raster.width as int) <= GEO_LIMIT
        &&& axis_den(self.pixel_size_lat as int) * (self.raster.height as int) <= GEO_LIMIT
    }

    /// Column of the corner left of (or at) the query point.
    pub open spec fn x1(self, lon: int) -> int {
        pix_floor(lon, self.top_left_lon as int, self.pixel_size_lon as int)
    }

    /// Column of the corner right of (or at) the query point: the
    /// ceiling, which equals `x1` exactly on a grid line.
    pub open spec fn x2(self, lon: int) -> int {
        if pix_rem(lon, self.top_left_lon as int, self.pixel_size_lon as int) == 0 {
            self.x1(lon)
        } else {
            self.x1(lon) + 1
        }
    }

    /// Row of the corner above (or at) the query point.
    pub open spec fn y1(self, lat: int) -> int {
        pix_floor(lat, self.top_left_lat as int, self.pixel_size_lat as int)
    }

    /// Row of the corner below (or at) the query point.
    pub open spec fn y2(self, lat: int) -> int {
        if pix_rem(lat, self.top_left_lat as int, self.pixel_size_lat as int) == 0 {
            self.y1(lat)
        } else {
            self.y1(lat) + 1
        }
    }

    /// All four bilinear corner samples are defined.
    pub open spec fn corners_defined(self, lon: int, lat: int) -> bool {
        &&& self.raster.spec_value_at(self.x1(lon), self.y1(lat)) is Some
        &&& self.raster.spec_value_at(self.x2(lon), self.y1(lat)) is Some
        &&& self.raster.spec_value_at(self.x1(lon), self.y2(lat)) is Some
        &&& self.raster.spec_value_at(self.x2(lon), self.y2(lat)) is Some
    }

    /// A corner sample, read as zero when undefined (only used under
    /// `corners_defined`).
    pub open spec fn corner_val(self, x: int, y: int) -> int {
        match self.raster.spec_value_at(x, y) {
            Some(v) => v as int,
            None => 0,
        }
    }

    /// Denominator of the bilinear combination: the area of one pixel
    /// cell in numerator units, `|pixel_size_lon| * |pixel_size_lat|`.
    pub open spec fn bilinear_den(self) -> int {
        axis_den(self.pixel_size_lon as int) * axis_den(self.pixel_size_lat as int)
    }

    /// Numerator of the bilinear combination: each corner weighted by
    /// the area of the opposite sub-cell.  Exactly on a grid line the
    /// off-line weights vanish, so the formula degenerates to the aligned
    /// samples and no zero-width span is ever divided by.
    pub open spec fn bilinear_num(self, lon: int, lat: int) -> int {
        let dx = axis_den(self.pixel_size_lon as int);
        let dy = axis_den(self.pixel_size_lat as int);
        let rx = pix_rem(lon, self.top_left_lon as int, self.pixel_size_lon as int);
        let ry = pix_rem(lat, self.top_left_lat as int, self.pixel_size_lat as int);
        let v11 = self.corner_val(self.x1(lon), self.y1(lat));
        let v21 = self.corner_val(self.x2(lon), self.y1(lat));
        let v12 = self.corner_val(self.x1(lon), self.y2(lat));
        let v22 = self.corner_val(self.x2(lon), self.y2(lat));
        v11 * (dx - rx) * (dy - ry) + v21 * rx * (dy - ry) + v12 * (dx - rx) * ry + v22 * rx * ry
    }

    /// Everything bilinear sampling promises: a height comes back exactly
    /// when all four corners are defined, and it is then the exact
    /// bilinear combination of the four corner samples.
    pub open spec fn sample_post(self, lon: int, lat: int, r: Option<Height>) -> bool {
        match r {
            Some(h) => {
                &&& self.corners_defined(lon, lat)
                &&& h.num == self.bilinear_num(lon, lat)
                &&& h.den == self.bilinear_den()
                &&& h.wf()
            },
            None => !self.corners_defined(lon, lat),
        }
    }

    /// Column the fast nearest path reads.
    pub open spec fn nearest_x(self, lon: int) -> int {
        pix_trunc(lon, self.top_left_lon as int, self.pixel_size_lon as int)
    }

    /// Row the fast nearest path reads.
    pub open spec fn nearest_y(self, lat: int) -> int {
        pix_trunc(lat, self.top_left_lat as int, self.pixel_size_lat as int)
    }

    /// Longitude of the raster corner opposite the origin.
    pub open spec fn corner_lon(self) -> int {
        self.top_left_lon + self.pixel_size_lon * (self.raster.width as int)
    }

    /// Latitude of the raster corner opposite the origin.
    pub open spec fn corner_lat(self) -> int {
        self.top_left_lat + self.pixel_size_lat * (self.raster.height as int)
    }

    /// Builds a sampler from a decoded grid and its cached geometry.
    ///
    /// A raster whose geometry is missing, zero-sized per pixel, or out of
    /// model range cannot be sampled at all; such input is a
    /// construction-time precondition violation, so the caller must
    /// validate it and fail loudly rather than call through.
    pub fn new(
        raster: Raster,
        top_left_lon: i64,
        top_left_lat: i64,
        pixel_size_lon: i64,
        pixel_size_lat: i64,
    ) -> (s: GeoTiffElevation)
        requires
            raster.wf(),
            pixel_size_lon != 0,
            pixel_size_lat != 0,
            -GEO_LIMIT <= top_left_lon <= GEO_LIMIT,
            -GEO_LIMIT <= top_left_lat <= GEO_LIMIT,
            -GEO_LIMIT <= pixel_size_lon <= GEO_LIMIT,
            -GEO_LIMIT <= pixel_size_lat <= GEO_LIMIT,
            axis_den(pixel_size_lon as int) * (raster.width as int) <= GEO_LIMIT,
            axis_den(pixel_size_lat as int) * (raster.height as int) <= GEO_LIMIT,
        ensures
            s.wf(),
            s.raster == raster,
            s.top_left_lon == top_left_lon,
            s.top_left_lat == top_left_lat,
            s.pixel_size_lon == pixel_size_lon,
            s.pixel_size_lat == pixel_size_lat,
    {
        GeoTiffElevation { raster, top_left_lon, top_left_lat, pixel_size_lon, pixel_size_lat }
    }

    /// The sample at integer pixel `(x, y)`: defined only for an
    /// on-raster pixel whose cell carries the single-precision float tag;
    /// any other encoding, and any out-of-range index, is absent data
    /// rather than an error.
    pub fn get_value(&self, x: i128, y: i128) -> (r: Option<i64>)
        requires
            self.wf(),
        ensures
            r == self.raster.spec_value_at(x as int, y as int),
    {
        if 0 <= x && x < self.raster.width as i128 && 0 <= y && y < self.raster.height as i128 {
            let len: usize = self.raster.cells.len();
            proof {
                assert((y as int) * (self.raster.width as int) + (x as int) < (
                self.raster.width as int) * (self.raster.height as int)) by (nonlinear_arith)
                    requires
                        0 <= x as int,
                        (x as int) < self.raster.width as int,
                        0 <= y as int,
                        (y as int) < self.raster.height as int,
                ;
                assert((self.raster.width as int) * (self.raster.height as int) == len as int);
            }
            let idx: usize = (y as usize) * (self.raster.width as usize) + (x as usize);
            match self.raster.cells[idx] {
                RasterValue::F32(v) => Some(v),
                RasterValue::Other => None,
            }
        } else {
            None
        }
    }

    /// Uses bilinear interpolation over the four corner samples around
    /// the query point; absent data as soon as any one corner is
    /// off-raster or not float-tagged — never a partial result.
    pub fn get_height_for_lon_lat(&self, lon: i64, lat: i64) -> (r: Option<Height>)
        requires
            self.wf(),
        ensures
            self.sample_post(lon as int, lat as int, r),
    {
        let (_nx, dx, x1f, rx): (i128, i128, i128, i128) = axis_parts(
            lon,
            self.top_left_lon,
            self.pixel_size_lon,
        );
        let (_ny, dy, y1f, ry): (i128, i128, i128, i128) = axis_parts(
            lat,
            self.top_left_lat,
            self.pixel_size_lat,
        );
        let x2f: i128 = if rx == 0 {
            x1f
        } else {
            x1f + 1
        };
        let y2f: i128 = if ry == 0 {
            y1f
        } else {
            y1f + 1
        };
        proof {
            assert(x1f == self.x1(lon as int));
            assert(x2f == self.x2(lon as int));
            assert(y1f == self.y1(lat as int));
            assert(y2f == self.y2(lat as int));
        }
        let v11: i64 = match self.get_value(x1f, y1f) {
            Some(v) => v,
            None => {
                return None;
            },
        };
        let v21: i64 = match self.get_value(x2f, y1f) {
            Some(v) => v,
            None => {
                return None;
            },
        };
        let v12: i64 = match self.get_value(x1f, y2f) {
            Some(v) => v,
            None => {
                return None;
            },
        };
        let v22: i64 = match self.get_value(x2f, y2f) {
            Some(v) => v,
            None => {
                return None;
            },
        };
        proof {
            lemma_value_at_bounded(self.raster, x1f as int, y1f as int, v11);
            lemma_value_at_bounded(self.raster, x2f as int, y1f as int, v21);
            lemma_value_at_bounded(self.raster, x1f as int, y2f as int, v12);
            lemma_value_at_bounded(self.raster, x2f as int, y2f as int, v22);
            lemma_term_in_range(v11 as int, (dx - rx) as int, (dy - ry) as int);
            lemma_term_in_range(v21 as int, rx as int, (dy - ry) as int);
            lemma_term_in_range(v12 as int, (dx - rx) as int, ry as int);
            lemma_term_in_range(v22 as int, rx as int, ry as int);
            lemma_den_in_range(dx as int, dy as int);
            lemma_bilinear_bounds(
                v11 as int,
                v21 as int,
                v12 as int,
                v22 as int,
                rx as int,
                dx as int,
                ry as int,
                dy as int,
                -(VALUE_LIMIT as int),
                VALUE_LIMIT as int,
            );
        }
        let wx1: i128 = dx - rx;
        let wy1: i128 = dy - ry;
        let t11: i128 = (v11 as i128) * wx1 * wy1;
        let t21: i128 = (v21 as i128) * rx * wy1;
        let t12: i128 = (v12 as i128) * wx1 * ry;
        let t22: i128 = (v22 as i128) * rx * ry;
        let num: i128 = t11 + t21 + t12 + t22;
        let den: i128 = dx * dy;
        Some(Height { num, den })
    }

    /// Fast nearest-pixel sampling: truncates the fractional pixel
    /// coordinate toward zero and issues one read, with no interpolation.
    /// A lower-accuracy, lower-cost alternative to bilinear sampling.
    pub fn get_height_for_lon_lat_fast(&self, lon: i64, lat: i64) -> (r: Option<i64>)
        requires
            self.wf(),
        ensures
            r == self.raster.spec_value_at(
                self.nearest_x(lon as int),
                self.nearest_y(lat as int),
            ),
    {
        let (nx, dx): (i128, i128) = axis_norm(lon, self.top_left_lon, self.pixel_size_lon);
        let (ny, dy): (i128, i128) = axis_norm(lat, self.top_left_lat, self.pixel_size_lat);
        let tx: i128 = trunc_div(nx, dx);
        let ty: i128 = trunc_div(ny, dy);
        self.get_value(tx, ty)
    }

    /// The geographic envelope `(lon_min, lat_min, lon_max, lat_max)` of
    /// the full raster extent.  Each axis is ordered independently, so
    /// the envelope is ordered even when a pixel size is negative and the
    /// origin is not the geometric minimum corner.
    pub fn get_bounds(&self) -> (r: (i64, i64, i64, i64))
        requires
            self.wf(),
        ensures
            r.0 == min(self.top_left_lon as int, self.corner_lon()),
            r.1 == min(self.top_left_lat as int, self.corner_lat()),
            r.2 == max(self.top_left_lon as int, self.corner_lon()),
            r.3 == max(self.top_left_lat as int, self.corner_lat()),
            r.0 <= r.2,
            r.1 <= r.3,
    {
        proof {
            lemma_extent_in_range(
                self.pixel_size_lon as int,
                self.raster.width as int,
                axis_den(self.pixel_size_lon as int),
            );
            lemma_extent_in_range(
                self.pixel_size_lat as int,
                self.raster.height as int,
                axis_den(self.pixel_size_lat as int),
            );
        }
        let blon: i64 = self.top_left_lon + self.pixel_size_lon * (self.raster.width as i64);
        let blat: i64 = self.top_left_lat + self.pixel_size_lat * (self.raster.height as i64);
        let lon_min: i64 = if self.top_left_lon <= blon {
            self.top_left_lon
        } else {
            blon
        };
        let lon_max: i64 = if self.top_left_lon <= blon {
            blon
        } else {
            self.top_left_lon
        };
        let lat_min: i64 = if self.top_left_lat <= blat {
            self.top_left_lat
        } else {
            blat
        };
        let lat_max: i64 = if self.top_left_lat <= blat {
            blat
        } else {
            self.top_left_lat
        };
        (lon_min, lat_min, lon_max, lat_max)
    }
}

/// Normalized fractional pixel coordinate along one axis: the numerator
/// and the positive denominator.
fn axis_norm(coord: i64, org: i64, ps: i64) -> (r: (i128, i128))
    requires
        ps != 0,
        -GEO_LIMIT <= ps <= GEO_LIMIT,
    ensures
        r.0 == axis_num(coord as int, org as int, ps as int),
        r.1 == axis_den(ps as int),
        0 < r.1 <= GEO_LIMIT,
{
    if ps >= 0 {
        (coord as i128 - org as i128, ps as i128)
    } else {
        (org as i128 - coord as i128, -(ps as i128))
    }
}

/// Floor index and exact remainder of the fractional pixel coordinate
/// along one axis.
fn axis_parts(coord: i64, org: i64, ps: i64) -> (r: (i128, i128, i128, i128))
    requires
        ps != 0,
        -GEO_LIMIT <= ps <= GEO_LIMIT,
    ensures
        r.0 == axis_num(coord as int, org as int, ps as int),
        r.1 == axis_den(ps as int),
        0 < r.1 <= GEO_LIMIT,
        r.2 == pix_floor(coord as int, org as int, ps as int),
        r.3 == pix_rem(coord as int, org as int, ps as int),
        0 <= r.3 < r.1,
        r.0 < 0 ==> r.0 <= r.2 <= 0,
        0 <= r.0 ==> 0 <= r.2 <= r.0,
{
    let (n, d): (i128, i128) = axis_norm(coord, org, ps);
    let q: i128 = floor_div(n, d);
    proof {
        lemma_fundamental_div_mod(n as int, d as int);
        lemma_mod_division_less_than_divisor(n as int, d as int);
        assert((q as int) * (d as int) == (d as int) * (q as int)) by (nonlinear_arith);
    }
    let rem: i128 = n - q * d;
    (n, d, q, rem)
}

/// One bilinear term `v * a * b` stays within machine range when the
/// sample and both weights are bounded.
proof fn lemma_term_in_range(v: int, a: int, b: int)
    by (nonlinear_arith)
    requires
        -VALUE_LIMIT <= v <= VALUE_LIMIT,
        0 <= a <= GEO_LIMIT,
        0 <= b <= GEO_LIMIT,
    ensures
        -(VALUE_LIMIT as int) * (GEO_LIMIT as int) <= v * a <= (VALUE_LIMIT as int) * (
        GEO_LIMIT as int),
        -(VALUE_LIMIT as int) * (GEO_LIMIT as int) * (GEO_LIMIT as int) <= v * a * b <= (
        VALUE_LIMIT as int) * (GEO_LIMIT as int) * (GEO_LIMIT as int),
{
}

/// The bilinear denominator stays within `DEN_LIMIT`.
proof fn lemma_den_in_range(dx: int, dy: int)
    by (nonlinear_arith)
    requires
        0 < dx <= GEO_LIMIT,
        0 < dy <= GEO_LIMIT,
    ensures
        0 < dx * dy <= DEN_LIMIT,
{
}

/// A bounded extent `|ps| * n <= GEO_LIMIT` bounds the signed extent
/// `ps * n` both ways.
proof fn lemma_extent_in_range(ps: int, n: int, den: int)
    by (nonlinear_arith)
    requires
        den == axis_den(ps),
        den * n <= GEO_LIMIT,
        0 <= n,
    ensures
        -GEO_LIMIT <= ps * n <= GEO_LIMIT,
{
}

/// The bilinear combination of four samples, each weighted by the area of
/// the opposite sub-cell, lies between `lo * (dx * dy)` and
/// `hi * (dx * dy)` whenever every sample lies in `[lo, hi]`.
pub proof fn lemma_bilinear_bounds(
    v11: int,
    v21: int,
    v12: int,
    v22: int,
    rx: int,
    dx: int,
    ry: int,
    dy: int,
    lo: int,
    hi: int,
)
    requires
        0 <= rx < dx,
        0 <= ry < dy,
        lo <= v11 <= hi,
        lo <= v21 <= hi,
        lo <= v12 <= hi,
        lo <= v22 <= hi,
    ensures
        lo * (dx * dy) <= v11 * (dx - rx) * (dy - ry) + v21 * rx * (dy - ry) + v12 * (dx - rx) * ry
            + v22 * rx * ry,
        v11 * (dx - rx) * (dy - ry) + v21 * rx * (dy - ry) + v12 * (dx - rx) * ry + v22 * rx * ry
            <= hi * (dx * dy),
{
    let w11 = (dx - rx) * (dy - ry);
    let w21 = rx * (dy - ry);
    let w12 = (dx - rx) * ry;
    let w22 = rx * ry;
    assert(0 <= w11 && 0 <= w21 && 0 <= w12 && 0 <= w22) by (nonlinear_arith)
        requires
            0 <= rx < dx,
            0 <= ry < dy,
            w11 == (dx - rx) * (dy - ry),
            w21 == rx * (dy - ry),
            w12 == (dx - rx) * ry,
            w22 == rx * ry,
    ;
    assert(w11 + w21 + w12 + w22 == dx * dy) by (nonlinear_arith)
        requires
            w11 == (dx - rx) * (dy - ry),
            w21 == rx * (dy - ry),
            w12 == (dx - rx) * ry,
            w22 == rx * ry,
    ;
    assert(lo * w11 <= v11 * w11 <= hi * w11) by (nonlinear_arith)
        requires
            lo <= v11 <= hi,
            0 <= w11,
    ;
    assert(lo * w21 <= v21 * w21 <= hi * w21) by (nonlinear_arith)
        requires
            lo <= v21 <= hi,
            0 <= w21,
    ;
    assert(lo * w12 <= v12 * w12 <= hi * w12) by (nonlinear_arith)
        requires
            lo <= v12 <= hi,
            0 <= w12,
    ;
    assert(lo * w22 <= v22 * w22 <= hi * w22) by (nonlinear_arith)
        requires
            lo <= v22 <= hi,
            0 <= w22,
    ;
    assert(v11 * (dx - rx) * (dy - ry) == v11 * w11 && v21 * rx * (dy - ry) == v21 * w21 && v12 * (
    dx - rx) * ry == v12 * w12 && v22 * rx * ry == v22 * w22) by (nonlinear_arith)
        requires
            w11 == (dx - rx) * (dy - ry),
            w21 == rx * (dy - ry),
            w12 == (dx - rx) * ry,
            w22 == rx * ry,
    ;
    assert(lo * w11 + lo * w21 + lo * w12 + lo * w22 == lo * (w11 + w21 + w12 + w22))
        by (nonlinear_arith);
    assert(hi * w11 + hi * w21 + hi * w12 + hi * w22 == hi * (w11 + w21 + w12 + w22))
        by (nonlinear_arith);
    assert(lo * (dx * dy) == lo * (w11 + w21 + w12 + w22) && hi * (dx * dy) == hi * (w11 + w21 + w12
        + w22)) by (nonlinear_arith)
        requires
            w11 + w21 + w12 + w22 == dx * dy,
    ;
}

/// Determinism: the bilinear sampling contract pins its result, so any
/// two results that satisfy it for the same sampler and query are equal.
pub proof fn lemma_sample_deterministic(
    s: GeoTiffElevation,
    lon: int,
    lat: int,
    r1: Option<Height>,
    r2: Option<Height>,
)
    requires
        s.sample_post(lon, lat, r1),
        s.sample_post(lon, lat, r2),
    ensures
        r1 == r2,
{
}

/// Determinism of the fast path: the nearest-pixel contract equates the
/// result with one fixed sample of the grid, so any two results that
/// satisfy it for the same sampler and query are equal.
pub proof fn lemma_nearest_deterministic(
    s: GeoTiffElevation,
    lon: int,
    lat: int,
    r1: Option<i64>,
    r2: Option<i64>,
)
    requires
        r1 == s.raster.spec_value_at(s.nearest_x(lon), s.nearest_y(lat)),
        r2 == s.raster.spec_value_at(s.nearest_x(lon), s.nearest_y(lat)),
    ensures
        r1 == r2,
{
}

/// Convex-combination bound: a defined bilinear sample lies between the
/// least and the greatest of its four corner samples.
pub proof fn lemma_sample_convex_bound(s: GeoTiffElevation, lon: int, lat: int)
    requires
        s.wf(),
        s.corners_defined(lon, lat),
    ensures
        ({
            let v11 = s.corner_val(s.x1(lon), s.y1(lat));
            let v21 = s.corner_val(s.x2(lon), s.y1(lat));
            let v12 = s.corner_val(s.x1(lon), s.y2(lat));
            let v22 = s.corner_val(s.x2(lon), s.y2(lat));
            &&& min4(v11, v21, v12, v22) * s.bilinear_den() <= s.bilinear_num(lon, lat)
            &&& s.bilinear_num(lon, lat) <= max4(v11, v21, v12, v22) * s.bilinear_den()
        }),
{
    let dx = axis_den(s.pixel_size_lon as int);
    let dy = axis_den(s.pixel_size_lat as int);
    let rx = pix_rem(lon, s.top_left_lon as int, s.pixel_size_lon as int);
    let ry = pix_rem(lat, s.top_left_lat as int, s.pixel_size_lat as int);
    lemma_mod_division_less_than_divisor(
        axis_num(lon, s.top_left_lon as int, s.pixel_size_lon as int),
        dx,
    );
    lemma_mod_division_less_than_divisor(
        axis_num(lat, s.top_left_lat as int, s.pixel_size_lat as int),
        dy,
    );
    let v11 = s.corner_val(s.x1(lon), s.y1(lat));
    let v21 = s.corner_val(s.x2(lon), s.y1(lat));
    let v12 = s.corner_val(s.x1(lon), s.y2(lat));
    let v22 = s.corner_val(s.x2(lon), s.y2(lat));
    lemma_bilinear_bounds(
        v11,
        v21,
        v12,
        v22,
        rx,
        dx,
        ry,
        dy,
        min4(v11, v21, v12, v22),
        max4(v11, v21, v12, v22),
    );
}

/// Corner exactness: at the exact geographic coordinate of a defined
/// pixel, the bilinear formula degenerates to that pixel's own sample.
pub proof fn lemma_sample_corner_exact(s: GeoTiffElevation, i: int, j: int, v: i64)
    requires
        s.wf(),
        s.raster.spec_value_at(i, j) == Some(v),
    ensures
        ({
            let lon = s.top_left_lon + i * s.pixel_size_lon;
            let lat = s.top_left_lat + j * s.pixel_size_lat;
            &&& s.corners_defined(lon, lat)
            &&& s.bilinear_num(lon, lat) == v * s.bilinear_den()
        }),
{
    let lon = s.top_left_lon + i * s.pixel_size_lon;
    let lat = s.top_left_lat + j * s.pixel_size_lat;
    lemma_axis_on_grid_line(lon, s.top_left_lon as int, s.pixel_size_lon as int, i);
    lemma_axis_on_grid_line(lat, s.top_left_lat as int, s.pixel_size_lat as int, j);
    assert(s.x1(lon) == i && s.x2(lon) == i);
    assert(s.y1(lat) == j && s.y2(lat) == j);
    let dx = axis_den(s.pixel_size_lon as int);
    let dy = axis_den(s.pixel_size_lat as int);
    assert((v as int) * (dx - 0) * (dy - 0) + (v as int) * 0 * (dy - 0) + (v as int) * (dx - 0) * 0
        + (v as int) * 0 * 0 == (v as int) * (dx * dy)) by (nonlinear_arith);
}

/// A coordinate lying exactly on grid line `i` has floor index `i` and
/// remainder zero along that axis.
proof fn lemma_axis_on_grid_line(coord: int, org: int, ps: int, i: int)
    requires
        ps != 0,
        coord == org + i * ps,
    ensures
        pix_floor(coord, org, ps) == i,
        pix_rem(coord, org, ps) == 0,
{
    let d = axis_den(ps);
    assert(axis_num(coord, org, ps) == i * d) by (nonlinear_arith)
        requires
            ps != 0,
            coord == org + i * ps,
            d == axis_den(ps),
            axis_num(coord, org, ps) == (if ps >= 0 {
                coord - org
            } else {
                org - coord
            }),
            d == (if ps >= 0 {
                ps
            } else {
                -ps
            }),
    ;
    lemma_div_multiples_vanish(i, d);
    lemma_mod_multiples_basic(i, d);
    assert(i * d == d * i) by (nonlinear_arith);
}

} // verus!
