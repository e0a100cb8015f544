//! The in-memory elevation grid the sampler reads from.
//!
//! Each cell carries the tag the raster store decoded for it: only cells
//! tagged as single-precision float samples hold usable elevations; every
//! other encoding is treated uniformly as absent data.

use vstd::prelude::*;

verus! {

/// Largest magnitude, in model units, of an elevation sample the grid
/// may hold.  Keeps every interpolation term inside machine range.
pub const VALUE_LIMIT: i64 = 1_000_000_000;

/// One cell of the grid, as the raster store tags it.
///
/// `F32` is the single-precision elevation tag, carrying the sample in
/// model units.  `Other` stands for every different encoding (integer
/// bands, multi-band data, the store's no-data marker); the sampler
/// treats all of them uniformly as absent data.
#[derive(Clone, Copy)]
pub enum RasterValue {
    F32(i64),
    Other,
}

/// A sample is usable only when its magnitude stays within `VALUE_LIMIT`.
pub open spec fn cell_ok(c: RasterValue) -> bool {
    match c {
        RasterValue::F32(v) => -VALUE_LIMIT <= v <= VALUE_LIMIT,
        RasterValue::Other => true,
    }
}

/// A `width` by `height` grid of tagged cells, row-major from the top-left
/// pixel.
pub struct Raster {
    pub width: u32,
    pub height: u32,
    pub cells: Vec<RasterValue>,
}

impl Raster {
    /// Shape and sample bounds: one cell per pixel, every float-tagged
    /// sample within `VALUE_LIMIT`.
    pub open spec fn wf(self) -> bool {
        &&& self.cells@.len() == (self.width as int) * (self.height as int)
        &&& forall|k: int| 0 <= k < self.cells@.len() ==> cell_ok(#[trigger] self.cells@[k])
    }

    /// The sample at pixel `(x, y)`: defined exactly when the pixel lies
    /// on the raster and its cell carries the float tag.
    pub open spec fn spec_value_at(self, x: int, y: int) -> Option<i64> {
        if 0 <= x < self.width && 0 <= y < self.height {
            match self.cells@[y * (self.width as int) + x] {
                RasterValue::F32(v) => Some(v),
                RasterValue::Other => None,
            }
        } else {
            None
        }
    }

    /// Builds a grid after checking its shape and sample bounds; yields
    /// nothing exactly when the cell count does not match the dimensions
    /// or some float-tagged sample is out of range.
    pub fn new(width: u32, height: u32, cells: Vec<RasterValue>) -> (r: Option<Raster>)
        ensures
            match r {
                Some(g) => {
                    &&& g.wf()
                    &&& g.width == width
                    &&& g.height == height
                    &&& g.cells@ == cells@
                },
                None => {
                    ||| cells@.len() != (width as int) * (height as int)
                    ||| exists|k: int|
                        0 <= k < cells@.len() && !cell_ok(#[trigger] cells@[k])
                },
            },
    {
        proof {
            assert((width as int) * (height as int) < 0x10000000000000000int) by (nonlinear_arith)
                requires
                    0 <= width < 0x100000000int,
                    0 <= height < 0x100000000int,
            ;
        }
        if (cells.len() as u64) != (width as u64) * (height as u64) {
            return None;
        }
        let mut k: usize = 0;
        while k < cells.len()
            invariant
                0 <= k <= cells@.len(),
                forall|j: int| 0 <= j < k ==> cell_ok(#[trigger] cells@[j]),
            decreases cells@.len() - k,
        {
            match cells[k] {
                RasterValue::F32(v) => {
                    if v < -VALUE_LIMIT || v > VALUE_LIMIT {
                        return None;
                    }
                },
                RasterValue::Other => {},
            }
            k = k + 1;
        }
        Some(Raster { width, height, cells })
    }
}

/// Any defined sample of a well-formed grid stays within `VALUE_LIMIT`.
pub proof fn lemma_value_at_bounded(g: Raster, x: int, y: int, v: i64)
    requires
        g.wf(),
        g.spec_value_at(x, y) == Some(v),
    ensures
        -VALUE_LIMIT <= v <= VALUE_LIMIT,
{
    assert(0 <= y * (g.width as int) + x < g.cells@.len()) by (nonlinear_arith)
        requires
            0 <= x < g.width as int,
            0 <= y < g.height as int,
            g.cells@.len() == (g.width as int) * (g.height as int),
    ;
    assert(cell_ok(g.cells@[y * (g.width as int) + x]));
}

} // verus!
