//! Which raster cell a sample is read from, and what a failed sample means.
//!
//! The caller maps a coordinate to fractional pixel coordinates with the
//! raster's inverted geotransform and truncates them toward zero. From there
//! on everything is integral: this module decides whether the truncated cell
//! lies inside the raster and turns the outcome of the single-cell read into
//! an elevation or a [`SamplingError`].

use vstd::prelude::*;

verus! {

/// How one elevation value is derived from the raster around the cell.
#[derive(Clone, Copy, Debug, PartialEq, Eq, Structural)]
pub enum Resampling {
    NearestNeighbour,
    Bilinear,
}

impl Default for Resampling {
    fn default() -> (r: Resampling)
        ensures
            r == Resampling::NearestNeighbour,
    {
        Resampling::NearestNeighbour
    }
}

/// A read of exactly one raster cell.
#[derive(Clone, Copy, Debug, PartialEq, Eq, Structural)]
pub struct PixelRead {
    pub column: usize,
    pub row: usize,
    pub resampling: Resampling,
}

/// Why a node got no elevation. Either is fatal for the run: a missing
/// elevation would silently corrupt every statistic that depends on it.
#[derive(Clone, Copy, Debug, PartialEq, Eq, Structural)]
pub enum SamplingError {
    /// The truncated pixel coordinates lie outside the raster.
    OutsideRaster { column: i64, row: i64 },
    /// The cell lies inside the raster but could not be read.
    ReadFailed { read: PixelRead },
}

/// Whether the cell `(column, row)` exists in a raster of the given size.
pub open spec fn inside_raster(column: int, row: int, width: nat, height: nat) -> bool {
    0 <= column < width && 0 <= row < height
}

/// The read that is due for the cell `(column, row)`: of that one cell when
/// it lies inside the raster, an error naming the cell otherwise.
pub open spec fn planned_read(
    column: i64,
    row: i64,
    width: usize,
    height: usize,
    resampling: Resampling,
) -> Result<PixelRead, SamplingError> {
    if inside_raster(column as int, row as int, width as nat, height as nat) {
        Ok(PixelRead { column: column as usize, row: row as usize, resampling })
    } else {
        Err(SamplingError::OutsideRaster { column, row })
    }
}

/// The elevation that a read yields: the value that came back, or
/// `ReadFailed` for the read when nothing did.
pub open spec fn accepted_read(read: PixelRead, value: Option<i64>) -> Result<i64, SamplingError> {
    match value {
        Some(elevation) => Ok(elevation),
        None => Err(SamplingError::ReadFailed { read }),
    }
}

/// Decides the read for a node whose coordinate truncates to the cell
/// `(column, row)`.
pub fn plan_read(
    column: i64,
    row: i64,
    width: usize,
    height: usize,
    resampling: Resampling,
) -> (r: Result<PixelRead, SamplingError>)
    ensures
        r == planned_read(column, row, width, height, resampling),
{
    if column < 0 || row < 0 {
        return Err(SamplingError::OutsideRaster { column, row });
    }
    let c: u64 = column as u64;
    let w: u64 = width as u64;
    let r: u64 = row as u64;
    let h: u64 = height as u64;
    if c < w && r < h {
        Ok(PixelRead { column: column as usize, row: row as usize, resampling })
    } else {
        Err(SamplingError::OutsideRaster { column, row })
    }
}

/// Turns the outcome of a planned read into the node's elevation.
pub fn accept_read(read: PixelRead, value: Option<i64>) -> (r: Result<i64, SamplingError>)
    ensures
        r == accepted_read(read, value),
{
    match value {
        Some(elevation) => Ok(elevation),
        None => Err(SamplingError::ReadFailed { read }),
    }
}

} // verus!
