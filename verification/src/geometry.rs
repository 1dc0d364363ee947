//! Coordinates: the two row conventions, target positions, output
//! dimensions and bounding boxes.
//!
//! A raster counts rows from the top; the transform works in the usual
//! mathematical convention, where y grows upward and row 0 of a raster of
//! height h has y = h - 1.

use vstd::prelude::*;

verus! {

/// An integer position or displacement in mathematical convention.
#[derive(Debug, Clone, Copy, PartialEq, Eq, Structural)]
pub struct Point {
    pub x: isize,
    pub y: isize,
}

/// The mirror image of `y` in a column of `height` rows. It turns a raster
/// row into its mathematical y and back.
pub open spec fn flipped(height: int, y: int) -> int {
    height - y - 1
}

/// The mathematical y of raster row `row` in an image of `height` rows.
pub fn raster_to_math(height: usize, row: usize) -> (y: usize)
    requires
        row < height,
    ensures
        y == flipped(height as int, row as int),
        y < height,
{
    height - row - 1
}

/// The raster row of mathematical `y` in an image of `height` rows, where
/// there is one: `None` when `y` lies below or above the image.
pub fn math_to_raster(height: usize, y: i128) -> (row: Option<usize>)
    ensures
        row is Some <==> 0 <= y < height,
        row is Some ==> row->Some_0 == flipped(height as int, y as int),
{
    if y < 0 || y >= height as i128 {
        None
    } else {
        Some(height - 1 - y as usize)
    }
}

/// Flipping twice gives the row back: what `raster_to_math` makes of a row,
/// `math_to_raster` turns into that row again, and the other way round.
pub proof fn law_flip_undoes_itself(height: int, y: int)
    ensures
        flipped(height, flipped(height, y)) == y,
        0 <= y < height <==> 0 <= flipped(height, y) < height,
{
}

/// One requested output dimension resolved against the source: zero asks
/// for the source's own.
pub open spec fn resolved_dim(requested: usize, source: usize) -> usize {
    if requested == 0 {
        source
    } else {
        requested
    }
}

/// The output width and height for a request (width, height) on a source of
/// the given width and height. A missing request, and a zero in either
/// place, means the source's dimension.
pub fn resolve_dims(
    requested: Option<[usize; 2]>,
    width: usize,
    height: usize,
) -> (r: (usize, usize))
    ensures
        requested is None ==> r == (width, height),
        requested is Some ==> r == (
            resolved_dim(requested->Some_0@[0], width),
            resolved_dim(requested->Some_0@[1], height),
        ),
{
    match requested {
        None => (width, height),
        Some(dims) => {
            let w: usize = if dims[0] == 0 { width } else { dims[0] };
            let h: usize = if dims[1] == 0 { height } else { dims[1] };
            (w, h)
        },
    }
}

/// An axis-aligned box of integer positions, both ends included.
#[derive(Debug, Clone, Copy, PartialEq, Eq, Structural)]
pub struct BoundingBox {
    pub min_x: i128,
    pub max_x: i128,
    pub min_y: i128,
    pub max_y: i128,
}

impl BoundingBox {
    /// Whether the position (x, y) lies in the box.
    pub open spec fn covers(self, x: int, y: int) -> bool {
        self.min_x <= x <= self.max_x && self.min_y <= y <= self.max_y
    }

    /// The box that holds the single position (x, y).
    pub fn single(x: i128, y: i128) -> (b: BoundingBox)
        ensures
            b == (BoundingBox { min_x: x, max_x: x, min_y: y, max_y: y }),
    {
        BoundingBox { min_x: x, max_x: x, min_y: y, max_y: y }
    }

    /// The smallest box that holds this box and the position (x, y).
    pub fn extended(self, x: i128, y: i128) -> (b: BoundingBox)
        ensures
            b.min_x == if x < self.min_x { x } else { self.min_x },
            b.max_x == if x > self.max_x { x } else { self.max_x },
            b.min_y == if y < self.min_y { y } else { self.min_y },
            b.max_y == if y > self.max_y { y } else { self.max_y },
    {
        BoundingBox {
            min_x: if x < self.min_x { x } else { self.min_x },
            max_x: if x > self.max_x { x } else { self.max_x },
            min_y: if y < self.min_y { y } else { self.min_y },
            max_y: if y > self.max_y { y } else { self.max_y },
        }
    }
}

} // verus!
