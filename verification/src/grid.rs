//! Dense three-dimensional byte grids (height × width × channels), row-major.

use vstd::prelude::*;

verus! {

/// A height × width × channels array of bytes, held in an `ndarray::Array3<u8>`.
///
/// The array is opaque to the verifier: [`grid_shape`] and [`grid_cells`]
/// name its axis lengths and its elements, and the private functions of this
/// module that touch the array state what `ndarray` does to them.
#[verifier::external_body]
pub struct PixelGrid {
    cells: ndarray::Array3<u8>,
}

/// The error that `ndarray` reports for a shape it cannot build.
#[verifier::external_type_specification]
#[verifier::external_body]
pub struct ExShapeError(ndarray::ShapeError);

/// The axis lengths of the array inside `g`: rows, columns, channels.
pub uninterp spec fn grid_shape(g: PixelGrid) -> (nat, nat, nat);

/// The elements of the array inside `g`, each under its index
/// (row, column, channel).
pub uninterp spec fn grid_cells(g: PixelGrid) -> Map<(int, int, int), u8>;

/// The mathematical value of a grid.
pub struct GridView {
    pub height: nat,
    pub width: nat,
    pub channels: nat,
    pub cells: Map<(int, int, int), u8>,
}

impl GridView {
    /// Whether (y, x, k) is an index of the grid.
    pub open spec fn has(self, y: int, x: int, k: int) -> bool {
        0 <= y < self.height && 0 <= x < self.width && 0 <= k < self.channels
    }

    /// The byte at row `y`, column `x`, channel `k`.
    pub open spec fn at(self, y: int, x: int, k: int) -> u8 {
        self.cells[(y, x, k)]
    }
}

/// Why a grid could not be built from a shape and its bytes.
#[derive(Debug, Clone, Copy, PartialEq, Eq, Structural)]
pub enum GridError {
    /// The product of the non-empty axis lengths exceeds `isize::MAX`.
    TooLarge,
    /// The shape has another number of elements than bytes were given.
    LengthMismatch,
}

/// An axis length as it counts towards the size limit: an empty axis counts as one.
pub open spec fn axis_span(n: nat) -> nat {
    if n == 0 {
        1
    } else {
        n
    }
}

/// Whether a grid of this shape can be built: the product of its non-empty
/// axis lengths is at most `isize::MAX`.
pub open spec fn shape_fits(height: nat, width: nat, channels: nat) -> bool {
    axis_span(height) * axis_span(width) * axis_span(channels) <= isize::MAX
}

/// The place of cell (y, x, k) in the row-major sequence of a grid's bytes.
pub open spec fn flat_index(width: nat, channels: nat, y: int, x: int, k: int) -> int {
    (y * width + x) * channels + k
}

/// Calls `ndarray::Array3::<u8>::zeros`, which panics when the product of the
/// non-empty axis lengths exceeds `isize::MAX` and otherwise returns an array
/// of the given shape whose elements are all zero.
#[verifier::external_body]
fn array_zeros(height: usize, width: usize, channels: usize) -> (r: PixelGrid)
    requires
        shape_fits(height as nat, width as nat, channels as nat),
    ensures
        grid_shape(r) == (height as nat, width as nat, channels as nat),
        forall|y: int, x: int, k: int|
            0 <= y < height && 0 <= x < width && 0 <= k < channels ==> #[trigger] grid_cells(
                r,
            )[(y, x, k)] == 0,
{
    PixelGrid { cells: ndarray::Array3::<u8>::zeros((height, width, channels)) }
}

/// Calls `ndarray::Array3::<u8>::from_shape_vec` with a row-major shape.
/// It succeeds exactly when the shape is within the size limit and has as
/// many elements as `data`; element (y, x, k) of the array is then the byte
/// of `data` at the row-major place of (y, x, k).
#[verifier::external_body]
fn array_from_shape_vec(
    height: usize,
    width: usize,
    channels: usize,
    data: Vec<u8>,
) -> (r: Result<PixelGrid, ndarray::ShapeError>)
    ensures
        r.is_ok() <==> (shape_fits(height as nat, width as nat, channels as nat) && data.len()
            == height * width * channels),
        r.is_ok() ==> grid_shape(r.unwrap()) == (height as nat, width as nat, channels as nat),
        r.is_ok() ==> forall|y: int, x: int, k: int|
            0 <= y < height && 0 <= x < width && 0 <= k < channels ==> #[trigger] grid_cells(
                r.unwrap(),
            )[(y, x, k)] == data@[flat_index(width as nat, channels as nat, y, x, k)],
{
    match ndarray::Array3::<u8>::from_shape_vec((height, width, channels), data) {
        Ok(cells) => Ok(PixelGrid { cells }),
        Err(e) => Err(e),
    }
}

/// Calls `ndarray::ArrayBase::dim`, which returns the axis lengths.
#[verifier::external_body]
fn array_dim(g: &PixelGrid) -> (r: (usize, usize, usize))
    ensures
        (r.0 as nat, r.1 as nat, r.2 as nat) == grid_shape(*g),
{
    g.cells.dim()
}

/// Reads through `ndarray`'s `Index` for `[usize; 3]`, which panics on an
/// index outside the array and otherwise returns the element there.
#[verifier::external_body]
fn array_get(g: &PixelGrid, y: usize, x: usize, k: usize) -> (r: u8)
    requires
        y < grid_shape(*g).0,
        x < grid_shape(*g).1,
        k < grid_shape(*g).2,
    ensures
        r == grid_cells(*g)[(y as int, x as int, k as int)],
{
    g.cells[[y, x, k]]
}

/// Writes through `ndarray`'s `IndexMut` for `[usize; 3]`, which panics on an
/// index outside the array and otherwise replaces the element there; the
/// shape and every other element stay.
#[verifier::external_body]
fn array_set(g: &mut PixelGrid, y: usize, x: usize, k: usize, value: u8)
    requires
        y < grid_shape(*old(g)).0,
        x < grid_shape(*old(g)).1,
        k < grid_shape(*old(g)).2,
    ensures
        grid_shape(*final(g)) == grid_shape(*old(g)),
        grid_cells(*final(g)) == grid_cells(*old(g)).insert(
            (y as int, x as int, k as int),
            value,
        ),
{
    g.cells[[y, x, k]] = value;
}

/// Collects `ndarray::ArrayBase::iter`, which visits the elements in logical
/// order, the last index varying fastest: the result is the row-major
/// sequence of the array's bytes.
#[verifier::external_body]
fn array_to_vec(g: &PixelGrid) -> (r: Vec<u8>)
    ensures
        r.len() == grid_shape(*g).0 * grid_shape(*g).1 * grid_shape(*g).2,
        forall|y: int, x: int, k: int|
            0 <= y < grid_shape(*g).0 && 0 <= x < grid_shape(*g).1 && 0 <= k < grid_shape(*g).2
                ==> r@[flat_index(grid_shape(*g).1, grid_shape(*g).2, y, x, k)]
                == #[trigger] grid_cells(*g)[(y, x, k)],
{
    g.cells.iter().copied().collect()
}

impl View for PixelGrid {
    type V = GridView;

    open spec fn view(&self) -> GridView {
        GridView {
            height: grid_shape(*self).0,
            width: grid_shape(*self).1,
            channels: grid_shape(*self).2,
            cells: grid_cells(*self),
        }
    }
}

/// The product of the non-empty axis lengths, where it is within the size limit.
fn checked_span(height: usize, width: usize, channels: usize) -> (r: Option<usize>)
    ensures
        r is Some <==> shape_fits(height as nat, width as nat, channels as nat),
        r is Some ==> r->Some_0 == axis_span(height as nat) * axis_span(width as nat) * axis_span(
            channels as nat,
        ),
{
    let h: usize = if height == 0 { 1 } else { height };
    let w: usize = if width == 0 { 1 } else { width };
    let c: usize = if channels == 0 { 1 } else { channels };
    let limit: usize = isize::MAX as usize;
    proof {
        assert(h * w >= h && h * w >= 1) by (nonlinear_arith)
            requires
                h >= 1,
                w >= 1,
        ;
        assert(h * w * c >= h * w) by (nonlinear_arith)
            requires
                h * w >= 1,
                c >= 1,
        ;
    }
    match h.checked_mul(w) {
        None => None,
        Some(hw) => match hw.checked_mul(c) {
            None => None,
            Some(hwc) => if hwc <= limit {
                Some(hwc)
            } else {
                None
            },
        },
    }
}

impl PixelGrid {
    /// Whether a grid of this shape can be built.
    pub fn fits(height: usize, width: usize, channels: usize) -> (r: bool)
        ensures
            r == shape_fits(height as nat, width as nat, channels as nat),
    {
        checked_span(height, width, channels).is_some()
    }

    /// The grid of the given shape whose bytes are `data`, row by row and
    /// within a row pixel by pixel.
    pub fn from_raw(
        height: usize,
        width: usize,
        channels: usize,
        data: Vec<u8>,
    ) -> (r: Result<PixelGrid, GridError>)
        ensures
            match r {
                Ok(g) => {
                    &&& shape_fits(height as nat, width as nat, channels as nat)
                    &&& data.len() == height * width * channels
                    &&& g@.height == height
                    &&& g@.width == width
                    &&& g@.channels == channels
                    &&& forall|y: int, x: int, k: int|
                        g@.has(y, x, k) ==> #[trigger] g@.at(y, x, k) == data@[flat_index(
                            width as nat,
                            channels as nat,
                            y,
                            x,
                            k,
                        )]
                },
                Err(GridError::TooLarge) => !shape_fits(
                    height as nat,
                    width as nat,
                    channels as nat,
                ),
                Err(GridError::LengthMismatch) => {
                    &&& shape_fits(height as nat, width as nat, channels as nat)
                    &&& data.len() != height * width * channels
                },
            },
    {
        let span = match checked_span(height, width, channels) {
            None => { return Err(GridError::TooLarge); },
            Some(span) => span,
        };
        let size: usize = if height == 0 || width == 0 || channels == 0 {
            0
        } else {
            span
        };
        proof {
            assert(size == height * width * channels) by (nonlinear_arith)
                requires
                    size == if height == 0 || width == 0 || channels == 0 {
                        0
                    } else {
                        height * width * channels
                    },
            ;
        }
        if data.len() != size {
            return Err(GridError::LengthMismatch);
        }
        match array_from_shape_vec(height, width, channels, data) {
            Ok(g) => Ok(g),
            Err(_) => Err(GridError::LengthMismatch),
        }
    }

    /// The bytes of the grid, row by row and within a row pixel by pixel.
    pub fn to_raw(&self) -> (r: Vec<u8>)
        ensures
            r.len() == self@.height * self@.width * self@.channels,
            forall|y: int, x: int, k: int|
                self@.has(y, x, k) ==> r@[flat_index(self@.width, self@.channels, y, x, k)]
                    == #[trigger] self@.at(y, x, k),
    {
        array_to_vec(self)
    }

    /// A grid of the given shape with every byte zero.
    pub fn zeros(height: usize, width: usize, channels: usize) -> (r: PixelGrid)
        requires
            shape_fits(height as nat, width as nat, channels as nat),
        ensures
            r@.height == height,
            r@.width == width,
            r@.channels == channels,
            forall|y: int, x: int, k: int| r@.has(y, x, k) ==> #[trigger] r@.at(y, x, k) == 0,
    {
        array_zeros(height, width, channels)
    }

    /// The shape of the grid: height, width, channels.
    pub fn dim(&self) -> (r: (usize, usize, usize))
        ensures
            r.0 == self@.height,
            r.1 == self@.width,
            r.2 == self@.channels,
    {
        array_dim(self)
    }

    /// The byte at row `y`, column `x`, channel `k`.
    pub fn get(&self, y: usize, x: usize, k: usize) -> (r: u8)
        requires
            self@.has(y as int, x as int, k as int),
        ensures
            r == self@.at(y as int, x as int, k as int),
    {
        array_get(self, y, x, k)
    }

    /// Replaces the byte at row `y`, column `x`, channel `k`.
    pub fn set(&mut self, y: usize, x: usize, k: usize, value: u8)
        requires
            old(self)@.has(y as int, x as int, k as int),
        ensures
            final(self)@.height == old(self)@.height,
            final(self)@.width == old(self)@.width,
            final(self)@.channels == old(self)@.channels,
            final(self)@.cells == old(self)@.cells.insert((y as int, x as int, k as int), value),
    {
        array_set(self, y, x, k, value)
    }
}

} // verus!
