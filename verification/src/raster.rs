//! Forward scatter of a source image onto an output canvas.
//!
//! Every source pixel has a target: the position that the transform gives
//! it, rounded to integers. The pixels are taken row by row from the top,
//! and within a row from the left. A pixel whose target, moved by the offset,
//! falls on the canvas overwrites the red, green and blue bytes of the cell
//! there; the fourth byte of a cell is never written. A pixel that falls
//! beside the canvas is dropped and sets the cut-off flag. Where several
//! pixels fall on one cell, the last one taken stays.

use crate::geometry::{flipped, math_to_raster, BoundingBox, Point};
use crate::grid::{shape_fits, GridView, PixelGrid};
use vstd::arithmetic::div_mod::lemma_fundamental_div_mod_converse;
use vstd::prelude::*;

verus! {

/// Everything that decides a rendering, as mathematical values.
pub struct Scene {
    /// The source image: three channels.
    pub source: GridView,
    /// The target of each source pixel before the offset, in mathematical
    /// convention; the pixel in row y and column x has place y * width + x.
    pub targets: Seq<Point>,
    /// The displacement added to every target.
    pub offset: Point,
    pub out_width: nat,
    pub out_height: nat,
    /// The colour of the canvas before any pixel is placed; without one the
    /// canvas starts as zeros.
    pub background: Option<[u8; 4]>,
}

impl Scene {
    /// The source has three channels and every pixel of it has a target.
    pub open spec fn valid(self) -> bool {
        &&& self.source.channels == 3
        &&& self.targets.len() == self.source.height * self.source.width
    }

    /// The place of the pixel in row `y` and column `x` among the pixels.
    pub open spec fn place(self, y: int, x: int) -> int {
        y * self.source.width + x
    }

    /// The target of the pixel in row `y` and column `x`, before the offset.
    pub open spec fn target_of(self, y: int, x: int) -> Point {
        self.targets[self.place(y, x)]
    }

    /// The x of pixel `i` after the offset.
    pub open spec fn moved_x(self, i: int) -> int {
        self.targets[i].x + self.offset.x
    }

    /// The mathematical y of pixel `i` after the offset.
    pub open spec fn moved_y(self, i: int) -> int {
        self.targets[i].y + self.offset.y
    }

    /// The canvas row that pixel `i` falls in, were the canvas unbounded.
    pub open spec fn row_of(self, i: int) -> int {
        flipped(self.out_height as int, self.moved_y(i))
    }

    /// Whether pixel `i` falls on the canvas.
    pub open spec fn lands(self, i: int) -> bool {
        0 <= self.moved_x(i) < self.out_width && 0 <= self.row_of(i) < self.out_height
    }

    /// Whether pixel `i` falls on the cell in row `row` and column `col`.
    pub open spec fn hits(self, i: int, row: int, col: int) -> bool {
        self.row_of(i) == row && self.moved_x(i) == col
    }

    /// The last of the first `n` pixels that falls on the cell (row, col),
    /// or -1 where none of them does.
    pub open spec fn last_hit(self, row: int, col: int, n: int) -> int
        decreases n,
    {
        if n <= 0 {
            -1
        } else if self.hits(n - 1, row, col) {
            n - 1
        } else {
            self.last_hit(row, col, n - 1)
        }
    }

    /// Byte `k` of the canvas before any pixel is placed.
    pub open spec fn fill_byte(self, k: int) -> u8 {
        match self.background {
            Some(color) => color@[k],
            None => 0,
        }
    }

    /// Byte `k` of source pixel `i`.
    pub open spec fn source_byte(self, i: int, k: int) -> u8 {
        self.source.at(i / (self.source.width as int), i % (self.source.width as int), k)
    }

    /// Byte `k` of the canvas cell (row, col) once the first `n` pixels are
    /// placed: a colour byte of the last pixel that fell there, else the fill.
    pub open spec fn byte_after(self, row: int, col: int, k: int, n: int) -> u8 {
        let i = self.last_hit(row, col, n);
        if i >= 0 && k < 3 {
            self.source_byte(i, k)
        } else {
            self.fill_byte(k)
        }
    }

    /// Whether `canvas` is the canvas after the first `n` pixels.
    pub open spec fn painted(self, canvas: GridView, n: int) -> bool {
        &&& canvas.height == self.out_height
        &&& canvas.width == self.out_width
        &&& canvas.channels == 4
        &&& forall|row: int, col: int, k: int|
            canvas.has(row, col, k) ==> #[trigger] canvas.at(row, col, k) == self.byte_after(
                row,
                col,
                k,
                n,
            )
    }

    /// Whether one of the first `n` pixels falls beside the canvas.
    pub open spec fn cut_before(self, n: int) -> bool {
        exists|i: int| 0 <= i < n && !#[trigger] self.lands(i)
    }

    /// Whether `b` is the bounding box of the first `n` moved targets: it
    /// holds each of them, and each of its four sides is reached by one.
    pub open spec fn spanned_by(self, b: BoundingBox, n: int) -> bool {
        &&& forall|i: int| 0 <= i < n ==> b.covers(#[trigger] self.moved_x(i), self.moved_y(i))
        &&& exists|i: int| 0 <= i < n && #[trigger] self.moved_x(i) == b.min_x
        &&& exists|i: int| 0 <= i < n && #[trigger] self.moved_x(i) == b.max_x
        &&& exists|i: int| 0 <= i < n && #[trigger] self.moved_y(i) == b.min_y
        &&& exists|i: int| 0 <= i < n && #[trigger] self.moved_y(i) == b.max_y
    }

    /// Whether `bounds` is what is reported of the first `n` moved targets:
    /// nothing where there is none, else their bounding box.
    pub open spec fn bounded(self, bounds: Option<BoundingBox>, n: int) -> bool {
        match bounds {
            None => n <= 0,
            Some(b) => n > 0 && self.spanned_by(b, n),
        }
    }

    /// Whether canvas, bounding box and cut-off flag are the rendering of
    /// this scene.
    pub open spec fn renders(
        self,
        canvas: GridView,
        bounds: Option<BoundingBox>,
        cut_off: bool,
    ) -> bool {
        &&& self.painted(canvas, self.targets.len() as int)
        &&& self.bounded(bounds, self.targets.len() as int)
        &&& cut_off <==> self.cut_before(self.targets.len() as int)
    }
}

/// What a rendering gives back.
pub struct Rendering {
    /// The output image, four channels.
    pub canvas: PixelGrid,
    /// The bounding box of all moved targets, on the canvas or not; `None`
    /// for a source without pixels.
    pub bounds: Option<BoundingBox>,
    /// Whether a source pixel fell beside the canvas.
    pub cut_off: bool,
}

/// Sets the four bytes of the cell (row, col) to `color`.
fn fill_cell(canvas: &mut PixelGrid, row: usize, col: usize, color: &[u8; 4])
    requires
        old(canvas)@.channels == 4,
        row < old(canvas)@.height,
        col < old(canvas)@.width,
    ensures
        final(canvas)@.height == old(canvas)@.height,
        final(canvas)@.width == old(canvas)@.width,
        final(canvas)@.channels == 4,
        forall|r: int, c: int, k: int|
            old(canvas)@.has(r, c, k) ==> #[trigger] final(canvas)@.at(r, c, k) == if r == row
                && c == col {
                color@[k]
            } else {
                old(canvas)@.at(r, c, k)
            },
{
    canvas.set(row, col, 0, color[0]);
    canvas.set(row, col, 1, color[1]);
    canvas.set(row, col, 2, color[2]);
    canvas.set(row, col, 3, color[3]);
}

/// A canvas of `height` rows and `width` columns with every cell set to the
/// background colour, or to zeros where there is none.
pub fn blank_canvas(
    width: usize,
    height: usize,
    background: Option<[u8; 4]>,
) -> (canvas: PixelGrid)
    requires
        shape_fits(height as nat, width as nat, 4),
    ensures
        canvas@.height == height,
        canvas@.width == width,
        canvas@.channels == 4,
        forall|row: int, col: int, k: int|
            canvas@.has(row, col, k) ==> #[trigger] canvas@.at(row, col, k) == match background {
                Some(color) => color@[k],
                None => 0,
            },
{
    let mut canvas = PixelGrid::zeros(height, width, 4);
    if let Some(color) = background {
        let mut row: usize = 0;
        while row < height
            invariant
                row <= height,
                canvas@.height == height,
                canvas@.width == width,
                canvas@.channels == 4,
                forall|r: int, c: int, k: int|
                    canvas@.has(r, c, k) && r < row ==> #[trigger] canvas@.at(r, c, k) == color@[k],
            decreases height - row,
        {
            let mut col: usize = 0;
            while col < width
                invariant
                    row < height,
                    col <= width,
                    canvas@.height == height,
                    canvas@.width == width,
                    canvas@.channels == 4,
                    forall|r: int, c: int, k: int|
                        canvas@.has(r, c, k) && (r < row || (r == row && c < col))
                            ==> #[trigger] canvas@.at(r, c, k) == color@[k],
                decreases width - col,
            {
                fill_cell(&mut canvas, row, col, &color);
                col += 1;
            }
            row += 1;
        }
    }
    canvas
}

/// Copies the three colour bytes of the source pixel (y, x) to the canvas
/// cell (row, col).
fn copy_pixel(
    canvas: &mut PixelGrid,
    row: usize,
    col: usize,
    source: &PixelGrid,
    y: usize,
    x: usize,
)
    requires
        old(canvas)@.channels == 4,
        row < old(canvas)@.height,
        col < old(canvas)@.width,
        source@.channels == 3,
        y < source@.height,
        x < source@.width,
    ensures
        final(canvas)@.height == old(canvas)@.height,
        final(canvas)@.width == old(canvas)@.width,
        final(canvas)@.channels == 4,
        forall|r: int, c: int, k: int|
            old(canvas)@.has(r, c, k) ==> #[trigger] final(canvas)@.at(r, c, k) == if r == row
                && c == col && k < 3 {
                source@.at(y as int, x as int, k)
            } else {
                old(canvas)@.at(r, c, k)
            },
{
    canvas.set(row, col, 0, source.get(y, x, 0));
    canvas.set(row, col, 1, source.get(y, x, 1));
    canvas.set(row, col, 2, source.get(y, x, 2));
}

/// Placing pixel (y, x) turns the canvas after y * width + x pixels into the
/// canvas after one more.
proof fn lemma_paint_step(scene: Scene, before: GridView, after: GridView, y: int, x: int)
    requires
        scene.valid(),
        0 <= y < scene.source.height,
        0 <= x < scene.source.width,
        scene.painted(before, y * scene.source.width + x),
        after.height == before.height,
        after.width == before.width,
        after.channels == before.channels,
        forall|r: int, c: int, k: int|
            before.has(r, c, k) ==> #[trigger] after.at(r, c, k) == if scene.hits(
                y * scene.source.width + x,
                r,
                c,
            ) && k < 3 {
                scene.source.at(y, x, k)
            } else {
                before.at(r, c, k)
            },
    ensures
        scene.painted(after, y * scene.source.width + x + 1),
{
    let n = y * scene.source.width + x;
    lemma_fundamental_div_mod_converse(n, scene.source.width as int, y, x);
    assert forall|r: int, c: int, k: int| after.has(r, c, k) implies #[trigger] after.at(r, c, k)
        == scene.byte_after(r, c, k, n + 1) by {
        assert(before.has(r, c, k));
        assert(before.at(r, c, k) == scene.byte_after(r, c, k, n));
    }
}

/// A pixel is cut off among the first n + 1 exactly when one is among the
/// first n or pixel n itself falls beside the canvas.
proof fn lemma_cut_step(scene: Scene, n: int)
    requires
        0 <= n,
    ensures
        scene.cut_before(n + 1) <==> (scene.cut_before(n) || !scene.lands(n)),
{
    if scene.cut_before(n + 1) {
        let i = choose|i: int| 0 <= i < n + 1 && !#[trigger] scene.lands(i);
        if i < n {
            assert(scene.cut_before(n));
        }
    }
    if scene.cut_before(n) {
        let i = choose|i: int| 0 <= i < n && !#[trigger] scene.lands(i);
        assert(0 <= i < n + 1 && !scene.lands(i));
    }
    if !scene.lands(n) {
        assert(0 <= n < n + 1 && !scene.lands(n));
    }
}

/// Taking in the moved target of pixel n turns the bounds of the first n
/// pixels into those of the first n + 1.
proof fn lemma_bounds_step(scene: Scene, bounds: Option<BoundingBox>, next: BoundingBox, n: int)
    requires
        0 <= n,
        scene.bounded(bounds, n),
        bounds is None ==> next == (BoundingBox {
            min_x: scene.moved_x(n) as i128,
            max_x: scene.moved_x(n) as i128,
            min_y: scene.moved_y(n) as i128,
            max_y: scene.moved_y(n) as i128,
        }),
        bounds is Some ==> {
            let b = bounds->Some_0;
            &&& next.min_x == if scene.moved_x(n) < b.min_x { scene.moved_x(n) } else { b.min_x as int }
            &&& next.max_x == if scene.moved_x(n) > b.max_x { scene.moved_x(n) } else { b.max_x as int }
            &&& next.min_y == if scene.moved_y(n) < b.min_y { scene.moved_y(n) } else { b.min_y as int }
            &&& next.max_y == if scene.moved_y(n) > b.max_y { scene.moved_y(n) } else { b.max_y as int }
        },
    ensures
        scene.bounded(Some(next), n + 1),
{
    match bounds {
        None => {
            assert(n == 0);
            assert(scene.spanned_by(next, n + 1));
        },
        Some(b) => {
            let i0 = choose|i: int| 0 <= i < n && #[trigger] scene.moved_x(i) == b.min_x;
            let i1 = choose|i: int| 0 <= i < n && #[trigger] scene.moved_x(i) == b.max_x;
            let i2 = choose|i: int| 0 <= i < n && #[trigger] scene.moved_y(i) == b.min_y;
            let i3 = choose|i: int| 0 <= i < n && #[trigger] scene.moved_y(i) == b.max_y;
            let j0 = if scene.moved_x(n) < b.min_x { n } else { i0 };
            let j1 = if scene.moved_x(n) > b.max_x { n } else { i1 };
            let j2 = if scene.moved_y(n) < b.min_y { n } else { i2 };
            let j3 = if scene.moved_y(n) > b.max_y { n } else { i3 };
            assert(0 <= j0 < n + 1 && scene.moved_x(j0) == next.min_x);
            assert(0 <= j1 < n + 1 && scene.moved_x(j1) == next.max_x);
            assert(0 <= j2 < n + 1 && scene.moved_y(j2) == next.min_y);
            assert(0 <= j3 < n + 1 && scene.moved_y(j3) == next.max_y);
            assert(scene.spanned_by(next, n + 1));
        },
    }
}

/// Renders `source` onto a canvas of `out_width` by `out_height` cells.
///
/// `targets` holds for every source pixel, row by row from the top, the
/// rounded position that the transform gives it, in mathematical convention;
/// `offset` is added to each. The canvas starts as `background`, or as zeros.
/// Each pixel that falls on the canvas overwrites the three colour bytes of
/// its cell, the last one wins, and the fourth byte stays as it started.
/// The bounding box is that of all moved targets, on the canvas or not, and
/// the flag tells whether a pixel fell beside the canvas.
pub fn rasterize(
    source: &PixelGrid,
    targets: &Vec<Point>,
    offset: Point,
    out_width: usize,
    out_height: usize,
    background: Option<[u8; 4]>,
) -> (r: Rendering)
    requires
        source@.channels == 3,
        targets.len() == source@.height * source@.width,
        shape_fits(out_height as nat, out_width as nat, 4),
    ensures
        (Scene {
            source: source@,
            targets: targets@,
            offset,
            out_width: out_width as nat,
            out_height: out_height as nat,
            background,
        }).renders(r.canvas@, r.bounds, r.cut_off),
{
    let ghost scene = Scene {
        source: source@,
        targets: targets@,
        offset,
        out_width: out_width as nat,
        out_height: out_height as nat,
        background,
    };
    let (height, width, _) = source.dim();
    let mut canvas = blank_canvas(out_width, out_height, background);
    let mut bounds: Option<BoundingBox> = None;
    let mut cut_off = false;
    let mut i: usize = 0;
    let mut y: usize = 0;
    while y < height
        invariant
            scene.valid(),
            scene.source == source@,
            scene.targets == targets@,
            scene.offset == offset,
            scene.out_width == out_width,
            scene.out_height == out_height,
            height == source@.height,
            width == source@.width,
            y <= height,
            i == y * width,
            scene.painted(canvas@, i as int),
            scene.bounded(bounds, i as int),
            cut_off <==> scene.cut_before(i as int),
        decreases height - y,
    {
        let mut x: usize = 0;
        while x < width
            invariant
                scene.valid(),
                scene.source == source@,
                scene.targets == targets@,
                scene.offset == offset,
                scene.out_width == out_width,
                scene.out_height == out_height,
                height == source@.height,
                width == source@.width,
                y < height,
                x <= width,
                i == y * width + x,
                scene.painted(canvas@, i as int),
                scene.bounded(bounds, i as int),
                cut_off <==> scene.cut_before(i as int),
            decreases width - x,
        {
            proof {
                assert(y * width + x < height * width) by (nonlinear_arith)
                    requires
                        y < height,
                        x < width,
                ;
            }
            assert(i < targets.len());
            let target = targets[i];
            let moved_x: i128 = target.x as i128 + offset.x as i128;
            let moved_y: i128 = target.y as i128 + offset.y as i128;
            let next = match bounds {
                None => BoundingBox::single(moved_x, moved_y),
                Some(b) => b.extended(moved_x, moved_y),
            };
            proof {
                lemma_bounds_step(scene, bounds, next, i as int);
                lemma_cut_step(scene, i as int);
            }
            bounds = Some(next);
            let ghost before = canvas@;
            let mut placed = false;
            if moved_x >= 0 && moved_x < out_width as i128 {
                if let Some(row) = math_to_raster(out_height, moved_y) {
                    copy_pixel(&mut canvas, row, moved_x as usize, source, y, x);
                    placed = true;
                }
            }
            if !placed {
                cut_off = true;
            }
            proof {
                assert(placed <==> scene.lands(i as int));
                lemma_paint_step(scene, before, canvas@, y as int, x as int);
            }
            i += 1;
            x += 1;
        }
        proof {
            assert(y * width + width == (y + 1) * width) by (nonlinear_arith);
        }
        y += 1;
    }
    proof {
        assert(i == targets.len()) by (nonlinear_arith)
            requires
                i == y * width,
                y == height,
                targets.len() == height * width,
        ;
    }
    Rendering { canvas, bounds, cut_off }
}

/// Why a rendering was not made.
#[derive(Debug, Clone, Copy, PartialEq, Eq, Structural)]
pub enum RasterError {
    /// The source does not have three channels.
    SourceNotRgb,
    /// There are not as many targets as the source has pixels.
    TargetCount,
    /// The canvas would be larger than a grid can be.
    CanvasTooLarge,
}

/// Renders as [`rasterize`] does, after testing what `rasterize` demands of
/// its arguments; the first demand that is not met is the error.
pub fn try_rasterize(
    source: &PixelGrid,
    targets: &Vec<Point>,
    offset: Point,
    out_width: usize,
    out_height: usize,
    background: Option<[u8; 4]>,
) -> (r: Result<Rendering, RasterError>)
    ensures
        match r {
            Ok(out) => {
                &&& source@.channels == 3
                &&& targets.len() == source@.height * source@.width
                &&& shape_fits(out_height as nat, out_width as nat, 4)
                &&& (Scene {
                    source: source@,
                    targets: targets@,
                    offset,
                    out_width: out_width as nat,
                    out_height: out_height as nat,
                    background,
                }).renders(out.canvas@, out.bounds, out.cut_off)
            },
            Err(RasterError::SourceNotRgb) => source@.channels != 3,
            Err(RasterError::TargetCount) => {
                &&& source@.channels == 3
                &&& targets.len() != source@.height * source@.width
            },
            Err(RasterError::CanvasTooLarge) => {
                &&& source@.channels == 3
                &&& targets.len() == source@.height * source@.width
                &&& !shape_fits(out_height as nat, out_width as nat, 4)
            },
        },
{
    let (height, width, channels) = source.dim();
    if channels != 3 {
        return Err(RasterError::SourceNotRgb);
    }
    match height.checked_mul(width) {
        Some(pixels) if pixels == targets.len() => {},
        _ => {
            return Err(RasterError::TargetCount);
        },
    }
    if !PixelGrid::fits(out_height, out_width, 4) {
        return Err(RasterError::CanvasTooLarge);
    }
    Ok(rasterize(source, targets, offset, out_width, out_height, background))
}

} // verus!
