//! What holds of every rendering.

use crate::geometry::{flipped, BoundingBox};
use crate::grid::GridView;
use crate::raster::Scene;
use vstd::arithmetic::div_mod::{lemma_fundamental_div_mod, lemma_fundamental_div_mod_converse};
use vstd::prelude::*;

verus! {

/// Every place below height * width splits into a row and a column.
pub proof fn lemma_place_splits(height: int, width: int, i: int)
    requires
        0 <= i < height * width,
        0 <= height,
        0 <= width,
    ensures
        0 < width,
        0 <= i / width < height,
        0 <= i % width < width,
        i == (i / width) * width + i % width,
{
    assert(width > 0) by (nonlinear_arith)
        requires
            0 <= i < height * width,
            0 <= width,
    ;
    lemma_fundamental_div_mod(i, width);
    let q = i / width;
    let r = i % width;
    assert(0 <= r < width);
    assert(0 <= q < height) by (nonlinear_arith)
        requires
            i == width * q + r,
            0 <= r < width,
            0 <= i < height * width,
            0 < width,
    ;
    assert(width * q == q * width) by (nonlinear_arith);
}

/// The last hit on a cell is a pixel that falls there, and none after it
/// does; where there is none, no pixel falls there.
pub proof fn lemma_last_hit_is_latest(scene: Scene, row: int, col: int, n: int)
    ensures
        -1 <= scene.last_hit(row, col, n),
        0 < n ==> scene.last_hit(row, col, n) < n,
        n <= 0 ==> scene.last_hit(row, col, n) == -1,
        scene.last_hit(row, col, n) >= 0 ==> scene.hits(scene.last_hit(row, col, n), row, col),
        forall|j: int|
            scene.last_hit(row, col, n) < j < n ==> !#[trigger] scene.hits(j, row, col),
    decreases n,
{
    if n > 0 && !scene.hits(n - 1, row, col) {
        lemma_last_hit_is_latest(scene, row, col, n - 1);
    }
}

/// Where exactly one of the first `n` pixels falls on a cell, it is the last hit there.
pub proof fn lemma_sole_hit(scene: Scene, row: int, col: int, n: int, i: int)
    requires
        0 <= i < n,
        scene.hits(i, row, col),
        forall|j: int| 0 <= j < n && j != i ==> !#[trigger] scene.hits(j, row, col),
    ensures
        scene.last_hit(row, col, n) == i,
{
    lemma_last_hit_is_latest(scene, row, col, n);
    let r = scene.last_hit(row, col, n);
    if r < i {
        assert(!scene.hits(i, row, col));
    }
}

/// A canvas cell on which no source pixel falls keeps the background
/// colour in all four bytes; without a background it stays zero.
pub proof fn law_untouched_cell_keeps_background(
    scene: Scene,
    canvas: GridView,
    bounds: Option<BoundingBox>,
    cut_off: bool,
    row: int,
    col: int,
    k: int,
)
    requires
        scene.renders(canvas, bounds, cut_off),
        canvas.has(row, col, k),
        forall|i: int| 0 <= i < scene.targets.len() ==> !#[trigger] scene.hits(i, row, col),
    ensures
        canvas.at(row, col, k) == scene.fill_byte(k),
{
    lemma_last_hit_is_latest(scene, row, col, scene.targets.len() as int);
    let r = scene.last_hit(row, col, scene.targets.len() as int);
    if r >= 0 {
        assert(scene.hits(r, row, col));
    }
}

/// The fourth byte of every canvas cell is that of the background, whether
/// or not a pixel fell on the cell.
pub proof fn law_fourth_byte_is_background(
    scene: Scene,
    canvas: GridView,
    bounds: Option<BoundingBox>,
    cut_off: bool,
    row: int,
    col: int,
)
    requires
        scene.renders(canvas, bounds, cut_off),
        canvas.has(row, col, 3),
    ensures
        canvas.at(row, col, 3) == scene.fill_byte(3),
{
}

/// A cell on which pixels fall shows the colour of the last of them in
/// scanning order.
pub proof fn law_last_pixel_wins(
    scene: Scene,
    canvas: GridView,
    bounds: Option<BoundingBox>,
    cut_off: bool,
    row: int,
    col: int,
    k: int,
    i: int,
)
    requires
        scene.renders(canvas, bounds, cut_off),
        canvas.has(row, col, k),
        k < 3,
        0 <= i < scene.targets.len(),
        scene.hits(i, row, col),
        forall|j: int| i < j < scene.targets.len() ==> !#[trigger] scene.hits(j, row, col),
    ensures
        canvas.at(row, col, k) == scene.source_byte(i, k),
{
    let n = scene.targets.len() as int;
    lemma_last_hit_is_latest(scene, row, col, n);
    let r = scene.last_hit(row, col, n);
    if r < i {
        assert(!scene.hits(i, row, col));
    }
    if r > i {
        assert(scene.hits(r, row, col));
    }
}

/// The reported bounding box holds the moved target of every source pixel,
/// whether the pixel fell on the canvas or not.
pub proof fn law_bounds_hold_every_target(
    scene: Scene,
    canvas: GridView,
    bounds: Option<BoundingBox>,
    cut_off: bool,
    i: int,
)
    requires
        scene.renders(canvas, bounds, cut_off),
        0 <= i < scene.targets.len(),
    ensures
        bounds is Some,
        bounds->Some_0.covers(scene.moved_x(i), scene.moved_y(i)),
{
}

/// For a source of a single pixel the bounding box is that pixel's moved
/// target: minimum and maximum agree.
pub proof fn law_single_pixel_bounds(
    scene: Scene,
    canvas: GridView,
    bounds: Option<BoundingBox>,
    cut_off: bool,
)
    requires
        scene.renders(canvas, bounds, cut_off),
        scene.targets.len() == 1,
    ensures
        bounds is Some,
        bounds->Some_0.min_x == scene.moved_x(0),
        bounds->Some_0.max_x == scene.moved_x(0),
        bounds->Some_0.min_y == scene.moved_y(0),
        bounds->Some_0.max_y == scene.moved_y(0),
{
}

/// Whether the transform leaves every pixel where it is: the target of the
/// pixel in row y and column x is (x, height - 1 - y).
pub open spec fn keeps_positions(scene: Scene) -> bool {
    forall|y: int, x: int|
        0 <= y < scene.source.height && 0 <= x < scene.source.width ==> {
            &&& (#[trigger] scene.target_of(y, x)).x == x
            &&& scene.target_of(y, x).y == flipped(scene.source.height as int, y)
        }
}

/// Whether the transform doubles every position: the target of the pixel in
/// row y and column x is (2x, 2(height - 1 - y)).
pub open spec fn doubles_positions(scene: Scene) -> bool {
    forall|y: int, x: int|
        0 <= y < scene.source.height && 0 <= x < scene.source.width ==> {
            &&& (#[trigger] scene.target_of(y, x)).x == 2 * x
            &&& scene.target_of(y, x).y == 2 * flipped(scene.source.height as int, y)
        }
}

/// Where pixel `i` goes when every pixel stays where it is and nothing is
/// added: to its own column, and to its own row counted from the bottom.
proof fn lemma_kept_position(scene: Scene, i: int)
    requires
        scene.valid(),
        keeps_positions(scene),
        scene.offset.x == 0,
        scene.offset.y == 0,
        0 <= i < scene.targets.len(),
    ensures
        0 < scene.source.width,
        0 <= i / (scene.source.width as int) < scene.source.height,
        scene.moved_x(i) == i % (scene.source.width as int),
        scene.row_of(i) == scene.out_height - scene.source.height + i / (scene.source.width as int),
{
    let h = scene.source.height as int;
    let w = scene.source.width as int;
    lemma_place_splits(h, w, i);
    assert(scene.place(i / w, i % w) == i);
    assert(scene.target_of(i / w, i % w) == scene.targets[i]);
}

/// With the identity transform, no offset and a canvas at least as wide and
/// as high as the source, no pixel is cut off.
pub proof fn law_identity_fits_canvas(
    scene: Scene,
    canvas: GridView,
    bounds: Option<BoundingBox>,
    cut_off: bool,
)
    requires
        scene.valid(),
        scene.renders(canvas, bounds, cut_off),
        keeps_positions(scene),
        scene.offset.x == 0,
        scene.offset.y == 0,
        scene.out_width >= scene.source.width,
        scene.out_height >= scene.source.height,
    ensures
        !cut_off,
{
    assert forall|i: int| 0 <= i < scene.targets.len() implies #[trigger] scene.lands(i) by {
        lemma_kept_position(scene, i);
        lemma_place_splits(scene.source.height as int, scene.source.width as int, i);
    }
}

/// With the identity transform, no offset and a canvas of the source's
/// dimensions, the canvas repeats the source pixel for pixel in its three
/// colour bytes, and its fourth byte is that of the background (zero
/// without one).
pub proof fn law_identity_reproduces_source(
    scene: Scene,
    canvas: GridView,
    bounds: Option<BoundingBox>,
    cut_off: bool,
)
    requires
        scene.valid(),
        scene.renders(canvas, bounds, cut_off),
        keeps_positions(scene),
        scene.offset.x == 0,
        scene.offset.y == 0,
        scene.out_width == scene.source.width,
        scene.out_height == scene.source.height,
    ensures
        forall|y: int, x: int, k: int|
            canvas.has(y, x, k) ==> #[trigger] canvas.at(y, x, k) == if k < 3 {
                scene.source.at(y, x, k)
            } else {
                scene.fill_byte(3)
            },
{
    let h = scene.source.height as int;
    let w = scene.source.width as int;
    let n = scene.targets.len() as int;
    assert forall|y: int, x: int, k: int| canvas.has(y, x, k) implies #[trigger] canvas.at(y, x, k)
        == if k < 3 {
        scene.source.at(y, x, k)
    } else {
        scene.fill_byte(3)
    } by {
        let i = scene.place(y, x);
        assert(0 <= i < h * w) by (nonlinear_arith)
            requires
                i == y * w + x,
                0 <= y < h,
                0 <= x < w,
        ;
        lemma_fundamental_div_mod_converse(i, w, y, x);
        lemma_kept_position(scene, i);
        assert forall|j: int| 0 <= j < n && j != i implies !#[trigger] scene.hits(j, y, x) by {
            lemma_kept_position(scene, j);
            lemma_place_splits(h, w, j);
        }
        lemma_sole_hit(scene, y, x, n, i);
    }
}

/// With the doubling transform and no offset, a source whose last column or
/// top row is doubled past the canvas has pixels cut off.
pub proof fn law_doubling_overflows_canvas(
    scene: Scene,
    canvas: GridView,
    bounds: Option<BoundingBox>,
    cut_off: bool,
)
    requires
        scene.valid(),
        scene.renders(canvas, bounds, cut_off),
        doubles_positions(scene),
        scene.offset.x == 0,
        scene.offset.y == 0,
        scene.source.height > 0,
        scene.source.width > 0,
        2 * (scene.source.width - 1) >= scene.out_width || 2 * (scene.source.height - 1)
            >= scene.out_height,
    ensures
        cut_off,
{
    let h = scene.source.height as int;
    let w = scene.source.width as int;
    let i = scene.place(0, w - 1);
    assert(i == w - 1);
    assert(0 <= i < h * w) by (nonlinear_arith)
        requires
            i == w - 1,
            h >= 1,
            w >= 1,
    ;
    assert(scene.target_of(0, w - 1) == scene.targets[i]);
    assert(!scene.lands(i));
}

/// Whether no two source pixels fall on one cell.
pub open spec fn collision_free(scene: Scene) -> bool {
    forall|i: int, j: int|
        #![trigger scene.row_of(i), scene.row_of(j)]
        0 <= i < scene.targets.len() && 0 <= j < scene.targets.len() && i != j ==> !(scene.row_of(
            i,
        ) == scene.row_of(j) && scene.moved_x(i) == scene.moved_x(j))
}

/// Whether `back` renders what `forth` has rendered, onto a canvas of the
/// first source's dimensions, and sends each cell that a pixel of the first
/// source fell on to the place that the pixel came from.
pub open spec fn undoes(forth: Scene, mid: GridView, back: Scene) -> bool {
    &&& back.source.height == forth.out_height
    &&& back.source.width == forth.out_width
    &&& back.out_height == forth.source.height
    &&& back.out_width == forth.source.width
    &&& forall|r: int, c: int, k: int|
        0 <= r < back.source.height && 0 <= c < back.source.width && 0 <= k < 3
            ==> #[trigger] back.source.at(r, c, k) == mid.at(r, c, k)
    &&& forall|y: int, x: int|
        0 <= y < forth.source.height && 0 <= x < forth.source.width ==> back.hits(
            back.place(
                forth.row_of(#[trigger] forth.place(y, x)),
                forth.moved_x(forth.place(y, x)),
            ),
            y,
            x,
        )
}

/// Rendering a source and then rendering the result with a transform that
/// undoes the first gives the source back in its three colour bytes,
/// provided that the first rendering cuts no pixel off and that in neither
/// rendering two pixels fall on one cell.
pub proof fn law_round_trip_restores_source(
    forth: Scene,
    mid: GridView,
    mid_bounds: Option<BoundingBox>,
    back: Scene,
    restored: GridView,
    bounds: Option<BoundingBox>,
    cut_off: bool,
)
    requires
        forth.valid(),
        back.valid(),
        forth.renders(mid, mid_bounds, false),
        back.renders(restored, bounds, cut_off),
        undoes(forth, mid, back),
        collision_free(forth),
        collision_free(back),
    ensures
        restored.height == forth.source.height,
        restored.width == forth.source.width,
        forall|y: int, x: int, k: int|
            0 <= y < forth.source.height && 0 <= x < forth.source.width && 0 <= k < 3
                ==> #[trigger] restored.at(y, x, k) == forth.source.at(y, x, k),
{
    let h = forth.source.height as int;
    let w = forth.source.width as int;
    let h2 = back.source.height as int;
    let w2 = back.source.width as int;
    let n = forth.targets.len() as int;
    let n2 = back.targets.len() as int;
    assert forall|y: int, x: int, k: int|
        0 <= y < h && 0 <= x < w && 0 <= k < 3 implies #[trigger] restored.at(y, x, k)
        == forth.source.at(y, x, k) by {
        let i = forth.place(y, x);
        assert(0 <= i < h * w) by (nonlinear_arith)
            requires
                i == y * w + x,
                0 <= y < h,
                0 <= x < w,
        ;
        lemma_fundamental_div_mod_converse(i, w, y, x);
        assert(forth.lands(i));
        let r = forth.row_of(i);
        let c = forth.moved_x(i);
        let j = back.place(r, c);
        assert(0 <= j < h2 * w2) by (nonlinear_arith)
            requires
                j == r * w2 + c,
                0 <= r < h2,
                0 <= c < w2,
        ;
        lemma_fundamental_div_mod_converse(j, w2, r, c);
        assert(back.hits(j, y, x));
        assert forall|j2: int| 0 <= j2 < n2 && j2 != j implies !#[trigger] back.hits(
            j2,
            y,
            x,
        ) by {
            assert(!(back.row_of(j2) == back.row_of(j) && back.moved_x(j2) == back.moved_x(j)));
        }
        lemma_sole_hit(back, y, x, n2, j);
        assert forall|i2: int| 0 <= i2 < n && i2 != i implies !#[trigger] forth.hits(
            i2,
            r,
            c,
        ) by {
            assert(!(forth.row_of(i2) == forth.row_of(i) && forth.moved_x(i2) == forth.moved_x(i)));
        }
        lemma_sole_hit(forth, r, c, n, i);
        assert(restored.at(y, x, k) == back.source.at(r, c, k));
        assert(mid.at(r, c, k) == forth.source.at(y, x, k));
    }
}

} // verus!
