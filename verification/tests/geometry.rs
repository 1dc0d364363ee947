use matrix_warp::geometry::{math_to_raster, raster_to_math, resolve_dims, BoundingBox};
use matrix_warp::matrix::to_row_major;

#[test]
fn raster_to_math_flips_the_rows() {
    assert_eq!(raster_to_math(5, 0), 4);
    assert_eq!(raster_to_math(5, 4), 0);
    assert_eq!(raster_to_math(5, 2), 2);
    assert_eq!(raster_to_math(1, 0), 0);
}

#[test]
fn math_to_raster_flips_back() {
    assert_eq!(math_to_raster(5, 0), Some(4));
    assert_eq!(math_to_raster(5, 4), Some(0));
    assert_eq!(math_to_raster(5, 1), Some(3));
    assert_eq!(math_to_raster(1, 0), Some(0));
}

#[test]
fn math_to_raster_has_no_row_beside_the_image() {
    assert_eq!(math_to_raster(5, -1), None);
    assert_eq!(math_to_raster(5, 5), None);
    assert_eq!(math_to_raster(0, 0), None);
    assert_eq!(math_to_raster(5, i128::MIN), None);
    assert_eq!(math_to_raster(5, i128::MAX), None);
    assert_eq!(math_to_raster(usize::MAX, -1), None);
    assert_eq!(math_to_raster(usize::MAX, 0), Some(usize::MAX - 1));
}

#[test]
fn the_two_conversions_undo_each_other() {
    for height in 1..7usize {
        for row in 0..height {
            let y = raster_to_math(height, row);
            assert_eq!(math_to_raster(height, y as i128), Some(row));
        }
    }
}

#[test]
fn zero_dimension_means_the_source() {
    assert_eq!(resolve_dims(None, 640, 480), (640, 480));
    assert_eq!(resolve_dims(Some([0, 0]), 640, 480), (640, 480));
    assert_eq!(resolve_dims(Some([0, 100]), 640, 480), (640, 100));
    assert_eq!(resolve_dims(Some([200, 0]), 640, 480), (200, 480));
    assert_eq!(resolve_dims(Some([200, 100]), 640, 480), (200, 100));
    assert_eq!(resolve_dims(Some([0, 0]), 0, 0), (0, 0));
}

#[test]
fn bounding_box_grows_to_hold_points() {
    let b = BoundingBox::single(3, -2);
    assert_eq!(b, BoundingBox { min_x: 3, max_x: 3, min_y: -2, max_y: -2 });
    let b = b.extended(5, -7);
    assert_eq!(b, BoundingBox { min_x: 3, max_x: 5, min_y: -7, max_y: -2 });
    let b = b.extended(-1, 9);
    assert_eq!(b, BoundingBox { min_x: -1, max_x: 5, min_y: -7, max_y: 9 });
    let b = b.extended(0, 0);
    assert_eq!(b, BoundingBox { min_x: -1, max_x: 5, min_y: -7, max_y: 9 });
}

#[test]
fn entered_matrix_is_reordered_into_rows() {
    assert_eq!(to_row_major([1, 2, 3, 4]), [1, 3, 2, 4]);
    assert_eq!(to_row_major([0.5f32, -1.0, 2.0, 8.25]), [0.5f32, 2.0, -1.0, 8.25]);
    assert_eq!(to_row_major(['a', 'b', 'c', 'd']), ['a', 'c', 'b', 'd']);
}

#[test]
fn reordering_twice_restores_the_entered_order() {
    let entered = [11u8, 12, 21, 22];
    assert_eq!(to_row_major(to_row_major(entered)), entered);
}
