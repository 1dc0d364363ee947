//! The axis convention of a 2×2 transform matrix.
//!
//! A matrix is entered as four numbers (Xx, Xy, Yx, Yy): first the image of
//! the x unit vector, then that of the y unit vector. The transform works
//! with the rows of the matrix that multiplies a column vector (x, y) from
//! the left: (Xx, Yx) and (Xy, Yy).

use vstd::prelude::*;

verus! {

/// Reorders entered matrix entries (Xx, Xy, Yx, Yy) into the rows
/// (Xx, Yx), (Xy, Yy). The entries are only moved, whatever their type.
pub fn to_row_major<T: Copy>(entered: [T; 4]) -> (rows: [T; 4])
    ensures
        rows@ == seq![entered@[0], entered@[2], entered@[1], entered@[3]],
{
    let rows: [T; 4] = [entered[0], entered[2], entered[1], entered[3]];
    assert(rows@ =~= seq![entered@[0], entered@[2], entered@[1], entered@[3]]);
    rows
}

} // verus!
