//! Where a row that is dragged over the feed list would drop.

use vstd::prelude::*;

verus! {

/// Half of a height, rounded towards zero.
pub open spec fn half(height: int) -> int {
    if height >= 0 {
        height / 2
    } else {
        -((-height) / 2)
    }
}

/// Whether a pointer at height `y` is over the upper half of a row that
/// starts at `row_y` and is `row_height` high.
pub open spec fn over_upper_half(y: int, row_y: int, row_height: int) -> bool {
    y < row_y + half(row_height)
}

/// The indices of the two rows between which a dragged row would drop
/// while the pointer is over the row at `index`: the row above and the
/// row itself over its upper half, the row itself and the row below
/// otherwise.
pub fn drop_neighbours(y: i32, row_y: i32, row_height: i32, index: i32) -> (rows: (i64, i64))
    ensures
        over_upper_half(y as int, row_y as int, row_height as int) ==> rows.0 == index - 1
            && rows.1 == index,
        !over_upper_half(y as int, row_y as int, row_height as int) ==> rows.0 == index
            && rows.1 == index + 1,
{
    let height = row_height as i64;
    let half_height = if height >= 0 {
        height / 2
    } else {
        -((-height) / 2)
    };
    if (y as i64) < row_y as i64 + half_height {
        (index as i64 - 1, index as i64)
    } else {
        (index as i64, index as i64 + 1)
    }
}

} // verus!
