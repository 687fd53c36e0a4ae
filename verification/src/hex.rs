//! Addressing on the hexagonal lattice.
//!
//! Rows are shifted against each other by half a cell, so which six cells
//! touch a cell depends on whether its row is odd.

use vstd::prelude::*;

verus! {

/// Whether a row takes the neighbours of an odd row.
pub open spec fn is_odd_row(y: int) -> bool {
    y > 0 && y % 2 == 1
}

/// The `k`-th of the six cells that touch the cell at `(x, y)`, in the order
/// in which the simulation visits them.
pub open spec fn neighbour(x: int, y: int, k: int) -> (int, int) {
    if is_odd_row(y) {
        if k == 0 {
            (x + 1, y)
        } else if k == 1 {
            (x, y - 1)
        } else if k == 2 {
            (x - 1, y - 1)
        } else if k == 3 {
            (x - 1, y)
        } else if k == 4 {
            (x - 1, y + 1)
        } else {
            (x, y + 1)
        }
    } else {
        if k == 0 {
            (x + 1, y)
        } else if k == 1 {
            (x + 1, y - 1)
        } else if k == 2 {
            (x, y - 1)
        } else if k == 3 {
            (x - 1, y)
        } else if k == 4 {
            (x, y + 1)
        } else {
            (x + 1, y + 1)
        }
    }
}

/// The six cells that touch the cell at `(x, y)`.
pub open spec fn neighbours(x: int, y: int) -> Seq<(int, int)> {
    Seq::new(6, |k: int| neighbour(x, y, k))
}

/// The six cells that touch the cell at `(x, y)`. They need not lie on any
/// lattice: the caller tests that.
pub fn get_neighbours(x: isize, y: isize) -> (r: [(isize, isize); 6])
    requires
        isize::MIN < x < isize::MAX,
        isize::MIN < y < isize::MAX,
    ensures
        r@.len() == 6,
        forall|k: int|
            0 <= k < 6 ==> (#[trigger] r@[k]).0 == neighbour(x as int, y as int, k).0 && r@[k].1
                == neighbour(x as int, y as int, k).1,
{
    if y > 0 && y % 2 == 1 {
        [(x + 1, y), (x, y - 1), (x - 1, y - 1), (x - 1, y), (x - 1, y + 1), (x, y + 1)]
    } else {
        [(x + 1, y), (x + 1, y - 1), (x, y - 1), (x - 1, y), (x, y + 1), (x + 1, y + 1)]
    }
}

/// Every neighbour is one step away at most in either direction, and none is
/// the cell itself.
pub proof fn lemma_neighbour_is_adjacent(x: int, y: int, k: int)
    ensures
        x - 1 <= neighbour(x, y, k).0 <= x + 1,
        y - 1 <= neighbour(x, y, k).1 <= y + 1,
        neighbour(x, y, k) != (x, y),
{
}

} // verus!
