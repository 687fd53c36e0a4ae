//! The padded lattice: a `width` by `height` domain with a ring of one cell
//! round it, laid out row by row in one flat sequence.

use crate::hex::{get_neighbours, neighbour};
use vstd::prelude::*;

verus! {

/// One cell of the lattice. `water` is the bit pattern of its vapour or ice
/// density; a cell is frozen once that is at least one. `receptive` is set
/// once and stays set.
#[derive(Clone, Copy, Debug, PartialEq, Eq)]
pub struct Cell {
    pub water: u64,
    pub receptive: bool,
}

/// An upper bound on the bytes that a cell takes in memory.
pub const CELL_BYTES: usize = 16;

/// How many cells a padded lattice has.
pub open spec fn padded_len(width: nat, height: nat) -> nat {
    (width + 2) * (height + 2)
}

/// Whether a buffer of the padded lattice fits in memory: its bytes can be
/// counted in an `isize`, which is as much as can be allocated at once.
pub open spec fn fits_in_memory(width: nat, height: nat) -> bool {
    padded_len(width, height) * CELL_BYTES <= isize::MAX
}

/// Where the cell at padded coordinates `(px, py)` lies in the flat sequence.
pub open spec fn padded_index(width: nat, px: int, py: int) -> int {
    py * (width + 2) + px
}

/// Whether padded coordinates are on the lattice, ring included.
pub open spec fn on_lattice(width: nat, height: nat, px: int, py: int) -> bool {
    0 <= px <= width + 1 && 0 <= py <= height + 1
}

/// Whether padded coordinates are in the domain, that is off the ring.
pub open spec fn in_domain(width: nat, height: nat, px: int, py: int) -> bool {
    1 <= px <= width && 1 <= py <= height
}

/// Whether padded coordinates are on the ring.
pub open spec fn on_ring(width: nat, height: nat, px: int, py: int) -> bool {
    on_lattice(width, height, px, py) && !in_domain(width, height, px, py)
}

/// The cell with the same water, made receptive.
pub open spec fn receptive_cell(cell: Cell) -> Cell {
    Cell { water: cell.water, receptive: true }
}

/// Whether one of the first `k` neighbours of `(px, py)` lies in the domain
/// at index `i`.
pub open spec fn touches(width: nat, height: nat, px: int, py: int, k: int, i: int) -> bool
    decreases k,
{
    if k <= 0 {
        false
    } else {
        let n = neighbour(px, py, k - 1);
        ||| touches(width, height, px, py, k - 1, i)
        ||| (in_domain(width, height, n.0, n.1) && padded_index(width, n.0, n.1) == i)
    }
}

/// The cells with those of the first `k` neighbours of `(px, py)` that lie in
/// the domain made receptive.
pub open spec fn marked_around(
    cells: Seq<Cell>,
    width: nat,
    height: nat,
    px: int,
    py: int,
    k: int,
) -> Seq<Cell> {
    Seq::new(
        cells.len(),
        |i: int|
            if touches(width, height, px, py, k, i) {
                receptive_cell(cells[i])
            } else {
                cells[i]
            },
    )
}

/// The cells with the one at `(px, py)` and its neighbours in the domain made
/// receptive.
pub open spec fn seeded_around(cells: Seq<Cell>, width: nat, height: nat, px: int, py: int) -> Seq<
    Cell,
> {
    Seq::new(
        cells.len(),
        |i: int|
            if i == padded_index(width, px, py) || touches(width, height, px, py, 6, i) {
                receptive_cell(cells[i])
            } else {
                cells[i]
            },
    )
}

/// A cell on the lattice has its index inside the flat sequence.
pub proof fn lemma_index_in_range(width: nat, height: nat, px: int, py: int)
    requires
        on_lattice(width, height, px, py),
    ensures
        0 <= padded_index(width, px, py) < padded_len(width, height),
{
    assert(py * (width + 2) >= 0) by (nonlinear_arith)
        requires
            py >= 0,
            width >= 0,
    ;
    assert(py * (width + 2) + (width + 2) <= (height + 2) * (width + 2)) by (nonlinear_arith)
        requires
            py + 1 <= height + 2,
            width >= 0,
    ;
    assert((width + 2) * (height + 2) == (height + 2) * (width + 2)) by (nonlinear_arith);
}

/// Two cells on the lattice with one index are one cell.
pub proof fn lemma_index_is_injective(width: nat, height: nat, ax: int, ay: int, bx: int, by: int)
    requires
        on_lattice(width, height, ax, ay),
        on_lattice(width, height, bx, by),
        padded_index(width, ax, ay) == padded_index(width, bx, by),
    ensures
        ax == bx,
        ay == by,
{
    let w = width + 2;
    if ay < by {
        assert(by * w >= ay * w + w) by (nonlinear_arith)
            requires
                ay + 1 <= by,
                w > 0,
        ;
    } else if by < ay {
        assert(ay * w >= by * w + w) by (nonlinear_arith)
            requires
                by + 1 <= ay,
                w > 0,
        ;
    }
}

/// Each neighbour of a cell that lies in the domain is touched.
pub proof fn lemma_neighbour_is_touched(width: nat, height: nat, px: int, py: int, j: int)
    requires
        0 <= j < 6,
        in_domain(width, height, neighbour(px, py, j).0, neighbour(px, py, j).1),
    ensures
        touches(
            width,
            height,
            px,
            py,
            6,
            padded_index(width, neighbour(px, py, j).0, neighbour(px, py, j).1),
        ),
{
    reveal_with_fuel(touches, 7);
}

/// Only cells of the domain are touched: the ring never is.
pub proof fn lemma_touched_is_in_domain(width: nat, height: nat, px: int, py: int, k: int, i: int)
    requires
        touches(width, height, px, py, k, i),
    ensures
        exists|qx: int, qy: int|
            in_domain(width, height, qx, qy) && #[trigger] padded_index(width, qx, qy) == i,
    decreases k,
{
    if k > 0 {
        let n = neighbour(px, py, k - 1);
        if !(in_domain(width, height, n.0, n.1) && padded_index(width, n.0, n.1) == i) {
            lemma_touched_is_in_domain(width, height, px, py, k - 1, i);
        }
    }
}

/// Whether padded coordinates are in the domain.
pub fn is_within_bounds(width: usize, height: usize, x: isize, y: isize) -> (r: bool)
    requires
        width <= isize::MAX,
        height <= isize::MAX,
    ensures
        r == in_domain(width as nat, height as nat, x as int, y as int),
{
    x >= 1 && x <= width as isize && y >= 1 && y <= height as isize
}

/// Whether the padded lattice of a domain of `width` by `height` cells is
/// no larger than memory can hold.
pub fn lattice_fits(width: usize, height: usize) -> (r: bool)
    ensures
        r == fits_in_memory(width as nat, height as nat),
{
    proof {
        lemma_dimensions_fit(width as nat, height as nat);
    }
    match width.checked_add(2) {
        None => false,
        Some(rwidth) => match height.checked_add(2) {
            None => false,
            Some(rheight) => match rwidth.checked_mul(rheight) {
                None => false,
                Some(len) => len <= isize::MAX as usize / CELL_BYTES,
            },
        },
    }
}

/// A buffer of `len` cells that all hold `water` and are not receptive.
pub(crate) fn filled_buffer(len: usize, water: u64) -> (r: Vec<Cell>)
    ensures
        r@ == Seq::new(len as nat, |i: int| Cell { water, receptive: false }),
{
    let mut cells: Vec<Cell> = Vec::with_capacity(len);
    let mut i: usize = 0;
    while i < len
        invariant
            i <= len,
            cells@ == Seq::new(i as nat, |j: int| Cell { water, receptive: false }),
        decreases len - i,
    {
        cells.push(Cell { water, receptive: false });
        i = i + 1;
    }
    cells
}

/// Makes the neighbours of the cell at padded `(px, py)` receptive, as far as
/// they lie in the domain.
pub(crate) fn mark_neighbours(
    cells: &mut Vec<Cell>,
    width: usize,
    height: usize,
    px: usize,
    py: usize,
)
    requires
        in_domain(width as nat, height as nat, px as int, py as int),
        old(cells)@.len() == padded_len(width as nat, height as nat),
        padded_len(width as nat, height as nat) <= isize::MAX,
    ensures
        final(cells)@ == marked_around(
            old(cells)@,
            width as nat,
            height as nat,
            px as int,
            py as int,
            6,
        ),
{
    let ghost w = width as nat;
    let ghost h = height as nat;
    let ghost before = cells@;
    proof {
        lemma_index_in_range(w, h, px as int, py as int);
        lemma_dimensions_fit(w, h);
    }
    let around = get_neighbours(px as isize, py as isize);
    let mut k: usize = 0;
    while k < 6
        invariant
            k <= 6,
            in_domain(w, h, px as int, py as int),
            w == width,
            h == height,
            before.len() == padded_len(w, h),
            padded_len(w, h) <= isize::MAX,
            width + 2 <= isize::MAX,
            height + 2 <= isize::MAX,
            around@.len() == 6,
            forall|j: int|
                0 <= j < 6 ==> (#[trigger] around@[j]).0 == neighbour(px as int, py as int, j).0
                    && around@[j].1 == neighbour(px as int, py as int, j).1,
            cells@ == marked_around(before, w, h, px as int, py as int, k as int),
        decreases 6 - k,
    {
        let n = around[k];
        if is_within_bounds(width, height, n.0, n.1) {
            proof {
                lemma_index_in_range(w, h, n.0 as int, n.1 as int);
            }
            let i = (n.1 as usize) * (width + 2) + (n.0 as usize);
            let cell = cells[i];
            cells.set(i, Cell { water: cell.water, receptive: true });
        }
        k = k + 1;
    }
}

/// Makes the cell at padded `(px, py)` and its neighbours receptive, as far
/// as they lie in the domain.
pub(crate) fn seed_around(cells: &mut Vec<Cell>, width: usize, height: usize, px: usize, py: usize)
    requires
        in_domain(width as nat, height as nat, px as int, py as int),
        old(cells)@.len() == padded_len(width as nat, height as nat),
        padded_len(width as nat, height as nat) <= isize::MAX,
    ensures
        final(cells)@ == seeded_around(
            old(cells)@,
            width as nat,
            height as nat,
            px as int,
            py as int,
        ),
{
    proof {
        lemma_index_in_range(width as nat, height as nat, px as int, py as int);
        lemma_dimensions_fit(width as nat, height as nat);
    }
    let i = py * (width + 2) + px;
    let cell = cells[i];
    cells.set(i, Cell { water: cell.water, receptive: true });
    mark_neighbours(cells, width, height, px, py);
    assert(cells@ =~= seeded_around(
        old(cells)@,
        width as nat,
        height as nat,
        px as int,
        py as int,
    ));
}

/// Where the padded lattice fits a bound, so does each side of it.
pub proof fn lemma_dimensions_fit(width: nat, height: nat)
    ensures
        width + 2 <= padded_len(width, height),
        height + 2 <= padded_len(width, height),
{
    assert((width + 2) * (height + 2) >= width + 2) by (nonlinear_arith);
    assert((width + 2) * (height + 2) >= height + 2) by (nonlinear_arith);
}

} // verus!
