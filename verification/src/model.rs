//! What the engine is, told without its buffers of memory: the state of a
//! simulation as a value, and each operation as a function from state to
//! state.

use crate::arith::{double_difference, double_product, double_quotient, double_sum};
use crate::hex::neighbour;
use crate::lattice::{marked_around, padded_index, padded_len, seeded_around, Cell};
use crate::number::{at_least_one, clamped, is_positive, ONE, SIX, TWO, ZERO};
use crate::random::{next_cursor, unit_at, DEFAULT_SEED, RING_LEN};
use vstd::prelude::*;

verus! {

/// The factor that a uniform number `unit` in `[0, 1)` gives for a spread of
/// `range`: `1 + range * (1 - 2 * unit)`, and zero where that is negative.
pub open spec fn spread_factor(range: u64, unit: u64) -> u64 {
    clamped(
        double_sum(ONE, double_product(range, double_difference(ONE, double_product(unit, TWO)))),
    )
}

/// A parameter as it is drawn: spread by the factor of `unit` where its range
/// is above zero, and itself where it is not.
pub open spec fn drawn(param: u64, range: u64, unit: u64) -> u64 {
    if is_positive(range) {
        double_product(param, spread_factor(range, unit))
    } else {
        param
    }
}

/// The water of those among the first `k` neighbours of `(px, py)` that are
/// not receptive, added up in the order of the neighbours.
pub open spec fn loose_water(cells: Seq<Cell>, width: nat, px: int, py: int, k: int) -> u64
    decreases k,
{
    if k <= 0 {
        ZERO
    } else {
        let before = loose_water(cells, width, px, py, k - 1);
        let n = neighbour(px, py, k - 1);
        let cell = cells[padded_index(width, n.0, n.1)];
        if cell.receptive {
            before
        } else {
            double_sum(before, cell.water)
        }
    }
}

/// The water that a cell has after one step. `cell` is the cell before the
/// step, `around` the water of its neighbours that are not receptive,
/// `diffusion` and `addition` the two parameters as drawn for it.
pub open spec fn next_water(cell: Cell, around: u64, diffusion: u64, addition: u64) -> u64 {
    let held = if cell.receptive {
        double_sum(cell.water, addition)
    } else {
        ZERO
    };
    let loose = if cell.receptive {
        ZERO
    } else {
        cell.water
    };
    let average = double_quotient(around, SIX);
    let diffused = double_sum(
        loose,
        double_product(double_quotient(diffusion, TWO), double_difference(average, loose)),
    );
    double_sum(diffused, held)
}

/// The state of a simulation.
pub struct SimState {
    /// The width of the domain.
    pub width: nat,
    /// The height of the domain.
    pub height: nat,
    /// The cells that are read, ring included, row by row.
    pub current: Seq<Cell>,
    /// The cells that are written.
    pub next: Seq<Cell>,
    /// The seed of the randomization source.
    pub seed: u64,
    /// The position in the source of the next draw.
    pub cursor: nat,
    /// How many steps have been made.
    pub iteration: nat,
    /// The rate at which vapour diffuses.
    pub vapor_diffusion: u64,
    /// The vapour fed in at the ring.
    pub background_vapor: u64,
    /// The vapour that a receptive cell gains with each step.
    pub vapor_addition: u64,
    /// The spread of the diffusion rate.
    pub vapor_diffusion_rand: u64,
    /// The spread of the background vapour.
    pub background_vapor_rand: u64,
    /// The spread of the vapour addition.
    pub vapor_addition_rand: u64,
}

impl SimState {
    /// Both buffers cover the padded lattice and the cursor is on the ring of
    /// the source.
    pub open spec fn wf(self) -> bool {
        &&& self.current.len() == padded_len(self.width, self.height)
        &&& self.next.len() == padded_len(self.width, self.height)
        &&& self.cursor < RING_LEN
    }

    /// The state of a simulation that was just made: every cell holds the
    /// background vapour and none is receptive.
    pub open spec fn fresh(width: nat, height: nat, alpha: u64, beta: u64, gamma: u64) -> SimState {
        let cells = Seq::new(
            padded_len(width, height),
            |i: int| Cell { water: beta, receptive: false },
        );
        SimState {
            width,
            height,
            current: cells,
            next: cells,
            seed: DEFAULT_SEED,
            cursor: 0,
            iteration: 0,
            vapor_diffusion: alpha,
            background_vapor: beta,
            vapor_addition: gamma,
            vapor_diffusion_rand: ZERO,
            background_vapor_rand: ZERO,
            vapor_addition_rand: ZERO,
        }
    }

    /// The state with the source seeded anew.
    pub open spec fn reseeded(self, seed: u64) -> SimState {
        SimState { seed, cursor: 0, ..self }
    }

    /// The water of the cell at `(x, y)` of the domain.
    pub open spec fn water_at(self, x: int, y: int) -> u64 {
        self.current[padded_index(self.width, x + 1, y + 1)].water
    }

    /// The state after `val` was written to the cell at `(x, y)` of the
    /// domain. Water of at least one makes the cell and its neighbours
    /// receptive, in both buffers.
    pub open spec fn with_water(self, x: int, y: int, val: u64) -> SimState {
        let i = padded_index(self.width, x + 1, y + 1);
        let written = self.current.update(
            i,
            Cell { water: val, receptive: self.current[i].receptive },
        );
        if at_least_one(val) {
            SimState {
                current: seeded_around(written, self.width, self.height, x + 1, y + 1),
                next: seeded_around(self.next, self.width, self.height, x + 1, y + 1),
                ..self
            }
        } else {
            SimState { current: written, ..self }
        }
    }

    /// What a draw of `param` gives in this state.
    pub open spec fn draw_value(self, param: u64, range: u64) -> u64 {
        drawn(param, range, unit_at(self.seed, self.cursor))
    }

    /// The state after a draw with the given range: the source moves on only
    /// where the range is above zero.
    pub open spec fn after_draw(self, range: u64) -> SimState {
        if is_positive(range) {
            SimState { cursor: next_cursor(self.cursor), ..self }
        } else {
            self
        }
    }

    /// The state after the cell at padded `(px, py)` was stepped. The
    /// diffusion rate is drawn first, then, for a receptive cell, the vapour
    /// addition. The new water goes to `next`; where it is frozen and the
    /// water that `next` held there was not, or the other way round, the
    /// neighbours in `current` become receptive.
    pub open spec fn cell_stepped(self, px: int, py: int) -> SimState {
        let i = padded_index(self.width, px, py);
        let cell = self.current[i];
        let diffusion = self.draw_value(self.vapor_diffusion, self.vapor_diffusion_rand);
        let s1 = self.after_draw(self.vapor_diffusion_rand);
        let addition = s1.draw_value(self.vapor_addition, self.vapor_addition_rand);
        let s2 = if cell.receptive {
            s1.after_draw(self.vapor_addition_rand)
        } else {
            s1
        };
        let around = loose_water(self.current, self.width, px, py, 6);
        let water = next_water(cell, around, diffusion, addition);
        let flipped = at_least_one(self.next[i].water) != at_least_one(water);
        SimState {
            current: if flipped {
                marked_around(self.current, self.width, self.height, px, py, 6)
            } else {
                self.current
            },
            next: self.next.update(i, Cell { water, receptive: self.next[i].receptive }),
            cursor: s2.cursor,
            ..self
        }
    }

    /// The state after the first `n` cells of row `py` were stepped, from
    /// left to right.
    pub open spec fn row_stepped(self, py: int, n: int) -> SimState
        decreases n,
    {
        if n <= 0 {
            self
        } else {
            self.row_stepped(py, n - 1).cell_stepped(n, py)
        }
    }

    /// The state after the first `m` rows of the domain were stepped, from
    /// top to bottom.
    pub open spec fn rows_stepped(self, m: int) -> SimState
        decreases m,
    {
        if m <= 0 {
            self
        } else {
            self.rows_stepped(m - 1).row_stepped(m, self.width as int)
        }
    }

    /// The state after the ring cell at padded `(px, py)` of `next` was fed
    /// a fresh draw of the background vapour.
    pub open spec fn ring_fed(self, px: int, py: int) -> SimState {
        let i = padded_index(self.width, px, py);
        let water = self.draw_value(self.background_vapor, self.background_vapor_rand);
        SimState {
            next: self.next.update(i, Cell { water, receptive: self.next[i].receptive }),
            cursor: self.after_draw(self.background_vapor_rand).cursor,
            ..self
        }
    }

    /// The state after the first `m` rows of the two side columns of the ring
    /// were fed: in each row the left cell, then the right one.
    pub open spec fn sides_fed(self, m: int) -> SimState
        decreases m,
    {
        if m <= 0 {
            self
        } else {
            self.sides_fed(m - 1).ring_fed(0, m - 1).ring_fed(self.width as int + 1, m - 1)
        }
    }

    /// The state after the first `n` columns of the domain had their two ring
    /// cells fed: in each column the top cell, then the bottom one.
    pub open spec fn ends_fed(self, n: int) -> SimState
        decreases n,
    {
        if n <= 0 {
            self
        } else {
            self.ends_fed(n - 1).ring_fed(n, 0).ring_fed(n, self.height as int + 1)
        }
    }

    /// The state after the whole ring of `next` was fed: the two side
    /// columns over all rows, corners included, then the top and bottom rows
    /// between the corners.
    pub open spec fn border_fed(self) -> SimState {
        self.sides_fed(self.height as int + 2).ends_fed(self.width as int)
    }

    /// The state after one step: every cell of the domain stepped in row
    /// order, then the ring fed, then the two buffers exchanged.
    pub open spec fn stepped(self) -> SimState {
        let fed = self.rows_stepped(self.height as int).border_fed();
        SimState { current: fed.next, next: fed.current, iteration: self.iteration + 1, ..fed }
    }
}

} // verus!
