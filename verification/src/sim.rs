//! The diffusion engine: a padded hexagonal lattice in two buffers, stepped
//! by the rule of diffusion-limited deposition.

use crate::arith::{difference, product, quotient, sum};
use crate::border::{lemma_ring_after_step, ring_water};
use crate::growth::{
    grows_from, is_seeded_at, keeps_receptive, lemma_step_keeps_receptive,
    lemma_water_keeps_receptive, lemma_water_seeds,
};
use crate::hex::{get_neighbours, lemma_neighbour_is_adjacent, neighbour};
use crate::lattice::{
    filled_buffer, fits_in_memory, in_domain, lemma_dimensions_fit, lemma_index_in_range,
    mark_neighbours, on_lattice, on_ring, padded_index, seed_around, Cell,
};
use crate::model::{loose_water, spread_factor, SimState};
use crate::number::{
    at_least_one, clamp_non_negative, is_above_zero, is_at_least_one, is_positive, INFINITY, ONE,
    SIX, TWO, ZERO,
};
use crate::random::{next_cursor, unit_at, RandomSource, DEFAULT_SEED};
use vstd::prelude::*;

verus! {

/// A coordinate that is not in the domain was given.
#[derive(Clone, Copy, Debug, PartialEq, Eq)]
pub struct BoundsError {
    pub x: usize,
    pub y: usize,
}

/// A snowflake simulation after Reiter's model of crystal growth.
#[derive(Debug)]
pub struct SnowflakeSim {
    current: Vec<Cell>,
    next: Vec<Cell>,
    width: usize,
    height: usize,
    rwidth: usize,
    rheight: usize,
    source: RandomSource,
    iteration_count: usize,
    vapor_diffusion: u64,
    background_vapor: u64,
    vapor_addition: u64,
    background_vapor_rand: u64,
    vapor_addition_rand: u64,
    vapor_diffusion_rand: u64,
}

impl View for SnowflakeSim {
    type V = SimState;

    closed spec fn view(&self) -> SimState {
        SimState {
            width: self.width as nat,
            height: self.height as nat,
            current: self.current@,
            next: self.next@,
            seed: self.source.seed(),
            cursor: self.source.cursor(),
            iteration: self.iteration_count as nat,
            vapor_diffusion: self.vapor_diffusion,
            background_vapor: self.background_vapor,
            vapor_addition: self.vapor_addition,
            vapor_diffusion_rand: self.vapor_diffusion_rand,
            background_vapor_rand: self.background_vapor_rand,
            vapor_addition_rand: self.vapor_addition_rand,
        }
    }
}

impl SnowflakeSim {
    /// The buffers cover the padded lattice, the source holds the sequence
    /// of its seed, and the lattice is no larger than memory can hold.
    pub closed spec fn wf(&self) -> bool {
        &&& self@.wf()
        &&& self.source.wf()
        &&& self.rwidth == self.width + 2
        &&& self.rheight == self.height + 2
        &&& fits_in_memory(self.width as nat, self.height as nat)
    }

    /// A well-formed engine has a well-formed state, on a lattice that fits
    /// in memory.
    pub proof fn lemma_state_is_well_formed(&self)
        requires
            self.wf(),
        ensures
            self@.wf(),
            fits_in_memory(self@.width, self@.height),
            self@.iteration <= usize::MAX,
    {
    }

    /// An engine on a domain of `width` by `height` cells, every cell of the
    /// padded lattice holding `beta`, with no spread on any parameter and the
    /// default seed.
    pub fn new(width: usize, height: usize, alpha: u64, beta: u64, gamma: u64) -> (r: SnowflakeSim)
        requires
            fits_in_memory(width as nat, height as nat),
        ensures
            r.wf(),
            r@ == SimState::fresh(width as nat, height as nat, alpha, beta, gamma),
    {
        proof {
            lemma_dimensions_fit(width as nat, height as nat);
        }
        let rwidth = width + 2;
        let rheight = height + 2;
        let len = rwidth * rheight;
        SnowflakeSim {
            current: filled_buffer(len, beta),
            next: filled_buffer(len, beta),
            width,
            height,
            rwidth,
            rheight,
            source: RandomSource::new(DEFAULT_SEED),
            iteration_count: 0,
            vapor_diffusion: alpha,
            background_vapor: beta,
            vapor_addition: gamma,
            background_vapor_rand: ZERO,
            vapor_addition_rand: ZERO,
            vapor_diffusion_rand: ZERO,
        }
    }

    /// Writes `val` to the cell at `(x, y)` of the domain. Water of at least
    /// one freezes the cell: it and its neighbours become receptive in both
    /// buffers. A coordinate outside the domain is refused and changes
    /// nothing.
    pub fn set_water(&mut self, x: usize, y: usize, val: u64) -> (r: Result<(), BoundsError>)
        requires
            old(self).wf(),
        ensures
            final(self).wf(),
            x < old(self)@.width && y < old(self)@.height ==> r == Ok::<(), BoundsError>(())
                && final(self)@ == old(self)@.with_water(x as int, y as int, val),
            !(x < old(self)@.width && y < old(self)@.height) ==> r == Err::<(), BoundsError>(
                BoundsError { x, y },
            ) && final(self)@ == old(self)@,
            grows_from(final(self)@, old(self)@),
            x < old(self)@.width && y < old(self)@.height && at_least_one(val) ==> is_seeded_at(
                final(self)@,
                x as int,
                y as int,
            ),
    {
        if !(x < self.width && y < self.height) {
            return Err(BoundsError { x, y });
        }
        proof {
            lemma_dimensions_fit(self.width as nat, self.height as nat);
            lemma_index_in_range(self.width as nat, self.height as nat, x + 1, y + 1);
            lemma_water_keeps_receptive(self@, x as int, y as int, val);
            if at_least_one(val) {
                lemma_water_seeds(self@, x as int, y as int, val);
            }
        }
        let px = x + 1;
        let py = y + 1;
        let i = py * self.rwidth + px;
        let cell = self.current[i];
        self.current.set(i, Cell { water: val, receptive: cell.receptive });
        if is_at_least_one(val) {
            seed_around(&mut self.current, self.width, self.height, px, py);
            seed_around(&mut self.next, self.width, self.height, px, py);
        }
        Ok(())
    }

    /// Seeds the randomization source anew: its sequence starts over from
    /// the first number that the seed gives.
    pub fn set_random_seed(&mut self, seed: u64)
        requires
            old(self).wf(),
        ensures
            final(self).wf(),
            final(self)@ == old(self)@.reseeded(seed),
    {
        self.source.reseed(seed);
    }

    /// The water of the cell at `(x, y)` of the domain, or the refusal of a
    /// coordinate outside it.
    pub fn get_water(&self, x: usize, y: usize) -> (r: Result<u64, BoundsError>)
        requires
            self.wf(),
        ensures
            x < self@.width && y < self@.height ==> r == Ok::<u64, BoundsError>(
                self@.water_at(x as int, y as int),
            ),
            !(x < self@.width && y < self@.height) ==> r == Err::<u64, BoundsError>(
                BoundsError { x, y },
            ),
    {
        if !(x < self.width && y < self.height) {
            return Err(BoundsError { x, y });
        }
        proof {
            lemma_dimensions_fit(self.width as nat, self.height as nat);
            lemma_index_in_range(self.width as nat, self.height as nat, x + 1, y + 1);
        }
        Ok(self.current[(y + 1) * self.rwidth + (x + 1)].water)
    }

    /// The factor of the next number of the source for a spread of
    /// `rand_range`: between `1 - rand_range` and `1 + rand_range`, and zero
    /// where that is negative, so that it is a number and not below zero.
    fn get_random_factor(&mut self, rand_range: u64) -> (r: u64)
        requires
            old(self).wf(),
        ensures
            final(self).wf(),
            r == spread_factor(rand_range, unit_at(old(self)@.seed, old(self)@.cursor)),
            r <= INFINITY,
            final(self)@ == (SimState { cursor: next_cursor(old(self)@.cursor), ..old(self)@ }),
    {
        let unit = self.source.get_next_rand();
        clamp_non_negative(sum(ONE, product(rand_range, difference(ONE, product(unit, TWO)))))
    }

    /// Draws a parameter: spread by a random factor where its range is above
    /// zero, which takes one number from the source, and unchanged where it
    /// is not, which takes none.
    fn draw(&mut self, param: u64, range: u64) -> (r: u64)
        requires
            old(self).wf(),
        ensures
            final(self).wf(),
            r == old(self)@.draw_value(param, range),
            final(self)@ == old(self)@.after_draw(range),
    {
        if is_above_zero(range) {
            let factor = self.get_random_factor(range);
            product(param, factor)
        } else {
            param
        }
    }

    /// Draws the background vapour.
    fn get_background_vapor(&mut self) -> (r: u64)
        requires
            old(self).wf(),
        ensures
            final(self).wf(),
            r == old(self)@.draw_value(
                old(self)@.background_vapor,
                old(self)@.background_vapor_rand,
            ),
            final(self)@ == old(self)@.after_draw(old(self)@.background_vapor_rand),
    {
        self.draw(self.background_vapor, self.background_vapor_rand)
    }

    /// Draws the diffusion rate.
    fn get_vapor_diffusion(&mut self) -> (r: u64)
        requires
            old(self).wf(),
        ensures
            final(self).wf(),
            r == old(self)@.draw_value(old(self)@.vapor_diffusion, old(self)@.vapor_diffusion_rand),
            final(self)@ == old(self)@.after_draw(old(self)@.vapor_diffusion_rand),
    {
        self.draw(self.vapor_diffusion, self.vapor_diffusion_rand)
    }

    /// Draws the vapour addition.
    fn get_vapor_addition(&mut self) -> (r: u64)
        requires
            old(self).wf(),
        ensures
            final(self).wf(),
            r == old(self)@.draw_value(old(self)@.vapor_addition, old(self)@.vapor_addition_rand),
            final(self)@ == old(self)@.after_draw(old(self)@.vapor_addition_rand),
    {
        self.draw(self.vapor_addition, self.vapor_addition_rand)
    }

    /// The width of the domain.
    pub fn width(&self) -> (r: usize)
        ensures
            r == self@.width,
    {
        self.width
    }

    /// The height of the domain.
    pub fn height(&self) -> (r: usize)
        ensures
            r == self@.height,
    {
        self.height
    }

    /// How many steps have been made.
    pub fn iteration_count(&self) -> (r: usize)
        ensures
            r == self@.iteration,
    {
        self.iteration_count
    }

    /// The seed of the randomization source.
    pub fn seed(&self) -> (r: u64)
        ensures
            r == self@.seed,
    {
        self.source.current_seed()
    }

    /// The rate at which vapour diffuses.
    pub fn vapor_diffusion(&self) -> (r: u64)
        ensures
            r == self@.vapor_diffusion,
    {
        self.vapor_diffusion
    }

    /// The vapour fed in at the ring.
    pub fn background_vapor(&self) -> (r: u64)
        ensures
            r == self@.background_vapor,
    {
        self.background_vapor
    }

    /// The vapour that a receptive cell gains with each step.
    pub fn vapor_addition(&self) -> (r: u64)
        ensures
            r == self@.vapor_addition,
    {
        self.vapor_addition
    }

    /// The spread of the diffusion rate.
    pub fn vapor_diffusion_rand(&self) -> (r: u64)
        ensures
            r == self@.vapor_diffusion_rand,
    {
        self.vapor_diffusion_rand
    }

    /// The spread of the background vapour.
    pub fn background_vapor_rand(&self) -> (r: u64)
        ensures
            r == self@.background_vapor_rand,
    {
        self.background_vapor_rand
    }

    /// The spread of the vapour addition.
    pub fn vapor_addition_rand(&self) -> (r: u64)
        ensures
            r == self@.vapor_addition_rand,
    {
        self.vapor_addition_rand
    }

    /// Sets the rate at which vapour diffuses.
    pub fn set_vapor_diffusion(&mut self, value: u64)
        requires
            old(self).wf(),
        ensures
            final(self).wf(),
            final(self)@ == (SimState { vapor_diffusion: value, ..old(self)@ }),
    {
        self.vapor_diffusion = value;
    }

    /// Sets the vapour fed in at the ring.
    pub fn set_background_vapor(&mut self, value: u64)
        requires
            old(self).wf(),
        ensures
            final(self).wf(),
            final(self)@ == (SimState { background_vapor: value, ..old(self)@ }),
    {
        self.background_vapor = value;
    }

    /// Sets the vapour that a receptive cell gains with each step.
    pub fn set_vapor_addition(&mut self, value: u64)
        requires
            old(self).wf(),
        ensures
            final(self).wf(),
            final(self)@ == (SimState { vapor_addition: value, ..old(self)@ }),
    {
        self.vapor_addition = value;
    }

    /// Sets the spread of the diffusion rate.
    pub fn set_vapor_diffusion_rand(&mut self, value: u64)
        requires
            old(self).wf(),
        ensures
            final(self).wf(),
            final(self)@ == (SimState { vapor_diffusion_rand: value, ..old(self)@ }),
    {
        self.vapor_diffusion_rand = value;
    }

    /// Sets the spread of the background vapour.
    pub fn set_background_vapor_rand(&mut self, value: u64)
        requires
            old(self).wf(),
        ensures
            final(self).wf(),
            final(self)@ == (SimState { background_vapor_rand: value, ..old(self)@ }),
    {
        self.background_vapor_rand = value;
    }

    /// Sets the spread of the vapour addition.
    pub fn set_vapor_addition_rand(&mut self, value: u64)
        requires
            old(self).wf(),
        ensures
            final(self).wf(),
            final(self)@ == (SimState { vapor_addition_rand: value, ..old(self)@ }),
    {
        self.vapor_addition_rand = value;
    }

    /// The cell at padded `(px, py)` of the buffer that is read, ring
    /// included, or nothing where that is off the lattice.
    pub fn cell_at(&self, px: usize, py: usize) -> (r: Option<Cell>)
        requires
            self.wf(),
        ensures
            on_lattice(self@.width, self@.height, px as int, py as int) ==> r == Some(
                self@.current[padded_index(self@.width, px as int, py as int)],
            ),
            !on_lattice(self@.width, self@.height, px as int, py as int) ==> r.is_none(),
    {
        if px < self.rwidth && py < self.rheight {
            proof {
                lemma_index_in_range(self.width as nat, self.height as nat, px as int, py as int);
            }
            Some(self.current[py * self.rwidth + px])
        } else {
            None
        }
    }

    /// The cell at padded `(px, py)` of the buffer that is written, ring
    /// included, or nothing where that is off the lattice.
    pub fn next_cell_at(&self, px: usize, py: usize) -> (r: Option<Cell>)
        requires
            self.wf(),
        ensures
            on_lattice(self@.width, self@.height, px as int, py as int) ==> r == Some(
                self@.next[padded_index(self@.width, px as int, py as int)],
            ),
            !on_lattice(self@.width, self@.height, px as int, py as int) ==> r.is_none(),
    {
        if px < self.rwidth && py < self.rheight {
            proof {
                lemma_index_in_range(self.width as nat, self.height as nat, px as int, py as int);
            }
            Some(self.next[py * self.rwidth + px])
        } else {
            None
        }
    }

    /// The water of the neighbours of the cell at padded `(px, py)` that are
    /// not receptive, added up in the order of the neighbours.
    fn water_around(&self, px: usize, py: usize) -> (r: u64)
        requires
            self.wf(),
            in_domain(self@.width, self@.height, px as int, py as int),
        ensures
            r == loose_water(self@.current, self@.width, px as int, py as int, 6),
    {
        let ghost w = self.width as nat;
        let ghost h = self.height as nat;
        proof {
            lemma_dimensions_fit(w, h);
        }
        let around = get_neighbours(px as isize, py as isize);
        let mut total = ZERO;
        let mut k: usize = 0;
        while k < 6
            invariant
                k <= 6,
                self.wf(),
                w == self.width,
                h == self.height,
                in_domain(w, h, px as int, py as int),
                w + 2 <= isize::MAX,
                h + 2 <= isize::MAX,
                around@.len() == 6,
                forall|j: int|
                    0 <= j < 6 ==> (#[trigger] around@[j]).0 == neighbour(px as int, py as int, j).0
                        && around@[j].1 == neighbour(px as int, py as int, j).1,
                total == loose_water(self@.current, w, px as int, py as int, k as int),
            decreases 6 - k,
        {
            let n = around[k];
            proof {
                lemma_neighbour_is_adjacent(px as int, py as int, k as int);
                lemma_index_in_range(w, h, n.0 as int, n.1 as int);
            }
            let cell = self.current[(n.1 as usize) * self.rwidth + (n.0 as usize)];
            if !cell.receptive {
                total = sum(total, cell.water);
            }
            k = k + 1;
        }
        total
    }

    /// Steps the cell at padded `(x, y)`: reads `current`, writes its new
    /// water to `next`, and where the cell froze or thawed against what
    /// `next` held, makes its neighbours in `current` receptive.
    fn step_cell(&mut self, x: usize, y: usize)
        requires
            old(self).wf(),
            in_domain(old(self)@.width, old(self)@.height, x as int, y as int),
        ensures
            final(self).wf(),
            final(self)@ == old(self)@.cell_stepped(x as int, y as int),
    {
        proof {
            lemma_dimensions_fit(self.width as nat, self.height as nat);
            lemma_index_in_range(self.width as nat, self.height as nat, x as int, y as int);
        }
        let i = y * self.rwidth + x;
        let cell = self.current[i];
        let stale = self.next[i];
        let around = self.water_around(x, y);
        let diffusion = self.get_vapor_diffusion();
        let mut held = ZERO;
        let mut loose = ZERO;
        if cell.receptive {
            let addition = self.get_vapor_addition();
            held = sum(cell.water, addition);
        } else {
            loose = cell.water;
        }
        let average = quotient(around, SIX);
        let diffused = sum(loose, product(quotient(diffusion, TWO), difference(average, loose)));
        let water = sum(diffused, held);
        if is_at_least_one(stale.water) != is_at_least_one(water) {
            mark_neighbours(&mut self.current, self.width, self.height, x, y);
        }
        self.next.set(i, Cell { water, receptive: stale.receptive });
    }

    /// Feeds the cell at padded `(px, py)` of `next` a fresh draw of the
    /// background vapour.
    fn feed_ring(&mut self, px: usize, py: usize)
        requires
            old(self).wf(),
            on_lattice(old(self)@.width, old(self)@.height, px as int, py as int),
        ensures
            final(self).wf(),
            final(self)@ == old(self)@.ring_fed(px as int, py as int),
    {
        proof {
            lemma_dimensions_fit(self.width as nat, self.height as nat);
            lemma_index_in_range(self.width as nat, self.height as nat, px as int, py as int);
        }
        let i = py * self.rwidth + px;
        let water = self.get_background_vapor();
        let stale = self.next[i];
        self.next.set(i, Cell { water, receptive: stale.receptive });
    }

    /// Steps the simulation one iteration: every cell of the domain in row
    /// order, then the ring of background vapour, then the exchange of the
    /// two buffers.
    pub fn step(&mut self)
        requires
            old(self).wf(),
            old(self)@.iteration < usize::MAX,
        ensures
            final(self).wf(),
            final(self)@ == old(self)@.stepped(),
            keeps_receptive(old(self)@.current, final(self)@.next),
            keeps_receptive(old(self)@.next, final(self)@.current),
            forall|px: int, py: int|
                on_ring(old(self)@.width, old(self)@.height, px, py) ==> final(self)@.current[
                    #[trigger] padded_index(old(self)@.width, px, py)
                ].water == ring_water(old(self)@, px, py),
            forall|px: int, py: int|
                on_ring(old(self)@.width, old(self)@.height, px, py) && !is_positive(
                    old(self)@.background_vapor_rand,
                ) ==> final(self)@.current[#[trigger] padded_index(old(self)@.width, px, py)].water
                    == old(self)@.background_vapor,
    {
        let ghost start = self@;
        proof {
            lemma_dimensions_fit(self.width as nat, self.height as nat);
            lemma_step_keeps_receptive(start);
            assert forall|px: int, py: int|
                on_ring(start.width, start.height, px, py) implies start.stepped().current[
                #[trigger] padded_index(start.width, px, py)
            ].water == ring_water(start, px, py) && (!is_positive(start.background_vapor_rand)
                ==> start.stepped().current[padded_index(start.width, px, py)].water
                == start.background_vapor) by {
                lemma_ring_after_step(start, px, py);
            }
        }
        let mut y: usize = 1;
        while y <= self.height
            invariant
                1 <= y <= self.height + 1,
                self.wf(),
                self.width == start.width,
                self.iteration_count == start.iteration,
                self.height == start.height,
                self.height + 2 <= isize::MAX,
                self.width + 2 <= isize::MAX,
                self@ == start.rows_stepped(y - 1),
            decreases self.height + 1 - y,
        {
            let ghost row_start = self@;
            let mut x: usize = 1;
            while x <= self.width
                invariant
                    1 <= x <= self.width + 1,
                    1 <= y <= self.height,
                    self.wf(),
                    self.width == start.width,
                    self.iteration_count == start.iteration,
                    self.height == start.height,
                    self.height + 2 <= isize::MAX,
                    self.width + 2 <= isize::MAX,
                    self@ == row_start.row_stepped(y as int, x - 1),
                decreases self.width + 1 - x,
            {
                self.step_cell(x, y);
                x = x + 1;
            }
            y = y + 1;
        }
        let ghost mid = self@;
        let mut y: usize = 0;
        while y < self.rheight
            invariant
                0 <= y <= self.rheight,
                self.wf(),
                self.width == mid.width,
                self.iteration_count == mid.iteration,
                self.height == mid.height,
                self.height + 2 <= isize::MAX,
                self.width + 2 <= isize::MAX,
                self@ == mid.sides_fed(y as int),
            decreases self.rheight - y,
        {
            self.feed_ring(0, y);
            self.feed_ring(self.width + 1, y);
            y = y + 1;
        }
        let ghost sides = self@;
        let mut x: usize = 1;
        while x <= self.width
            invariant
                1 <= x <= self.width + 1,
                self.wf(),
                self.width == sides.width,
                self.iteration_count == sides.iteration,
                self.height == sides.height,
                self.height + 2 <= isize::MAX,
                self.width + 2 <= isize::MAX,
                self@ == sides.ends_fed(x - 1),
            decreases self.width + 1 - x,
        {
            self.feed_ring(x, 0);
            self.feed_ring(x, self.height + 1);
            x = x + 1;
        }
        core::mem::swap(&mut self.current, &mut self.next);
        self.iteration_count = self.iteration_count + 1;
    }
}

} // verus!
