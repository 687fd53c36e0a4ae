//! The randomization source: a ring of uniform numbers in `[0, 1)` that a
//! seed determines, handed out one after the other.

use crate::number::ONE;
use oorandom::Rand64;
use vstd::prelude::*;

verus! {

/// How many numbers the ring holds before it starts over.
pub const RING_LEN: usize = 10000;

/// The seed of a source that has not been given one.
pub const DEFAULT_SEED: u64 = 34917983469832;

/// The state of the generator that a seed starts.
pub uninterp spec fn generator_start(seed: u64) -> (u128, u128);

/// What one draw from a generator in the given state gives: the pattern of a
/// uniform number in `[0, 1)`, and the state that the generator is left in.
pub uninterp spec fn generator_draw(state: (u128, u128)) -> (u64, (u128, u128));

/// Starts an `oorandom::Rand64` with `Rand64::new` on the seed, and reads its
/// state with `Rand64::state`. Nothing is proved of the state: it is what the
/// generator has after seeding, and one seed always gives one state.
#[verifier::external_body]
fn start_generator(seed: u64) -> (r: (u128, u128))
    ensures
        r == generator_start(seed),
{
    Rand64::new(seed as u128).state()
}

/// Resumes an `oorandom::Rand64` in the given state with `Rand64::from_state`,
/// draws once with `Rand64::rand_float`, and hands back the pattern of the
/// number with the state after the draw. One state always gives the same
/// two. Of the number only this is claimed: it lies in `[0, 1)`, as the
/// generator documents, so its pattern is below that of one.
#[verifier::external_body]
fn draw_from_generator(state: (u128, u128)) -> (r: (u64, (u128, u128)))
    ensures
        r == generator_draw(state),
        r.0 < ONE,
{
    let mut generator = Rand64::from_state(state);
    let unit = generator.rand_float().to_bits();
    (unit, generator.state())
}

/// The state of the generator after `n` draws from the seed.
pub open spec fn state_after(seed: u64, n: nat) -> (u128, u128)
    decreases n,
{
    if n == 0 {
        generator_start(seed)
    } else {
        generator_draw(state_after(seed, (n - 1) as nat)).1
    }
}

/// The number that the seed gives at position `n` of its sequence.
pub open spec fn unit_at(seed: u64, n: nat) -> u64 {
    generator_draw(state_after(seed, n)).0
}

/// The position that follows `cursor` on the ring.
pub open spec fn next_cursor(cursor: nat) -> nat {
    if cursor + 1 == RING_LEN {
        0
    } else {
        cursor + 1
    }
}

/// A seeded ring of uniform numbers with the position of the next draw.
#[derive(Debug)]
pub struct RandomSource {
    ring: Vec<u64>,
    cursor: usize,
    seed: u64,
}

impl RandomSource {
    /// The seed that filled the ring.
    pub closed spec fn seed(&self) -> u64 {
        self.seed
    }

    /// The position on the ring of the next draw.
    pub closed spec fn cursor(&self) -> nat {
        self.cursor as nat
    }

    /// The ring holds the first `RING_LEN` numbers of the seed's sequence,
    /// each of them in `[0, 1)`, and the cursor is on it.
    pub closed spec fn wf(&self) -> bool {
        &&& self.ring@.len() == RING_LEN
        &&& self.cursor < RING_LEN
        &&& forall|i: int|
            0 <= i < RING_LEN ==> #[trigger] self.ring@[i] == unit_at(self.seed, i as nat)
                && self.ring@[i] < ONE
    }

    /// A source filled from the seed, about to hand out its first number.
    pub fn new(seed: u64) -> (r: RandomSource)
        ensures
            r.wf(),
            r.seed() == seed,
            r.cursor() == 0,
    {
        let mut ring: Vec<u64> = Vec::with_capacity(RING_LEN);
        let mut state = start_generator(seed);
        let mut i: usize = 0;
        while i < RING_LEN
            invariant
                i <= RING_LEN,
                ring@.len() == i,
                state == state_after(seed, i as nat),
                forall|k: int|
                    0 <= k < i ==> #[trigger] ring@[k] == unit_at(seed, k as nat) && ring@[k] < ONE,
            decreases RING_LEN - i,
        {
            let drawn = draw_from_generator(state);
            ring.push(drawn.0);
            state = drawn.1;
            i = i + 1;
        }
        RandomSource { ring, cursor: 0, seed }
    }

    /// Fills the ring anew from the seed and goes back to its first number.
    pub fn reseed(&mut self, seed: u64)
        ensures
            final(self).wf(),
            final(self).seed() == seed,
            final(self).cursor() == 0,
    {
        *self = RandomSource::new(seed);
    }

    /// The seed that filled the ring.
    pub fn current_seed(&self) -> (r: u64)
        ensures
            r == self.seed(),
    {
        self.seed
    }

    /// Hands out the number under the cursor, which lies in `[0, 1)`, and
    /// moves the cursor on, back to the start once the ring is used up.
    pub fn get_next_rand(&mut self) -> (r: u64)
        requires
            old(self).wf(),
        ensures
            final(self).wf(),
            r == unit_at(old(self).seed(), old(self).cursor()),
            r < ONE,
            final(self).seed() == old(self).seed(),
            final(self).cursor() == next_cursor(old(self).cursor()),
    {
        let unit = self.ring[self.cursor];
        if self.cursor + 1 == RING_LEN {
            self.cursor = 0;
        } else {
            self.cursor = self.cursor + 1;
        }
        unit
    }
}

} // verus!
