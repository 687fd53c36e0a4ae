//! The history of a simulation: what is needed to run it again, cell for
//! cell, and the string that carries it.

use crate::codec::{
    bytes_record, compress, decode_record, decompress, deflated, encode_record, from_text,
    inflated, is_cut_short, is_url_safe, record_bytes, text_bytes, text_len, to_text, url_text,
};
use crate::growth::{grows_from, lemma_grows_on, lemma_water_keeps_receptive};
use crate::lattice::{
    fits_in_memory, lattice_fits, lemma_dimensions_fit, lemma_index_in_range,
    lemma_index_is_injective, padded_index, padded_len,
};
use crate::model::SimState;
use crate::number::{at_least_one, below_one, is_at_least_one, is_below_one, ONE, ZERO};
use crate::seeding::{lemma_frozen_in_rows_are_in_order, lemma_frozen_in_rows_lists};
use crate::sim::SnowflakeSim;
use crate::timeline::{
    can_record, is_timeline, lemma_recording_twice, recorded, value_in_force, AttribHistory,
};
use vstd::prelude::*;

verus! {

/// Why a string is not a history.
#[derive(Clone, Copy, Debug, PartialEq, Eq)]
pub enum HistoryError {
    /// The string is not unpadded URL-safe base64.
    Decode,
    /// The bytes are not a zlib stream that unpacks: it is corrupt, cut
    /// short, or followed by bytes that are no part of it.
    Decompress,
    /// The unpacked bytes are not the layout of a history, or the fields
    /// they hold are not those of one.
    Schema,
}

/// The cells of the first `n` columns of row `y` of the domain that are
/// frozen, from left to right.
pub open spec fn frozen_in_row(sim: SimState, y: int, n: int) -> Seq<(usize, usize)>
    decreases n,
{
    if n <= 0 {
        Seq::empty()
    } else if at_least_one(sim.water_at(n - 1, y)) {
        frozen_in_row(sim, y, n - 1).push(((n - 1) as usize, y as usize))
    } else {
        frozen_in_row(sim, y, n - 1)
    }
}

/// The cells of the first `m` rows of the domain that are frozen, row by
/// row.
pub open spec fn frozen_in_rows(sim: SimState, m: int) -> Seq<(usize, usize)>
    decreases m,
{
    if m <= 0 {
        Seq::empty()
    } else {
        frozen_in_rows(sim, m - 1) + frozen_in_row(sim, m - 1, sim.width as int)
    }
}

/// Whether cell `a` comes before cell `b` when a domain is gone through row
/// by row, each row from left to right.
pub open spec fn comes_before(a: (usize, usize), b: (usize, usize)) -> bool {
    a.1 < b.1 || (a.1 == b.1 && a.0 < b.0)
}

/// Whether the cells stand in the order of the rows, each row from left to
/// right, so that none stands twice.
pub open spec fn is_row_major(cells: Seq<(usize, usize)>) -> bool {
    forall|i: int, j: int|
        0 <= i < j < cells.len() ==> comes_before(#[trigger] cells[i], #[trigger] cells[j])
}

/// The state after water of one was written to the first `n` of the cells.
pub open spec fn seeds_set(sim: SimState, cells: Seq<(usize, usize)>, n: int) -> SimState
    decreases n,
{
    if n <= 0 {
        sim
    } else {
        seeds_set(sim, cells, n - 1).with_water(cells[n - 1].0 as int, cells[n - 1].1 as int, ONE)
    }
}

/// Whether every one of the cells lies in a domain of the given width and
/// height.
pub open spec fn lie_in_domain(cells: Seq<(usize, usize)>, size: (usize, usize)) -> bool {
    forall|i: int|
        0 <= i < cells.len() ==> (#[trigger] cells[i]).0 < size.0 && cells[i].1 < size.1
}

/// Whether every one of the cells lies in the domain of the state.
pub open spec fn seeds_fit(sim: SimState, cells: Seq<(usize, usize)>) -> bool {
    forall|j: int|
        0 <= j < cells.len() ==> (#[trigger] cells[j]).0 < sim.width && cells[j].1 < sim.height
}

/// Writing water to cells of the domain keeps the state well formed and
/// changes nothing but cells.
pub proof fn lemma_seeds_set(sim: SimState, cells: Seq<(usize, usize)>, n: int)
    requires
        sim.wf(),
        0 <= n <= cells.len(),
        seeds_fit(sim, cells),
    ensures
        grows_from(seeds_set(sim, cells, n), sim),
        seeds_set(sim, cells, n).cursor == sim.cursor,
    decreases n,
{
    if n > 0 {
        lemma_seeds_set(sim, cells, n - 1);
        let before = seeds_set(sim, cells, n - 1);
        lemma_water_keeps_receptive(before, cells[n - 1].0 as int, cells[n - 1].1 as int, ONE);
        lemma_grows_on(
            sim,
            before,
            before.with_water(cells[n - 1].0 as int, cells[n - 1].1 as int, ONE),
        );
    }
}

/// What a history holds.
pub struct HistoryView {
    /// The timeline of the diffusion rate.
    pub alpha: Seq<(usize, u64)>,
    /// The timeline of the background vapour.
    pub beta: Seq<(usize, u64)>,
    /// The timeline of the vapour addition.
    pub gamma: Seq<(usize, u64)>,
    /// The timeline of the spread of the diffusion rate.
    pub alpha_rand: Seq<(usize, u64)>,
    /// The seed of the randomization source.
    pub seed: u64,
    /// The width and the height of the domain.
    pub size: (usize, usize),
    /// The cells of the domain that were frozen when tracking began.
    pub start_filled: Seq<(usize, usize)>,
}

impl HistoryView {
    /// The history that holds nothing yet.
    pub open spec fn empty() -> HistoryView {
        HistoryView {
            alpha: Seq::empty(),
            beta: Seq::empty(),
            gamma: Seq::empty(),
            alpha_rand: Seq::empty(),
            seed: 0,
            size: (0, 0),
            start_filled: Seq::empty(),
        }
    }

    /// The four timelines are timelines, the lattice fits in memory, and
    /// every cell that was frozen at the start lies in the domain.
    pub open spec fn wf(self) -> bool {
        &&& is_timeline(self.alpha)
        &&& is_timeline(self.beta)
        &&& is_timeline(self.gamma)
        &&& is_timeline(self.alpha_rand)
        &&& fits_in_memory(self.size.0 as nat, self.size.1 as nat)
        &&& lie_in_domain(self.start_filled, self.size)
    }

    /// Whether nothing was recorded yet.
    pub open spec fn is_blank(self) -> bool {
        &&& self.alpha.len() == 0
        &&& self.beta.len() == 0
        &&& self.gamma.len() == 0
        &&& self.alpha_rand.len() == 0
        &&& self.start_filled.len() == 0
    }

    /// Whether tracking has begun: every timeline has its first entry.
    pub open spec fn is_tracking(self) -> bool {
        &&& self.alpha.len() > 0
        &&& self.beta.len() > 0
        &&& self.gamma.len() > 0
        &&& self.alpha_rand.len() > 0
    }

    /// Whether the parameters of `sim` can be recorded at its tick.
    pub open spec fn can_track(self, sim: SimState) -> bool {
        &&& can_record(self.alpha, sim.iteration, sim.vapor_diffusion)
        &&& can_record(self.beta, sim.iteration, sim.background_vapor)
        &&& can_record(self.gamma, sim.iteration, sim.vapor_addition)
        &&& can_record(self.alpha_rand, sim.iteration, sim.vapor_diffusion_rand)
    }

    /// The history after the parameters of `sim` were recorded at its tick.
    pub open spec fn noted(self, sim: SimState) -> HistoryView {
        HistoryView {
            alpha: recorded(self.alpha, sim.iteration, sim.vapor_diffusion),
            beta: recorded(self.beta, sim.iteration, sim.background_vapor),
            gamma: recorded(self.gamma, sim.iteration, sim.vapor_addition),
            alpha_rand: recorded(self.alpha_rand, sim.iteration, sim.vapor_diffusion_rand),
            ..self
        }
    }

    /// The history right after tracking of `sim` began. The frozen cells are
    /// looked for only where the background vapour is below one.
    pub open spec fn started(sim: SimState) -> HistoryView {
        HistoryView {
            seed: sim.seed,
            size: (sim.width as usize, sim.height as usize),
            start_filled: if below_one(sim.background_vapor) {
                frozen_in_rows(sim, sim.height as int)
            } else {
                Seq::empty()
            },
            ..HistoryView::empty()
        }.noted(sim)
    }

    /// The state from which a playback starts: a fresh simulation with the
    /// parameters in force at tick zero and the recorded seed, in which the
    /// cells that were frozen at the start are frozen again.
    pub open spec fn playback_start(self) -> SimState {
        let fresh = SimState::fresh(
            self.size.0 as nat,
            self.size.1 as nat,
            value_in_force(self.alpha, 0),
            value_in_force(self.beta, 0),
            value_in_force(self.gamma, 0),
        );
        let seeded = (SimState {
            vapor_diffusion_rand: value_in_force(self.alpha_rand, 0),
            ..fresh
        }).reseeded(self.seed);
        seeds_set(seeded, self.start_filled, self.start_filled.len() as int)
    }

    /// The state with the recorded parameters in force at its tick.
    pub open spec fn restored(self, sim: SimState) -> SimState {
        SimState {
            vapor_diffusion: value_in_force(self.alpha, sim.iteration),
            background_vapor: value_in_force(self.beta, sim.iteration),
            vapor_addition: value_in_force(self.gamma, sim.iteration),
            vapor_diffusion_rand: value_in_force(self.alpha_rand, sim.iteration),
            ..sim
        }
    }

    /// The compressed stream of the history: its binary layout, compressed.
    pub open spec fn stream(self) -> Seq<u8> {
        deflated(
            record_bytes(
                self.alpha,
                self.beta,
                self.gamma,
                self.alpha_rand,
                self.seed,
                self.size,
                self.start_filled,
            ),
        )
    }

    /// The string that carries the history: its compressed stream as
    /// URL-safe text.
    pub open spec fn text(self) -> Seq<char> {
        url_text(self.stream())
    }

    /// The history of the fields that a layout holds.
    pub open spec fn of_fields(
        fields: (
            Seq<(usize, u64)>,
            Seq<(usize, u64)>,
            Seq<(usize, u64)>,
            Seq<(usize, u64)>,
            u64,
            (usize, usize),
            Seq<(usize, usize)>,
        ),
    ) -> HistoryView {
        HistoryView {
            alpha: fields.0,
            beta: fields.1,
            gamma: fields.2,
            alpha_rand: fields.3,
            seed: fields.4,
            size: fields.5,
            start_filled: fields.6,
        }
    }

    /// What a string is read as: the history it carries, or the stage at
    /// which reading it fails. A stream that unpacks but is followed by
    /// bytes that are no part of it fails as a stream.
    pub open spec fn parsed(text: Seq<char>) -> Result<HistoryView, HistoryError> {
        match text_bytes(text) {
            None => Err(HistoryError::Decode),
            Some(stream) => match inflated(stream) {
                None => Err(HistoryError::Decompress),
                Some((bytes, taken)) => if taken != stream.len() {
                    Err(HistoryError::Decompress)
                } else {
                    match bytes_record(bytes) {
                        None => Err(HistoryError::Schema),
                        Some(fields) => if HistoryView::of_fields(fields).wf() {
                            Ok(HistoryView::of_fields(fields))
                        } else {
                            Err(HistoryError::Schema)
                        },
                    }
                },
            },
        }
    }
}

/// Tracking the same tick of the same simulation a second time changes
/// nothing, where it can be tracked a second time at all.
pub proof fn lemma_tracking_twice(h: HistoryView, sim: SimState)
    requires
        sim.iteration <= usize::MAX,
        h.noted(sim).can_track(sim),
    ensures
        h.noted(sim).noted(sim) == h.noted(sim),
{
    lemma_recording_twice(h.alpha, sim.iteration, sim.vapor_diffusion);
    lemma_recording_twice(h.beta, sim.iteration, sim.background_vapor);
    lemma_recording_twice(h.gamma, sim.iteration, sim.vapor_addition);
    lemma_recording_twice(h.alpha_rand, sim.iteration, sim.vapor_diffusion_rand);
}

/// A playback starts at tick zero on the recorded lattice, with the recorded
/// seed and the parameters in force at tick zero, and with the spreads of
/// the background vapour and of the vapour addition at zero.
pub proof fn lemma_playback_start(h: HistoryView)
    requires
        h.wf(),
    ensures
        h.playback_start().wf(),
        h.playback_start().width == h.size.0,
        h.playback_start().height == h.size.1,
        h.playback_start().seed == h.seed,
        h.playback_start().cursor == 0,
        h.playback_start().iteration == 0,
        h.playback_start().vapor_diffusion == value_in_force(h.alpha, 0),
        h.playback_start().background_vapor == value_in_force(h.beta, 0),
        h.playback_start().vapor_addition == value_in_force(h.gamma, 0),
        h.playback_start().vapor_diffusion_rand == value_in_force(h.alpha_rand, 0),
        h.playback_start().background_vapor_rand == ZERO,
        h.playback_start().vapor_addition_rand == ZERO,
{
    let fresh = SimState::fresh(
        h.size.0 as nat,
        h.size.1 as nat,
        value_in_force(h.alpha, 0),
        value_in_force(h.beta, 0),
        value_in_force(h.gamma, 0),
    );
    let seeded = (SimState {
        vapor_diffusion_rand: value_in_force(h.alpha_rand, 0),
        ..fresh
    }).reseeded(h.seed);
    lemma_seeds_set(seeded, h.start_filled, h.start_filled.len() as int);
}

/// In the state from which a playback starts every recorded cell is frozen
/// at one and receptive.
pub proof fn lemma_playback_start_is_seeded(h: HistoryView, i: int)
    requires
        h.wf(),
        0 <= i < h.start_filled.len(),
    ensures
        h.playback_start().current[padded_index(
            h.size.0 as nat,
            h.start_filled[i].0 + 1,
            h.start_filled[i].1 + 1,
        )].receptive,
        h.playback_start().water_at(h.start_filled[i].0 as int, h.start_filled[i].1 as int)
            == ONE,
{
    let fresh = SimState::fresh(
        h.size.0 as nat,
        h.size.1 as nat,
        value_in_force(h.alpha, 0),
        value_in_force(h.beta, 0),
        value_in_force(h.gamma, 0),
    );
    let seeded = (SimState {
        vapor_diffusion_rand: value_in_force(h.alpha_rand, 0),
        ..fresh
    }).reseeded(h.seed);
    lemma_seed_stays(seeded, h.start_filled, h.start_filled.len() as int, i);
}

/// A cell that had water of one written to it holds it, and is receptive,
/// whatever cells had the same written to them afterwards.
proof fn lemma_seed_stays(sim: SimState, cells: Seq<(usize, usize)>, n: int, i: int)
    requires
        sim.wf(),
        0 <= i < n <= cells.len(),
        seeds_fit(sim, cells),
    ensures
        seeds_set(sim, cells, n).current[padded_index(
            sim.width,
            cells[i].0 + 1,
            cells[i].1 + 1,
        )].receptive,
        seeds_set(sim, cells, n).water_at(cells[i].0 as int, cells[i].1 as int) == ONE,
    decreases n,
{
    lemma_seeds_set(sim, cells, n - 1);
    let x = cells[n - 1].0 as int;
    let y = cells[n - 1].1 as int;
    let own = padded_index(sim.width, cells[i].0 + 1, cells[i].1 + 1);
    lemma_index_in_range(sim.width, sim.height, cells[i].0 + 1, cells[i].1 + 1);
    lemma_index_in_range(sim.width, sim.height, x + 1, y + 1);
    if i < n - 1 {
        lemma_seed_stays(sim, cells, n - 1, i);
        if padded_index(sim.width, x + 1, y + 1) == own {
            lemma_index_is_injective(
                sim.width,
                sim.height,
                x + 1,
                y + 1,
                cells[i].0 + 1,
                cells[i].1 + 1,
            );
        }
    }
}

/// Tracks the history of a snowflake simulation, plays it back, and keeps it
/// as a string.
#[derive(Debug)]
pub struct SimStateHistory {
    alpha_history: AttribHistory,
    beta_history: AttribHistory,
    gamma_history: AttribHistory,
    alpha_rand_history: AttribHistory,
    seed: u64,
    size: (usize, usize),
    start_filled: Vec<(usize, usize)>,
}

impl View for SimStateHistory {
    type V = HistoryView;

    closed spec fn view(&self) -> HistoryView {
        HistoryView {
            alpha: self.alpha_history@,
            beta: self.beta_history@,
            gamma: self.gamma_history@,
            alpha_rand: self.alpha_rand_history@,
            seed: self.seed,
            size: self.size,
            start_filled: self.start_filled@,
        }
    }
}

impl SimStateHistory {
    /// What the history holds is well formed.
    pub open spec fn wf(&self) -> bool {
        self@.wf()
    }

    /// A history that holds nothing yet.
    pub fn new() -> (r: SimStateHistory)
        ensures
            r.wf(),
            r@ == HistoryView::empty(),
    {
        assert(padded_len(0, 0) == 4) by (nonlinear_arith);
        SimStateHistory {
            alpha_history: AttribHistory::new(),
            beta_history: AttribHistory::new(),
            gamma_history: AttribHistory::new(),
            alpha_rand_history: AttribHistory::new(),
            seed: 0,
            size: (0, 0),
            start_filled: Vec::new(),
        }
    }

    /// The seed of the simulation that was tracked.
    pub fn seed(&self) -> (r: u64)
        ensures
            r == self@.seed,
    {
        self.seed
    }

    /// The width and the height of the domain that was tracked.
    pub fn size(&self) -> (r: (usize, usize))
        ensures
            r == self@.size,
    {
        self.size
    }

    /// The cells of the domain that were frozen when tracking began, row by
    /// row.
    pub fn start_filled(&self) -> (r: &Vec<(usize, usize)>)
        ensures
            r@ == self@.start_filled,
    {
        &self.start_filled
    }

    /// The timeline of the diffusion rate.
    pub fn alpha_history(&self) -> (r: &AttribHistory)
        ensures
            r@ == self@.alpha,
    {
        &self.alpha_history
    }

    /// The timeline of the background vapour.
    pub fn beta_history(&self) -> (r: &AttribHistory)
        ensures
            r@ == self@.beta,
    {
        &self.beta_history
    }

    /// The timeline of the vapour addition.
    pub fn gamma_history(&self) -> (r: &AttribHistory)
        ensures
            r@ == self@.gamma,
    {
        &self.gamma_history
    }

    /// The timeline of the spread of the diffusion rate.
    pub fn alpha_rand_history(&self) -> (r: &AttribHistory)
        ensures
            r@ == self@.alpha_rand,
    {
        &self.alpha_rand_history
    }

    /// Whether tracking has begun.
    pub fn is_tracking(&self) -> (r: bool)
        ensures
            r == self@.is_tracking(),
    {
        self.alpha_history.len() > 0 && self.beta_history.len() > 0 && self.gamma_history.len() > 0
            && self.alpha_rand_history.len() > 0
    }

    /// Whether the parameters of `sim` can be recorded at its tick: each
    /// parameter that changed does so after the last change recorded of it.
    pub fn can_track(&self, sim: &SnowflakeSim) -> (r: bool)
        ensures
            r == self@.can_track(sim@),
    {
        let i = sim.iteration_count();
        self.alpha_history.accepts(i, sim.vapor_diffusion()) && self.beta_history.accepts(
            i,
            sim.background_vapor(),
        ) && self.gamma_history.accepts(i, sim.vapor_addition())
            && self.alpha_rand_history.accepts(i, sim.vapor_diffusion_rand())
    }

    /// Tracks one tick of a simulation, whatever tick it is: each parameter
    /// that is another number than the last recorded of it gets an entry at
    /// the tick of the simulation, which must then come after the last
    /// entry. Nothing else changes, and a second call on the same simulation
    /// changes nothing.
    pub fn track_tick(&mut self, sim: &SnowflakeSim)
        requires
            old(self).wf(),
            old(self)@.can_track(sim@),
        ensures
            final(self).wf(),
            final(self)@ == old(self)@.noted(sim@),
            final(self)@.seed == old(self)@.seed,
            final(self)@.size == old(self)@.size,
            final(self)@.start_filled == old(self)@.start_filled,
            final(self)@.can_track(sim@) ==> final(self)@.noted(sim@) == final(self)@,
    {
        let i = sim.iteration_count();
        proof {
            if old(self)@.noted(sim@).can_track(sim@) {
                lemma_tracking_twice(old(self)@, sim@);
            }
        }
        self.alpha_history.add(i, sim.vapor_diffusion());
        self.beta_history.add(i, sim.background_vapor());
        self.gamma_history.add(i, sim.vapor_addition());
        self.alpha_rand_history.add(i, sim.vapor_diffusion_rand());
    }

    /// Whether nothing was recorded yet.
    pub fn is_blank(&self) -> (r: bool)
        ensures
            r == self@.is_blank(),
    {
        self.alpha_history.len() == 0 && self.beta_history.len() == 0 && self.gamma_history.len()
            == 0 && self.alpha_rand_history.len() == 0 && self.start_filled.len() == 0
    }

    /// Begins to track a simulation, at whatever tick it is: takes its size
    /// and its seed, looks for the cells that are frozen already, unless the
    /// background vapour is one or more, and tracks a first tick.
    pub fn init_tracking(&mut self, sim: &SnowflakeSim)
        requires
            old(self)@.is_blank(),
            sim.wf(),
        ensures
            final(self).wf(),
            final(self)@.is_tracking(),
            final(self)@ == HistoryView::started(sim@),
            final(self)@.size.0 == sim@.width,
            final(self)@.size.1 == sim@.height,
            final(self)@.seed == sim@.seed,
            final(self)@.alpha == seq![(sim@.iteration as usize, sim@.vapor_diffusion)],
            final(self)@.beta == seq![(sim@.iteration as usize, sim@.background_vapor)],
            final(self)@.gamma == seq![(sim@.iteration as usize, sim@.vapor_addition)],
            final(self)@.alpha_rand == seq![(sim@.iteration as usize, sim@.vapor_diffusion_rand)],
            !below_one(sim@.background_vapor) ==> final(self)@.start_filled.len() == 0,
            below_one(sim@.background_vapor) ==> final(self)@.start_filled == frozen_in_rows(
                sim@,
                sim@.height as int,
            ),
            is_row_major(final(self)@.start_filled),
            forall|c: (usize, usize)|
                below_one(sim@.background_vapor) ==> (#[trigger] final(self)@.start_filled.contains(
                    c,
                ) <==> c.0 < sim@.width && c.1 < sim@.height && at_least_one(
                    sim@.water_at(c.0 as int, c.1 as int),
                )),
    {
        proof {
            sim.lemma_state_is_well_formed();
            lemma_dimensions_fit(sim@.width, sim@.height);
            lemma_frozen_in_rows_are_in_order(sim@, sim@.height as int);
            assert forall|c: (usize, usize)|
                (#[trigger] frozen_in_rows(sim@, sim@.height as int).contains(c) <==> c.0
                    < sim@.width && c.1 < sim@.height && at_least_one(
                    sim@.water_at(c.0 as int, c.1 as int),
                )) by {
                lemma_frozen_in_rows_lists(sim@, sim@.height as int, c);
            }
            assert(old(self)@.alpha =~= Seq::empty());
            assert(old(self)@.beta =~= Seq::empty());
            assert(old(self)@.gamma =~= Seq::empty());
            assert(old(self)@.alpha_rand =~= Seq::empty());
            assert(old(self)@.start_filled =~= Seq::empty());
        }
        self.size = (sim.width(), sim.height());
        self.seed = sim.seed();
        if is_below_one(sim.background_vapor()) {
            self.start_filled = frozen_cells(sim);
        }
        self.track_tick(sim);
    }

    /// Begins a playback: makes the simulation that the history was tracked
    /// from as it was when tracking began.
    pub fn init_playback(&self) -> (r: SnowflakeSim)
        requires
            self.wf(),
            self@.is_tracking(),
        ensures
            r.wf(),
            r@ == self@.playback_start(),
            r@.width == self@.size.0,
            r@.height == self@.size.1,
            r@.seed == self@.seed,
            r@.cursor == 0,
            r@.iteration == 0,
            forall|i: int|
                0 <= i < self@.start_filled.len() ==> r@.water_at(
                    (#[trigger] self@.start_filled[i]).0 as int,
                    self@.start_filled[i].1 as int,
                ) == ONE,
    {
        proof {
            lemma_playback_start(self@);
            assert forall|i: int|
                0 <= i < self@.start_filled.len() implies self@.playback_start().water_at(
                (#[trigger] self@.start_filled[i]).0 as int,
                self@.start_filled[i].1 as int,
            ) == ONE by {
                lemma_playback_start_is_seeded(self@, i);
            }
        }
        let alpha = self.alpha_history.get(0);
        let beta = self.beta_history.get(0);
        let gamma = self.gamma_history.get(0);
        let mut sim = SnowflakeSim::new(self.size.0, self.size.1, alpha, beta, gamma);
        sim.set_vapor_diffusion_rand(self.alpha_rand_history.get(0));
        sim.set_random_seed(self.seed);
        let ghost seeded = sim@;
        let mut i: usize = 0;
        while i < self.start_filled.len()
            invariant
                i <= self.start_filled@.len(),
                self.wf(),
                sim.wf(),
                sim@.width == self.size.0,
                sim@.height == self.size.1,
                sim@ == seeds_set(seeded, self.start_filled@, i as int),
            decreases self.start_filled@.len() - i,
        {
            let cell = self.start_filled[i];
            let _ = sim.set_water(cell.0, cell.1, ONE);
            i = i + 1;
        }
        sim
    }

    /// Plays one tick back: gives the simulation the parameters that were in
    /// force at its tick.
    pub fn playback_tick(&self, sim: &mut SnowflakeSim)
        requires
            self@.is_tracking(),
            old(sim).wf(),
        ensures
            final(sim).wf(),
            final(sim)@ == self@.restored(old(sim)@),
    {
        let count = sim.iteration_count();
        sim.set_vapor_diffusion(self.alpha_history.get(count));
        sim.set_background_vapor(self.beta_history.get(count));
        sim.set_vapor_addition(self.gamma_history.get(count));
        sim.set_vapor_diffusion_rand(self.alpha_rand_history.get(count));
    }

    /// The history as a base64 string that can stand in a URL: every
    /// character of it is a letter, a digit, `-` or `_`.
    pub fn serialize_to_str(&self) -> (r: String)
        ensures
            r@ == self@.text(),
            r@.len() == text_len(self@.stream().len()),
            forall|i: int| 0 <= i < r@.len() ==> is_url_safe(#[trigger] r@[i]),
    {
        let serialized_bytes = encode_record(
            self.alpha_history.entries(),
            self.beta_history.entries(),
            self.gamma_history.entries(),
            self.alpha_rand_history.entries(),
            self.seed,
            self.size,
            &self.start_filled,
        );
        let compressed_bytes = compress(&serialized_bytes);
        to_text(&compressed_bytes)
    }

    /// The history of the fields that a layout held, or nothing where they
    /// are not those of a history.
    pub fn from_fields(
        alpha: Vec<(usize, u64)>,
        beta: Vec<(usize, u64)>,
        gamma: Vec<(usize, u64)>,
        alpha_rand: Vec<(usize, u64)>,
        seed: u64,
        size: (usize, usize),
        start_filled: Vec<(usize, usize)>,
    ) -> (r: Option<SimStateHistory>)
        ensures
            match r {
                Some(history) => history.wf() && history@ == HistoryView::of_fields(
                    (alpha@, beta@, gamma@, alpha_rand@, seed, size, start_filled@),
                ),
                None => !HistoryView::of_fields(
                    (alpha@, beta@, gamma@, alpha_rand@, seed, size, start_filled@),
                ).wf(),
            },
    {
        if !lattice_fits(size.0, size.1) || !all_in_domain(&start_filled, size) {
            return None;
        }
        let alpha_history = match AttribHistory::from_entries(alpha) {
            Some(history) => history,
            None => {
                return None;
            },
        };
        let beta_history = match AttribHistory::from_entries(beta) {
            Some(history) => history,
            None => {
                return None;
            },
        };
        let gamma_history = match AttribHistory::from_entries(gamma) {
            Some(history) => history,
            None => {
                return None;
            },
        };
        let alpha_rand_history = match AttribHistory::from_entries(alpha_rand) {
            Some(history) => history,
            None => {
                return None;
            },
        };
        Some(
            SimStateHistory {
                alpha_history,
                beta_history,
                gamma_history,
                alpha_rand_history,
                seed,
                size,
                start_filled,
            },
        )
    }

    /// Reads a history from a string that [`SimStateHistory::serialize_to_str`]
    /// made. Any other string is refused with the stage at which it fails:
    /// as text, as a compressed stream, or as the fields of a history. A
    /// string that carries the stream of a history cut short fails as a
    /// compressed stream.
    pub fn deserialize_from_str(string: String) -> (r: Result<SimStateHistory, HistoryError>)
        ensures
            match HistoryView::parsed(string@) {
                Ok(history) => r is Ok && r.unwrap()@ == history && r.unwrap().wf(),
                Err(error) => r == Err::<SimStateHistory, HistoryError>(error),
            },
            forall|history: HistoryView|
                history.wf() && string@ == #[trigger] history.text() ==> r is Ok && r.unwrap()@
                    == history,
            forall|history: HistoryView|
                text_bytes(string@) is Some && #[trigger] is_cut_short(
                    text_bytes(string@).unwrap(),
                    history.stream(),
                ) ==> r == Err::<SimStateHistory, HistoryError>(HistoryError::Decompress),
    {
        let compressed_bytes = match from_text(&string) {
            Ok(bytes) => bytes,
            Err(_) => {
                return Err(HistoryError::Decode);
            },
        };
        let serialized_bytes = match decompress(&compressed_bytes) {
            Ok(unpacked) => {
                if unpacked.1 != compressed_bytes.len() as u64 {
                    return Err(HistoryError::Decompress);
                }
                unpacked.0
            },
            Err(_) => {
                return Err(HistoryError::Decompress);
            },
        };
        let fields = match decode_record(&serialized_bytes) {
            Ok(fields) => fields,
            Err(_) => {
                return Err(HistoryError::Schema);
            },
        };
        match SimStateHistory::from_fields(
            fields.0,
            fields.1,
            fields.2,
            fields.3,
            fields.4,
            fields.5,
            fields.6,
        ) {
            Some(history) => Ok(history),
            None => Err(HistoryError::Schema),
        }
    }
}

/// The cells of the domain of a simulation that are frozen, row by row.
pub fn frozen_cells(sim: &SnowflakeSim) -> (r: Vec<(usize, usize)>)
    requires
        sim.wf(),
    ensures
        r@ == frozen_in_rows(sim@, sim@.height as int),
        lie_in_domain(r@, (sim@.width as usize, sim@.height as usize)),
        is_row_major(r@),
        forall|c: (usize, usize)|
            #[trigger] r@.contains(c) <==> c.0 < sim@.width && c.1 < sim@.height && at_least_one(
                sim@.water_at(c.0 as int, c.1 as int),
            ),
{
    proof {
        sim.lemma_state_is_well_formed();
        lemma_dimensions_fit(sim@.width, sim@.height);
        lemma_frozen_in_rows_are_in_order(sim@, sim@.height as int);
        assert forall|c: (usize, usize)|
            (#[trigger] frozen_in_rows(sim@, sim@.height as int).contains(c) <==> c.0 < sim@.width
                && c.1 < sim@.height && at_least_one(sim@.water_at(c.0 as int, c.1 as int))) by {
            lemma_frozen_in_rows_lists(sim@, sim@.height as int, c);
        }
    }
    let width = sim.width();
    let height = sim.height();
    let mut found: Vec<(usize, usize)> = Vec::new();
    let mut y: usize = 0;
    while y < height
        invariant
            y <= height,
            sim.wf(),
            width == sim@.width,
            height == sim@.height,
            found@ == frozen_in_rows(sim@, y as int),
            lie_in_domain(found@, (width, height)),
        decreases height - y,
    {
        let ghost above = found@;
        let mut x: usize = 0;
        while x < width
            invariant
                x <= width,
                y < height,
                sim.wf(),
                width == sim@.width,
                height == sim@.height,
                found@ == above + frozen_in_row(sim@, y as int, x as int),
                lie_in_domain(found@, (width, height)),
            decreases width - x,
        {
            match sim.get_water(x, y) {
                Ok(water) => {
                    if is_at_least_one(water) {
                        found.push((x, y));
                    }
                },
                Err(_) => {},
            }
            x = x + 1;
        }
        y = y + 1;
    }
    found
}

/// Whether every one of the cells lies in a domain of the given size.
pub fn all_in_domain(cells: &Vec<(usize, usize)>, size: (usize, usize)) -> (r: bool)
    ensures
        r == lie_in_domain(cells@, size),
{
    let mut i: usize = 0;
    while i < cells.len()
        invariant
            i <= cells@.len(),
            lie_in_domain(cells@.take(i as int), size),
        decreases cells@.len() - i,
    {
        let cell = cells[i];
        if !(cell.0 < size.0 && cell.1 < size.1) {
            return false;
        }
        i = i + 1;
    }
    assert(cells@.take(cells@.len() as int) == cells@);
    true
}

} // verus!
