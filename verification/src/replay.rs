//! Runs of the engine as values: a run is a function of where it starts and
//! of the edits made to the parameters on the way, and of nothing else.

use crate::growth::lemma_step_keeps_receptive;
use crate::lattice::{fits_in_memory, lemma_dimensions_fit};
use crate::model::SimState;
use crate::number::below_one;
use crate::seeding::lemma_seeding_again;
use crate::sim_history::{lemma_seeds_set, seeds_fit, seeds_set, HistoryView};
use crate::timeline::{is_steady, lemma_timeline_gives_back, timeline_of};
use vstd::prelude::*;

verus! {

/// The six parameters of a simulation.
pub struct Settings {
    /// The rate at which vapour diffuses.
    pub vapor_diffusion: u64,
    /// The vapour fed in at the ring.
    pub background_vapor: u64,
    /// The vapour that a receptive cell gains with each step.
    pub vapor_addition: u64,
    /// The spread of the diffusion rate.
    pub vapor_diffusion_rand: u64,
    /// The spread of the background vapour.
    pub background_vapor_rand: u64,
    /// The spread of the vapour addition.
    pub vapor_addition_rand: u64,
}

/// The state with the given parameters put in force.
pub open spec fn with_settings(s: SimState, p: Settings) -> SimState {
    SimState {
        vapor_diffusion: p.vapor_diffusion,
        background_vapor: p.background_vapor,
        vapor_addition: p.vapor_addition,
        vapor_diffusion_rand: p.vapor_diffusion_rand,
        background_vapor_rand: p.background_vapor_rand,
        vapor_addition_rand: p.vapor_addition_rand,
        ..s
    }
}

/// The state after `n` steps from `s`, where the parameters are edited on
/// the way: after the step that ends a tick for which `edits` has an entry,
/// that entry is put in force.
pub open spec fn run(s: SimState, edits: Map<nat, Settings>, n: nat) -> SimState
    decreases n,
{
    if n == 0 {
        s
    } else {
        let stepped = run(s, edits, (n - 1) as nat).stepped();
        if edits.dom().contains(stepped.iteration) {
            with_settings(stepped, edits[stepped.iteration])
        } else {
            stepped
        }
    }
}

/// A run stays well formed and counts its steps.
pub proof fn lemma_run_is_well_formed(s: SimState, edits: Map<nat, Settings>, n: nat)
    requires
        s.wf(),
    ensures
        run(s, edits, n).wf(),
        run(s, edits, n).iteration == s.iteration + n,
        run(s, edits, n).width == s.width,
        run(s, edits, n).height == s.height,
        run(s, edits, n).seed == s.seed,
    decreases n,
{
    if n > 0 {
        lemma_run_is_well_formed(s, edits, (n - 1) as nat);
        lemma_step_keeps_receptive(run(s, edits, (n - 1) as nat));
    }
}

/// Two simulations that were made alike, seeded alike and driven through the
/// same edits hold the same water in every cell after every tick: a run
/// depends on nothing but the size, the parameters, the seed and the edits.
pub proof fn lemma_runs_agree(
    a: SimState,
    b: SimState,
    width: nat,
    height: nat,
    alpha: u64,
    beta: u64,
    gamma: u64,
    seed: u64,
    edits: Map<nat, Settings>,
    n: nat,
)
    requires
        a == SimState::fresh(width, height, alpha, beta, gamma).reseeded(seed),
        b == SimState::fresh(width, height, alpha, beta, gamma).reseeded(seed),
    ensures
        run(a, edits, n).current == run(b, edits, n).current,
        forall|x: int, y: int|
            0 <= x < width && 0 <= y < height ==> run(a, edits, n).water_at(x, y) == run(
                b,
                edits,
                n,
            ).water_at(x, y),
{
}

/// The diffusion rate at each tick of a run.
pub open spec fn diffusion_along(s: SimState, edits: Map<nat, Settings>) -> spec_fn(nat) -> u64 {
    |m: nat| run(s, edits, m).vapor_diffusion
}

/// The background vapour at each tick of a run.
pub open spec fn background_along(s: SimState, edits: Map<nat, Settings>) -> spec_fn(nat) -> u64 {
    |m: nat| run(s, edits, m).background_vapor
}

/// The vapour addition at each tick of a run.
pub open spec fn addition_along(s: SimState, edits: Map<nat, Settings>) -> spec_fn(nat) -> u64 {
    |m: nat| run(s, edits, m).vapor_addition
}

/// The spread of the diffusion rate at each tick of a run.
pub open spec fn spread_along(s: SimState, edits: Map<nat, Settings>) -> spec_fn(nat) -> u64 {
    |m: nat| run(s, edits, m).vapor_diffusion_rand
}

/// The history of a run of `n` steps from `s` of which every tick was
/// tracked, the first when tracking began.
pub open spec fn history_of_run(s: SimState, edits: Map<nat, Settings>, n: nat) -> HistoryView
    decreases n,
{
    if n == 0 {
        HistoryView::started(s)
    } else {
        history_of_run(s, edits, (n - 1) as nat).noted(run(s, edits, n))
    }
}

/// The state of a playback of `h` after `k` ticks: each tick a step, then
/// the recorded parameters put in force.
pub open spec fn playback(h: HistoryView, k: nat) -> SimState
    decreases k,
{
    if k == 0 {
        h.playback_start()
    } else {
        h.restored(playback(h, (k - 1) as nat).stepped())
    }
}

/// Whether the edits leave the two spreads alone that no history holds.
pub open spec fn edits_can_be_tracked(s: SimState, edits: Map<nat, Settings>) -> bool {
    forall|t: nat| #[trigger]
        edits.dom().contains(t) ==> edits[t].background_vapor_rand == s.background_vapor_rand
            && edits[t].vapor_addition_rand == s.vapor_addition_rand
}

/// Whether none of the four tracked parameters goes from one zero to the
/// other in the first `n` ticks of a run.
pub open spec fn run_is_steady(s: SimState, edits: Map<nat, Settings>, n: nat) -> bool {
    &&& is_steady(diffusion_along(s, edits), n)
    &&& is_steady(background_along(s, edits), n)
    &&& is_steady(addition_along(s, edits), n)
    &&& is_steady(spread_along(s, edits), n)
}

/// The history of a run holds what tracking began with and, of each tracked
/// parameter, the timeline of its values along the run.
pub proof fn lemma_history_of_run(s: SimState, edits: Map<nat, Settings>, n: nat)
    requires
        s.wf(),
    ensures
        history_of_run(s, edits, n).alpha == timeline_of(diffusion_along(s, edits), s.iteration, n),
        history_of_run(s, edits, n).beta == timeline_of(background_along(s, edits), s.iteration, n),
        history_of_run(s, edits, n).gamma == timeline_of(addition_along(s, edits), s.iteration, n),
        history_of_run(s, edits, n).alpha_rand == timeline_of(
            spread_along(s, edits),
            s.iteration,
            n,
        ),
        history_of_run(s, edits, n).seed == HistoryView::started(s).seed,
        history_of_run(s, edits, n).size == HistoryView::started(s).size,
        history_of_run(s, edits, n).start_filled == HistoryView::started(s).start_filled,
    decreases n,
{
    lemma_run_is_well_formed(s, edits, n);
    if n > 0 {
        lemma_history_of_run(s, edits, (n - 1) as nat);
    }
}

/// Edits that can be tracked keep the two spreads that no history holds as
/// they were at the start.
pub proof fn lemma_run_keeps_untracked(s: SimState, edits: Map<nat, Settings>, n: nat)
    requires
        s.wf(),
        edits_can_be_tracked(s, edits),
    ensures
        run(s, edits, n).background_vapor_rand == s.background_vapor_rand,
        run(s, edits, n).vapor_addition_rand == s.vapor_addition_rand,
    decreases n,
{
    if n > 0 {
        lemma_run_keeps_untracked(s, edits, (n - 1) as nat);
        lemma_run_is_well_formed(s, edits, (n - 1) as nat);
        let before = run(s, edits, (n - 1) as nat);
        lemma_step_keeps_receptive(before);
        let tick = before.stepped().iteration;
        assert(edits.dom().contains(tick) ==> edits[tick].background_vapor_rand
            == s.background_vapor_rand);
    }
}

/// A playback follows the run it was tracked from. Where a run began at
/// tick zero in a state that its history rebuilds, every one of its ticks
/// was tracked, and its edits touched the four tracked parameters only,
/// never taking one from one zero to the other, the playback of its history
/// is, after every tick, in the very state that the run was in: the same
/// water in every cell, the same flags, the same place in the source.
pub proof fn lemma_playback_follows_run(s: SimState, edits: Map<nat, Settings>, n: nat, k: nat)
    requires
        s.wf(),
        s.iteration == 0,
        HistoryView::started(s).playback_start() == s,
        n <= usize::MAX,
        edits_can_be_tracked(s, edits),
        run_is_steady(s, edits, n),
        k <= n,
    ensures
        playback(history_of_run(s, edits, n), k) == run(s, edits, k),
    decreases k,
{
    lemma_history_of_run(s, edits, n);
    lemma_timeline_gives_back(diffusion_along(s, edits), 0, n, k);
    lemma_timeline_gives_back(background_along(s, edits), 0, n, k);
    lemma_timeline_gives_back(addition_along(s, edits), 0, n, k);
    lemma_timeline_gives_back(spread_along(s, edits), 0, n, k);
    if k == 0 {
        lemma_history_of_run(s, edits, 0);
        lemma_timeline_gives_back(diffusion_along(s, edits), 0, 0, 0);
        lemma_timeline_gives_back(background_along(s, edits), 0, 0, 0);
        lemma_timeline_gives_back(addition_along(s, edits), 0, 0, 0);
        lemma_timeline_gives_back(spread_along(s, edits), 0, 0, 0);
    } else {
        lemma_playback_follows_run(s, edits, n, (k - 1) as nat);
        let before = run(s, edits, (k - 1) as nat);
        lemma_run_is_well_formed(s, edits, (k - 1) as nat);
        lemma_run_keeps_untracked(s, edits, (k - 1) as nat);
        lemma_step_keeps_receptive(before);
        assert(edits.dom().contains(k) ==> edits[k].background_vapor_rand
            == s.background_vapor_rand && edits[k].vapor_addition_rand == s.vapor_addition_rand);
    }
}

/// The state of a simulation that was made, given a spread of its diffusion
/// rate and seeded, and has not been stepped.
pub open spec fn made(
    width: nat,
    height: nat,
    alpha: u64,
    beta: u64,
    gamma: u64,
    spread: u64,
    seed: u64,
) -> SimState {
    (SimState {
        vapor_diffusion_rand: spread,
        ..SimState::fresh(width, height, alpha, beta, gamma)
    }).reseeded(seed)
}

/// The history of a simulation that was made and in which cells were frozen
/// at one rebuilds it, in whatever order the cells were frozen. Where cells
/// were frozen the background vapour must be below one, for else the
/// history does not look for them.
pub proof fn lemma_seeded_is_rebuilt(
    width: nat,
    height: nat,
    alpha: u64,
    beta: u64,
    gamma: u64,
    spread: u64,
    seed: u64,
    seeds: Seq<(usize, usize)>,
)
    requires
        fits_in_memory(width, height),
        below_one(beta) || seeds.len() == 0,
        seeds_fit(made(width, height, alpha, beta, gamma, spread, seed), seeds),
    ensures
        seeds_set(
            made(width, height, alpha, beta, gamma, spread, seed),
            seeds,
            seeds.len() as int,
        ).wf(),
        seeds_set(
            made(width, height, alpha, beta, gamma, spread, seed),
            seeds,
            seeds.len() as int,
        ).iteration == 0,
        HistoryView::started(
            seeds_set(
                made(width, height, alpha, beta, gamma, spread, seed),
                seeds,
                seeds.len() as int,
            ),
        ).playback_start() == seeds_set(
            made(width, height, alpha, beta, gamma, spread, seed),
            seeds,
            seeds.len() as int,
        ),
{
    let base = made(width, height, alpha, beta, gamma, spread, seed);
    let s = seeds_set(base, seeds, seeds.len() as int);
    lemma_dimensions_fit(width, height);
    lemma_seeds_set(base, seeds, seeds.len() as int);
    if below_one(beta) {
        lemma_seeding_again(base, seeds);
    }
}

/// The replay of a seeded crystal: a simulation is made on a background
/// below one and cells of it are frozen at one; it runs for `n` ticks while
/// its diffusion rate, the spread of that rate, its background vapour and
/// its vapour addition are edited at will, none of them from one zero to the
/// other, and every tick is tracked. Then the playback of its history is
/// after each tick in the state that the run was in: the same water in
/// every cell, bit for bit.
pub proof fn lemma_seeded_run_is_replayed(
    width: nat,
    height: nat,
    alpha: u64,
    beta: u64,
    gamma: u64,
    spread: u64,
    seed: u64,
    seeds: Seq<(usize, usize)>,
    edits: Map<nat, Settings>,
    n: nat,
    k: nat,
)
    requires
        fits_in_memory(width, height),
        below_one(beta) || seeds.len() == 0,
        seeds_fit(made(width, height, alpha, beta, gamma, spread, seed), seeds),
        n <= usize::MAX,
        k <= n,
        edits_can_be_tracked(
            seeds_set(
                made(width, height, alpha, beta, gamma, spread, seed),
                seeds,
                seeds.len() as int,
            ),
            edits,
        ),
        run_is_steady(
            seeds_set(
                made(width, height, alpha, beta, gamma, spread, seed),
                seeds,
                seeds.len() as int,
            ),
            edits,
            n,
        ),
    ensures
        playback(
            history_of_run(
                seeds_set(
                    made(width, height, alpha, beta, gamma, spread, seed),
                    seeds,
                    seeds.len() as int,
                ),
                edits,
                n,
            ),
            k,
        ) == run(
            seeds_set(
                made(width, height, alpha, beta, gamma, spread, seed),
                seeds,
                seeds.len() as int,
            ),
            edits,
            k,
        ),
{
    lemma_seeded_is_rebuilt(width, height, alpha, beta, gamma, spread, seed, seeds);
    lemma_playback_follows_run(
        seeds_set(made(width, height, alpha, beta, gamma, spread, seed), seeds, seeds.len() as int),
        edits,
        n,
        k,
    );
}

} // verus!
