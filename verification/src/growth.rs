//! What every operation of the engine keeps: the shape of the lattice, the
//! settings it does not touch, and above all each flag that was once set.

use crate::hex::neighbour;
use crate::lattice::{
    in_domain, lemma_index_in_range, lemma_neighbour_is_touched, on_lattice, padded_index, Cell,
};
use crate::model::SimState;
use crate::number::at_least_one;
use vstd::prelude::*;

verus! {

/// Whether every cell that is receptive before is receptive after.
pub open spec fn keeps_receptive(before: Seq<Cell>, after: Seq<Cell>) -> bool {
    &&& before.len() == after.len()
    &&& forall|i: int|
        0 <= i < before.len() && (#[trigger] before[i]).receptive ==> after[i].receptive
}

/// Whether two states are on the same lattice with the same seed and the
/// same parameters.
pub open spec fn same_settings(a: SimState, b: SimState) -> bool {
    &&& a.width == b.width
    &&& a.height == b.height
    &&& a.seed == b.seed
    &&& a.vapor_diffusion == b.vapor_diffusion
    &&& a.background_vapor == b.background_vapor
    &&& a.vapor_addition == b.vapor_addition
    &&& a.vapor_diffusion_rand == b.vapor_diffusion_rand
    &&& a.background_vapor_rand == b.background_vapor_rand
    &&& a.vapor_addition_rand == b.vapor_addition_rand
}

/// Whether `after` is a well-formed state with the settings and the count
/// of steps of `before` in which every cell of either buffer that was
/// receptive still is.
pub open spec fn grows_from(after: SimState, before: SimState) -> bool {
    &&& after.wf()
    &&& same_settings(before, after)
    &&& before.iteration == after.iteration
    &&& keeps_receptive(before.current, after.current)
    &&& keeps_receptive(before.next, after.next)
}

/// Growing goes on: what grew from a state that grew from another grew from
/// that one.
pub proof fn lemma_grows_on(a: SimState, b: SimState, c: SimState)
    requires
        grows_from(b, a),
        grows_from(c, b),
    ensures
        grows_from(c, a),
{
}

/// Writing water to a cell of the domain takes no flag away.
pub proof fn lemma_water_keeps_receptive(s: SimState, x: int, y: int, val: u64)
    requires
        s.wf(),
        0 <= x < s.width,
        0 <= y < s.height,
    ensures
        grows_from(s.with_water(x, y, val), s),
{
    lemma_index_in_range(s.width, s.height, x + 1, y + 1);
}

/// Whether the cell at `(x, y)` of the domain and each of its six
/// neighbours that lies in the domain is receptive, in both buffers.
pub open spec fn is_seeded_at(s: SimState, x: int, y: int) -> bool {
    &&& s.current[padded_index(s.width, x + 1, y + 1)].receptive
    &&& s.next[padded_index(s.width, x + 1, y + 1)].receptive
    &&& forall|k: int|
        0 <= k < 6 && in_domain(
            s.width,
            s.height,
            (#[trigger] neighbour(x + 1, y + 1, k)).0,
            neighbour(x + 1, y + 1, k).1,
        ) ==> s.current[padded_index(
            s.width,
            neighbour(x + 1, y + 1, k).0,
            neighbour(x + 1, y + 1, k).1,
        )].receptive && s.next[padded_index(
            s.width,
            neighbour(x + 1, y + 1, k).0,
            neighbour(x + 1, y + 1, k).1,
        )].receptive
}

/// Writing water of at least one to a cell of the domain makes it and its
/// neighbours in the domain receptive in both buffers.
pub proof fn lemma_water_seeds(s: SimState, x: int, y: int, val: u64)
    requires
        s.wf(),
        0 <= x < s.width,
        0 <= y < s.height,
        at_least_one(val),
    ensures
        is_seeded_at(s.with_water(x, y, val), x, y),
{
    let seeded = s.with_water(x, y, val);
    lemma_index_in_range(s.width, s.height, x + 1, y + 1);
    assert forall|k: int|
        0 <= k < 6 && in_domain(
            s.width,
            s.height,
            (#[trigger] neighbour(x + 1, y + 1, k)).0,
            neighbour(x + 1, y + 1, k).1,
        ) implies seeded.current[padded_index(
        s.width,
        neighbour(x + 1, y + 1, k).0,
        neighbour(x + 1, y + 1, k).1,
    )].receptive && seeded.next[padded_index(
        s.width,
        neighbour(x + 1, y + 1, k).0,
        neighbour(x + 1, y + 1, k).1,
    )].receptive by {
        let n = neighbour(x + 1, y + 1, k);
        lemma_neighbour_is_touched(s.width, s.height, x + 1, y + 1, k);
        lemma_index_in_range(s.width, s.height, n.0, n.1);
    }
}

/// Stepping one cell takes no flag away.
pub proof fn lemma_cell_keeps_receptive(s: SimState, px: int, py: int)
    requires
        s.wf(),
        in_domain(s.width, s.height, px, py),
    ensures
        grows_from(s.cell_stepped(px, py), s),
{
    lemma_index_in_range(s.width, s.height, px, py);
}

/// Stepping the cells of a row takes no flag away.
pub proof fn lemma_row_keeps_receptive(s: SimState, py: int, n: int)
    requires
        s.wf(),
        1 <= py <= s.height,
        0 <= n <= s.width,
    ensures
        grows_from(s.row_stepped(py, n), s),
    decreases n,
{
    if n > 0 {
        lemma_row_keeps_receptive(s, py, n - 1);
        let before = s.row_stepped(py, n - 1);
        lemma_cell_keeps_receptive(before, n, py);
        lemma_grows_on(s, before, before.cell_stepped(n, py));
    }
}

/// Stepping the rows of the domain takes no flag away.
pub proof fn lemma_rows_keep_receptive(s: SimState, m: int)
    requires
        s.wf(),
        0 <= m <= s.height,
    ensures
        grows_from(s.rows_stepped(m), s),
    decreases m,
{
    if m > 0 {
        lemma_rows_keep_receptive(s, m - 1);
        let before = s.rows_stepped(m - 1);
        lemma_row_keeps_receptive(before, m, s.width as int);
        lemma_grows_on(s, before, before.row_stepped(m, s.width as int));
    }
}

/// Feeding a cell of the lattice takes no flag away.
pub proof fn lemma_feed_keeps_receptive(s: SimState, px: int, py: int)
    requires
        s.wf(),
        on_lattice(s.width, s.height, px, py),
    ensures
        grows_from(s.ring_fed(px, py), s),
{
    lemma_index_in_range(s.width, s.height, px, py);
}

/// Feeding the side columns of the ring takes no flag away.
pub proof fn lemma_sides_keep_receptive(s: SimState, m: int)
    requires
        s.wf(),
        0 <= m <= s.height + 2,
    ensures
        grows_from(s.sides_fed(m), s),
    decreases m,
{
    if m > 0 {
        lemma_sides_keep_receptive(s, m - 1);
        let a = s.sides_fed(m - 1);
        lemma_feed_keeps_receptive(a, 0, m - 1);
        let b = a.ring_fed(0, m - 1);
        lemma_feed_keeps_receptive(b, s.width as int + 1, m - 1);
        lemma_grows_on(s, a, b);
        lemma_grows_on(s, b, b.ring_fed(s.width as int + 1, m - 1));
    }
}

/// Feeding the top and bottom rows of the ring takes no flag away.
pub proof fn lemma_ends_keep_receptive(s: SimState, n: int)
    requires
        s.wf(),
        0 <= n <= s.width,
    ensures
        grows_from(s.ends_fed(n), s),
    decreases n,
{
    if n > 0 {
        lemma_ends_keep_receptive(s, n - 1);
        let a = s.ends_fed(n - 1);
        lemma_feed_keeps_receptive(a, n, 0);
        let b = a.ring_fed(n, 0);
        lemma_feed_keeps_receptive(b, n, s.height as int + 1);
        lemma_grows_on(s, a, b);
        lemma_grows_on(s, b, b.ring_fed(n, s.height as int + 1));
    }
}

/// A step takes no flag away. The step exchanges the buffers, so the cells
/// that were read are the cells that are written afterwards, and the other
/// way round: a cell that was receptive in the one is receptive in the other.
pub proof fn lemma_step_keeps_receptive(s: SimState)
    requires
        s.wf(),
    ensures
        s.stepped().wf(),
        s.stepped().iteration == s.iteration + 1,
        same_settings(s, s.stepped()),
        keeps_receptive(s.current, s.stepped().next),
        keeps_receptive(s.next, s.stepped().current),
{
    lemma_rows_keep_receptive(s, s.height as int);
    let mid = s.rows_stepped(s.height as int);
    lemma_sides_keep_receptive(mid, mid.height as int + 2);
    let sides = mid.sides_fed(mid.height as int + 2);
    lemma_ends_keep_receptive(sides, sides.width as int);
    let fed = sides.ends_fed(sides.width as int);
    lemma_grows_on(s, mid, sides);
    lemma_grows_on(s, sides, fed);
}

/// Over two steps each buffer is itself again: a cell that is receptive in
/// the cells that are read still is two steps later.
pub proof fn lemma_two_steps_keep_receptive(s: SimState)
    requires
        s.wf(),
    ensures
        keeps_receptive(s.current, s.stepped().stepped().current),
        keeps_receptive(s.next, s.stepped().stepped().next),
{
    lemma_step_keeps_receptive(s);
    lemma_step_keeps_receptive(s.stepped());
}

/// A crystal seed spreads: after water of at least one was written to a
/// cell of the domain and one step was made, that cell and each of its six
/// neighbours that lies in the domain is receptive in the cells that are
/// read, whatever water they hold.
pub proof fn lemma_seed_spreads(s: SimState, x: int, y: int, val: u64, k: int)
    requires
        s.wf(),
        0 <= x < s.width,
        0 <= y < s.height,
        at_least_one(val),
        0 <= k < 6,
    ensures
        s.with_water(x, y, val).stepped().current[padded_index(
            s.width,
            x + 1,
            y + 1,
        )].receptive,
        in_domain(s.width, s.height, neighbour(x + 1, y + 1, k).0, neighbour(x + 1, y + 1, k).1)
            ==> s.with_water(x, y, val).stepped().current[padded_index(
            s.width,
            neighbour(x + 1, y + 1, k).0,
            neighbour(x + 1, y + 1, k).1,
        )].receptive,
{
    let seeded = s.with_water(x, y, val);
    lemma_water_keeps_receptive(s, x, y, val);
    lemma_step_keeps_receptive(seeded);
    lemma_index_in_range(s.width, s.height, x + 1, y + 1);
    let own = padded_index(s.width, x + 1, y + 1);
    assert(seeded.next[own].receptive);
    let n = neighbour(x + 1, y + 1, k);
    if in_domain(s.width, s.height, n.0, n.1) {
        lemma_neighbour_is_touched(s.width, s.height, x + 1, y + 1, k);
        lemma_index_in_range(s.width, s.height, n.0, n.1);
        let i = padded_index(s.width, n.0, n.1);
        assert(seeded.next[i].receptive);
    }
}

} // verus!
