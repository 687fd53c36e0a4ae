//! What the ring holds after a step: each of its cells one draw of the
//! background vapour, whatever the domain holds.

use crate::growth::{
    grows_from, lemma_ends_keep_receptive, lemma_feed_keeps_receptive, lemma_rows_keep_receptive,
    lemma_sides_keep_receptive,
};
use crate::growth::lemma_row_keeps_receptive;
use crate::lattice::{
    in_domain, lemma_index_in_range, lemma_index_is_injective, lemma_touched_is_in_domain,
    on_lattice, on_ring, padded_index, touches,
};
use crate::model::{drawn, SimState};
use crate::number::is_positive;
use crate::random::{next_cursor, unit_at};
use vstd::prelude::*;

verus! {

/// The position on the ring of the source after `k` draws from `cursor`.
pub open spec fn advanced(cursor: nat, k: nat) -> nat
    decreases k,
{
    if k == 0 {
        cursor
    } else {
        next_cursor(advanced(cursor, (k - 1) as nat))
    }
}

/// The place of the ring cell at padded `(px, py)` in the order in which the
/// ring is fed: the side columns row by row, left before right, then the
/// top and bottom rows column by column, top before bottom.
pub open spec fn feed_order(width: nat, height: nat, px: int, py: int) -> nat {
    if px == 0 {
        (2 * py) as nat
    } else if px == width + 1 {
        (2 * py + 1) as nat
    } else if py == 0 {
        (2 * (height + 2) + 2 * (px - 1)) as nat
    } else {
        (2 * (height + 2) + 2 * (px - 1) + 1) as nat
    }
}

/// The water that the `k`-th draw of a feed gives, where the feed begins in
/// the state `start`.
pub open spec fn fed_water(start: SimState, k: nat) -> u64 {
    drawn(
        start.background_vapor,
        start.background_vapor_rand,
        unit_at(start.seed, advanced(start.cursor, k)),
    )
}

/// The water that the ring cell at padded `(px, py)` holds right after a
/// step from `s`: the draw of the background vapour that its place in the
/// feed gives, counted from where the source stands when the domain is
/// done. Where the spread of the background vapour is not above zero, that
/// is the background vapour itself.
pub open spec fn ring_water(s: SimState, px: int, py: int) -> u64 {
    drawn(
        s.background_vapor,
        s.background_vapor_rand,
        unit_at(
            s.seed,
            advanced(s.rows_stepped(s.height as int).cursor, feed_order(s.width, s.height, px, py)),
        ),
    )
}

/// The cursor after `k` draws of the background vapour from the state
/// `start`: it moves only where the spread is above zero.
pub open spec fn fed_cursor(start: SimState, k: nat) -> nat {
    if is_positive(start.background_vapor_rand) {
        advanced(start.cursor, k)
    } else {
        start.cursor
    }
}

/// Whether `px` is one of the two side columns.
pub open spec fn is_side(width: nat, px: int) -> bool {
    px == 0 || px == width + 1
}

/// Whether `py` is the top or the bottom row.
pub open spec fn is_end(height: nat, py: int) -> bool {
    py == 0 || py == height + 1
}

/// Draws add up.
pub proof fn lemma_advanced_adds(cursor: nat, a: nat, b: nat)
    ensures
        advanced(advanced(cursor, a), b) == advanced(cursor, a + b),
    decreases b,
{
    if b > 0 {
        lemma_advanced_adds(cursor, a, (b - 1) as nat);
    }
}

/// Feeding one cell changes that cell of `next` and no other.
proof fn lemma_feed_one(s: SimState, px: int, py: int, qx: int, qy: int)
    requires
        s.wf(),
        on_lattice(s.width, s.height, px, py),
        on_lattice(s.width, s.height, qx, qy),
    ensures
        (qx, qy) != (px, py) ==> s.ring_fed(px, py).next[padded_index(s.width, qx, qy)]
            == s.next[padded_index(s.width, qx, qy)],
        s.ring_fed(px, py).next[padded_index(s.width, px, py)].water == s.draw_value(
            s.background_vapor,
            s.background_vapor_rand,
        ),
{
    lemma_index_in_range(s.width, s.height, px, py);
    lemma_index_in_range(s.width, s.height, qx, qy);
    if (qx, qy) != (px, py) {
        if padded_index(s.width, qx, qy) == padded_index(s.width, px, py) {
            lemma_index_is_injective(s.width, s.height, px, py, qx, qy);
        }
    }
}

/// After the first `m` rows of the side columns were fed, each of their
/// cells holds the draw of its place, and every other cell of `next` is as
/// it was.
pub proof fn lemma_sides_fed(s: SimState, m: int, qx: int, qy: int)
    requires
        s.wf(),
        0 <= m <= s.height + 2,
        on_lattice(s.width, s.height, qx, qy),
    ensures
        grows_from(s.sides_fed(m), s),
        s.sides_fed(m).cursor == fed_cursor(s, (2 * m) as nat),
        is_side(s.width, qx) && qy < m ==> s.sides_fed(m).next[padded_index(
            s.width,
            qx,
            qy,
        )].water == fed_water(s, feed_order(s.width, s.height, qx, qy)),
        !(is_side(s.width, qx) && qy < m) ==> s.sides_fed(m).next[padded_index(s.width, qx, qy)]
            == s.next[padded_index(s.width, qx, qy)],
    decreases m,
{
    lemma_sides_keep_receptive(s, m);
    if m > 0 {
        lemma_sides_fed(s, m - 1, qx, qy);
        lemma_sides_keep_receptive(s, m - 1);
        let a = s.sides_fed(m - 1);
        let b = a.ring_fed(0, m - 1);
        lemma_feed_keeps_receptive(a, 0, m - 1);
        lemma_feed_one(a, 0, m - 1, qx, qy);
        lemma_feed_one(b, s.width as int + 1, m - 1, qx, qy);
        lemma_advanced_adds(s.cursor, (2 * (m - 1)) as nat, 1);
        lemma_advanced_adds(s.cursor, (2 * (m - 1)) as nat, 2);
        assert(advanced(s.cursor, (2 * (m - 1) + 1) as nat) == next_cursor(
            advanced(s.cursor, (2 * (m - 1)) as nat),
        ));
        assert(advanced(s.cursor, (2 * m) as nat) == next_cursor(
            advanced(s.cursor, (2 * (m - 1) + 1) as nat),
        ));
    }
}

/// After the first `n` columns of the top and bottom rows were fed, each of
/// their cells holds the draw of its place, counted from `done` draws before
/// them, and every other cell of `next` is as it was.
pub proof fn lemma_ends_fed(s: SimState, start: SimState, done: nat, n: int, qx: int, qy: int)
    requires
        s.wf(),
        0 <= n <= s.width,
        on_lattice(s.width, s.height, qx, qy),
        done == 2 * (s.height + 2),
        start.seed == s.seed,
        start.width == s.width,
        start.height == s.height,
        start.background_vapor == s.background_vapor,
        start.background_vapor_rand == s.background_vapor_rand,
        s.cursor == fed_cursor(start, done),
    ensures
        grows_from(s.ends_fed(n), s),
        s.ends_fed(n).cursor == fed_cursor(start, (done + 2 * n) as nat),
        is_end(s.height, qy) && 1 <= qx <= n ==> s.ends_fed(n).next[padded_index(
            s.width,
            qx,
            qy,
        )].water == fed_water(start, feed_order(s.width, s.height, qx, qy)),
        !(is_end(s.height, qy) && 1 <= qx <= n) ==> s.ends_fed(n).next[padded_index(
            s.width,
            qx,
            qy,
        )] == s.next[padded_index(s.width, qx, qy)],
    decreases n,
{
    lemma_ends_keep_receptive(s, n);
    if n > 0 {
        lemma_ends_fed(s, start, done, n - 1, qx, qy);
        lemma_ends_keep_receptive(s, n - 1);
        let a = s.ends_fed(n - 1);
        let b = a.ring_fed(n, 0);
        lemma_feed_keeps_receptive(a, n, 0);
        lemma_feed_one(a, n, 0, qx, qy);
        lemma_feed_one(b, n, s.height as int + 1, qx, qy);
        let k = (done + 2 * (n - 1)) as nat;
        assert(advanced(start.cursor, k + 2) == next_cursor(advanced(start.cursor, k + 1)));
    }
}

/// Where neither the diffusion rate nor the vapour addition is spread, the
/// domain takes no number from the source.
pub proof fn lemma_plain_domain_draws_nothing(s: SimState, m: int)
    requires
        s.wf(),
        0 <= m <= s.height,
        !is_positive(s.vapor_diffusion_rand),
        !is_positive(s.vapor_addition_rand),
    ensures
        s.rows_stepped(m).cursor == s.cursor,
    decreases m,
{
    if m > 0 {
        lemma_plain_domain_draws_nothing(s, m - 1);
        lemma_rows_keep_receptive(s, m - 1);
        lemma_plain_row_draws_nothing(s.rows_stepped(m - 1), m, s.width as int);
    }
}

/// Where neither the diffusion rate nor the vapour addition is spread, the
/// cells of a row take no number from the source.
proof fn lemma_plain_row_draws_nothing(s: SimState, py: int, n: int)
    requires
        s.wf(),
        1 <= py <= s.height,
        0 <= n <= s.width,
        !is_positive(s.vapor_diffusion_rand),
        !is_positive(s.vapor_addition_rand),
    ensures
        s.row_stepped(py, n).cursor == s.cursor,
    decreases n,
{
    if n > 0 {
        lemma_plain_row_draws_nothing(s, py, n - 1);
        lemma_row_keeps_receptive(s, py, n - 1);
    }
}

/// Right after a step every cell of the ring holds one draw of the
/// background vapour: the draw that its place in the feed gives, counted
/// from where the source stood when the domain was done. No water of the
/// domain enters into it; the domain bears on it only through the numbers
/// it took from the source, and it takes none where neither the diffusion
/// rate nor the vapour addition is spread.
pub proof fn lemma_ring_after_step(s: SimState, px: int, py: int)
    requires
        s.wf(),
        on_ring(s.width, s.height, px, py),
    ensures
        s.stepped().current[padded_index(s.width, px, py)].water == ring_water(s, px, py),
        !is_positive(s.vapor_diffusion_rand) && !is_positive(s.vapor_addition_rand)
            ==> ring_water(s, px, py) == drawn(
            s.background_vapor,
            s.background_vapor_rand,
            unit_at(s.seed, advanced(s.cursor, feed_order(s.width, s.height, px, py))),
        ),
        !is_positive(s.background_vapor_rand) ==> s.stepped().current[padded_index(
            s.width,
            px,
            py,
        )].water == s.background_vapor,
{
    lemma_rows_keep_receptive(s, s.height as int);
    if !is_positive(s.vapor_diffusion_rand) && !is_positive(s.vapor_addition_rand) {
        lemma_plain_domain_draws_nothing(s, s.height as int);
    }
    let mid = s.rows_stepped(s.height as int);
    lemma_sides_fed(mid, mid.height as int + 2, px, py);
    let sides = mid.sides_fed(mid.height as int + 2);
    lemma_ends_fed(sides, mid, (2 * (mid.height + 2)) as nat, sides.width as int, px, py);
}

/// No cell of the ring is a neighbour that gets marked: marking reaches the
/// domain only.
proof fn lemma_ring_is_not_touched(width: nat, height: nat, px: int, py: int, qx: int, qy: int)
    requires
        on_ring(width, height, qx, qy),
    ensures
        !touches(width, height, px, py, 6, padded_index(width, qx, qy)),
{
    let i = padded_index(width, qx, qy);
    if touches(width, height, px, py, 6, i) {
        lemma_touched_is_in_domain(width, height, px, py, 6, i);
        let (dx, dy) = choose|dx: int, dy: int|
            in_domain(width, height, dx, dy) && #[trigger] padded_index(width, dx, dy) == i;
        lemma_index_is_injective(width, height, dx, dy, qx, qy);
    }
}

/// Writing water to a cell of the domain leaves every cell of the ring as it
/// is, in both buffers.
pub proof fn lemma_water_leaves_ring(s: SimState, x: int, y: int, val: u64, qx: int, qy: int)
    requires
        s.wf(),
        0 <= x < s.width,
        0 <= y < s.height,
        on_ring(s.width, s.height, qx, qy),
    ensures
        s.with_water(x, y, val).current[padded_index(s.width, qx, qy)] == s.current[padded_index(
            s.width,
            qx,
            qy,
        )],
        s.with_water(x, y, val).next[padded_index(s.width, qx, qy)] == s.next[padded_index(
            s.width,
            qx,
            qy,
        )],
{
    lemma_index_in_range(s.width, s.height, qx, qy);
    lemma_index_in_range(s.width, s.height, x + 1, y + 1);
    lemma_ring_is_not_touched(s.width, s.height, x + 1, y + 1, qx, qy);
    if padded_index(s.width, qx, qy) == padded_index(s.width, x + 1, y + 1) {
        lemma_index_is_injective(s.width, s.height, x + 1, y + 1, qx, qy);
    }
}

/// Stepping a cell of the domain leaves every cell of the ring as it is, in
/// both buffers.
pub proof fn lemma_cell_leaves_ring(s: SimState, px: int, py: int, qx: int, qy: int)
    requires
        s.wf(),
        in_domain(s.width, s.height, px, py),
        on_ring(s.width, s.height, qx, qy),
    ensures
        s.cell_stepped(px, py).current[padded_index(s.width, qx, qy)] == s.current[padded_index(
            s.width,
            qx,
            qy,
        )],
        s.cell_stepped(px, py).next[padded_index(s.width, qx, qy)] == s.next[padded_index(
            s.width,
            qx,
            qy,
        )],
{
    lemma_index_in_range(s.width, s.height, qx, qy);
    lemma_index_in_range(s.width, s.height, px, py);
    lemma_ring_is_not_touched(s.width, s.height, px, py, qx, qy);
    if padded_index(s.width, qx, qy) == padded_index(s.width, px, py) {
        lemma_index_is_injective(s.width, s.height, px, py, qx, qy);
    }
}

/// Stepping cells of a row leaves the ring as it is.
proof fn lemma_row_leaves_ring(s: SimState, py: int, n: int, qx: int, qy: int)
    requires
        s.wf(),
        1 <= py <= s.height,
        0 <= n <= s.width,
        on_ring(s.width, s.height, qx, qy),
    ensures
        s.row_stepped(py, n).current[padded_index(s.width, qx, qy)] == s.current[padded_index(
            s.width,
            qx,
            qy,
        )],
        s.row_stepped(py, n).next[padded_index(s.width, qx, qy)] == s.next[padded_index(
            s.width,
            qx,
            qy,
        )],
    decreases n,
{
    if n > 0 {
        lemma_row_leaves_ring(s, py, n - 1, qx, qy);
        lemma_row_keeps_receptive(s, py, n - 1);
        lemma_cell_leaves_ring(s.row_stepped(py, n - 1), n, py, qx, qy);
    }
}

/// Stepping the domain leaves every cell of the ring as it is, in both
/// buffers: within a step the ring is written by the feed alone.
pub proof fn lemma_domain_leaves_ring(s: SimState, m: int, qx: int, qy: int)
    requires
        s.wf(),
        0 <= m <= s.height,
        on_ring(s.width, s.height, qx, qy),
    ensures
        s.rows_stepped(m).current[padded_index(s.width, qx, qy)] == s.current[padded_index(
            s.width,
            qx,
            qy,
        )],
        s.rows_stepped(m).next[padded_index(s.width, qx, qy)] == s.next[padded_index(
            s.width,
            qx,
            qy,
        )],
    decreases m,
{
    if m > 0 {
        lemma_domain_leaves_ring(s, m - 1, qx, qy);
        lemma_rows_keep_receptive(s, m - 1);
        lemma_row_leaves_ring(s.rows_stepped(m - 1), m, s.width as int, qx, qy);
    }
}

/// A step hands the ring over as it found it but for the water that it
/// feeds: the ring that is written afterwards is the ring that was read, and
/// the ring that is read afterwards has the flags of the ring that was
/// written. So a ring on which no cell is receptive stays such a ring.
pub proof fn lemma_ring_flags_after_step(s: SimState, qx: int, qy: int)
    requires
        s.wf(),
        on_ring(s.width, s.height, qx, qy),
    ensures
        s.stepped().next[padded_index(s.width, qx, qy)] == s.current[padded_index(
            s.width,
            qx,
            qy,
        )],
        s.stepped().current[padded_index(s.width, qx, qy)].receptive == s.next[padded_index(
            s.width,
            qx,
            qy,
        )].receptive,
{
    let i = padded_index(s.width, qx, qy);
    lemma_index_in_range(s.width, s.height, qx, qy);
    lemma_rows_keep_receptive(s, s.height as int);
    lemma_domain_leaves_ring(s, s.height as int, qx, qy);
    let mid = s.rows_stepped(s.height as int);
    lemma_sides_flags(mid, mid.height as int + 2, i);
    let sides = mid.sides_fed(mid.height as int + 2);
    lemma_sides_keep_receptive(mid, mid.height as int + 2);
    lemma_ends_flags(sides, sides.width as int, i);
}

/// Feeding a cell changes no flag and no cell that is read.
proof fn lemma_feed_flags(s: SimState, px: int, py: int, i: int)
    requires
        s.wf(),
        on_lattice(s.width, s.height, px, py),
        0 <= i < s.next.len(),
    ensures
        s.ring_fed(px, py).current == s.current,
        s.ring_fed(px, py).next[i].receptive == s.next[i].receptive,
{
    lemma_index_in_range(s.width, s.height, px, py);
}

/// Feeding the side columns changes no flag and no cell that is read.
proof fn lemma_sides_flags(s: SimState, m: int, i: int)
    requires
        s.wf(),
        0 <= m <= s.height + 2,
        0 <= i < s.next.len(),
    ensures
        s.sides_fed(m).current == s.current,
        s.sides_fed(m).next[i].receptive == s.next[i].receptive,
    decreases m,
{
    if m > 0 {
        lemma_sides_flags(s, m - 1, i);
        lemma_sides_keep_receptive(s, m - 1);
        let a = s.sides_fed(m - 1);
        lemma_feed_flags(a, 0, m - 1, i);
        lemma_feed_keeps_receptive(a, 0, m - 1);
        lemma_feed_flags(a.ring_fed(0, m - 1), s.width as int + 1, m - 1, i);
    }
}

/// Feeding the top and bottom rows changes no flag and no cell that is read.
proof fn lemma_ends_flags(s: SimState, n: int, i: int)
    requires
        s.wf(),
        0 <= n <= s.width,
        0 <= i < s.next.len(),
    ensures
        s.ends_fed(n).current == s.current,
        s.ends_fed(n).next[i].receptive == s.next[i].receptive,
    decreases n,
{
    if n > 0 {
        lemma_ends_flags(s, n - 1, i);
        lemma_ends_keep_receptive(s, n - 1);
        let a = s.ends_fed(n - 1);
        lemma_feed_flags(a, n, 0, i);
        lemma_feed_keeps_receptive(a, n, 0);
        lemma_feed_flags(a.ring_fed(n, 0), n, s.height as int + 1, i);
    }
}

} // verus!
