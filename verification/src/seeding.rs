//! What a lattice holds after crystals were seeded in it: it depends on
//! which cells were seeded, not on the order in which they were.

use crate::lattice::{
    fits_in_memory, lemma_dimensions_fit, lemma_index_in_range, lemma_index_is_injective,
    padded_index, padded_len, touches, Cell,
};
use crate::model::SimState;
use crate::number::{at_least_one, below_one, ONE};
use crate::sim_history::{
    frozen_in_row, frozen_in_rows, is_row_major, lemma_seeds_set, seeds_fit, seeds_set,
};
use vstd::prelude::*;
use vstd::seq_lib::{lemma_seq_concat_contains_all_elements, lemma_seq_contains_after_push};

verus! {

/// Where the `j`-th of the cells lies in a buffer.
pub open spec fn seed_index(width: nat, cells: Seq<(usize, usize)>, j: int) -> int {
    padded_index(width, cells[j].0 + 1, cells[j].1 + 1)
}

/// Whether the cell at index `i` is a neighbour in the domain of the `j`-th
/// of the cells.
pub open spec fn seed_touches(
    width: nat,
    height: nat,
    cells: Seq<(usize, usize)>,
    j: int,
    i: int,
) -> bool {
    touches(width, height, cells[j].0 + 1, cells[j].1 + 1, 6, i)
}

/// Whether the cell at index `i` is one of the first `n` cells.
pub open spec fn is_seed(width: nat, cells: Seq<(usize, usize)>, n: int, i: int) -> bool {
    exists|j: int| 0 <= j < n && #[trigger] seed_index(width, cells, j) == i
}

/// Whether the cell at index `i` is a neighbour of one of the first `n`
/// cells.
pub open spec fn is_beside_seed(
    width: nat,
    height: nat,
    cells: Seq<(usize, usize)>,
    n: int,
    i: int,
) -> bool {
    exists|j: int| 0 <= j < n && #[trigger] seed_touches(width, height, cells, j, i)
}

/// After water of one was written to cells of the domain, a cell of the
/// buffer that is read holds one if it is one of them and what it held if it
/// is not; in both buffers it is receptive if it was, or is one of them, or
/// is a neighbour of one of them.
pub proof fn lemma_seeded_cells(base: SimState, cells: Seq<(usize, usize)>, n: int, i: int)
    requires
        base.wf(),
        seeds_fit(base, cells),
        0 <= n <= cells.len(),
        0 <= i < padded_len(base.width, base.height),
    ensures
        seeds_set(base, cells, n).current[i] == (Cell {
            water: if is_seed(base.width, cells, n, i) {
                ONE
            } else {
                base.current[i].water
            },
            receptive: base.current[i].receptive || is_seed(base.width, cells, n, i)
                || is_beside_seed(base.width, base.height, cells, n, i),
        }),
        seeds_set(base, cells, n).next[i] == (Cell {
            water: base.next[i].water,
            receptive: base.next[i].receptive || is_seed(base.width, cells, n, i)
                || is_beside_seed(base.width, base.height, cells, n, i),
        }),
    decreases n,
{
    let w = base.width;
    let h = base.height;
    if n > 0 {
        lemma_seeded_cells(base, cells, n - 1, i);
        lemma_seeds_set(base, cells, n - 1);
        lemma_index_in_range(w, h, cells[n - 1].0 + 1, cells[n - 1].1 + 1);
        assert(is_seed(w, cells, n, i) <==> (is_seed(w, cells, n - 1, i) || seed_index(
            w,
            cells,
            n - 1,
        ) == i));
        assert(is_beside_seed(w, h, cells, n, i) <==> (is_beside_seed(w, h, cells, n - 1, i)
            || seed_touches(w, h, cells, n - 1, i)));
    }
}

/// A row lists its frozen cells, and nothing else.
pub proof fn lemma_frozen_in_row_lists(s: SimState, y: int, n: int, c: (usize, usize))
    requires
        0 <= y <= usize::MAX,
        0 <= n <= usize::MAX + 1,
    ensures
        frozen_in_row(s, y, n).contains(c) <==> (c.1 == y && c.0 < n && at_least_one(
            s.water_at(c.0 as int, c.1 as int),
        )),
    decreases n,
{
    if n > 0 {
        lemma_frozen_in_row_lists(s, y, n - 1, c);
        if at_least_one(s.water_at(n - 1, y)) {
            lemma_seq_contains_after_push(
                frozen_in_row(s, y, n - 1),
                ((n - 1) as usize, y as usize),
                c,
            );
        }
    }
}

/// The list of the frozen cells of a domain holds the cells of the domain
/// that are frozen, and nothing else.
pub proof fn lemma_frozen_in_rows_lists(s: SimState, m: int, c: (usize, usize))
    requires
        0 <= m <= usize::MAX + 1,
        s.width <= usize::MAX,
    ensures
        frozen_in_rows(s, m).contains(c) <==> (c.0 < s.width && c.1 < m && at_least_one(
            s.water_at(c.0 as int, c.1 as int),
        )),
    decreases m,
{
    if m > 0 {
        lemma_frozen_in_rows_lists(s, m - 1, c);
        lemma_frozen_in_row_lists(s, m - 1, s.width as int, c);
        lemma_seq_concat_contains_all_elements(
            frozen_in_rows(s, m - 1),
            frozen_in_row(s, m - 1, s.width as int),
            c,
        );
    }
}

/// The frozen cells of a row stand from left to right, all in that row.
pub proof fn lemma_frozen_in_row_is_in_order(s: SimState, y: int, n: int)
    requires
        0 <= y <= usize::MAX,
        0 <= n <= usize::MAX + 1,
    ensures
        is_row_major(frozen_in_row(s, y, n)),
        forall|i: int|
            0 <= i < frozen_in_row(s, y, n).len() ==> (#[trigger] frozen_in_row(s, y, n)[i]).1 == y
                && frozen_in_row(s, y, n)[i].0 < n,
    decreases n,
{
    if n > 0 {
        lemma_frozen_in_row_is_in_order(s, y, n - 1);
    }
}

/// The frozen cells of a domain stand row by row, each row from left to
/// right, so that none stands twice.
pub proof fn lemma_frozen_in_rows_are_in_order(s: SimState, m: int)
    requires
        0 <= m <= usize::MAX + 1,
        s.width <= usize::MAX,
    ensures
        is_row_major(frozen_in_rows(s, m)),
        forall|i: int|
            0 <= i < frozen_in_rows(s, m).len() ==> (#[trigger] frozen_in_rows(s, m)[i]).1 < m,
    decreases m,
{
    if m > 0 {
        lemma_frozen_in_rows_are_in_order(s, m - 1);
        lemma_frozen_in_row_is_in_order(s, m - 1, s.width as int);
    }
}

/// Whether no cell of either buffer of the state is receptive and all of
/// them hold the background vapour, which is below one.
pub open spec fn is_unseeded(base: SimState) -> bool {
    &&& base.wf()
    &&& fits_in_memory(base.width, base.height)
    &&& below_one(base.background_vapor)
    &&& forall|i: int|
        0 <= i < base.current.len() ==> #[trigger] base.current[i] == (Cell {
            water: base.background_vapor,
            receptive: false,
        })
    &&& forall|i: int|
        0 <= i < base.next.len() ==> #[trigger] base.next[i] == (Cell {
            water: base.background_vapor,
            receptive: false,
        })
}

/// In a lattice that was seeded, the frozen cells of the domain are the
/// cells that were seeded.
pub proof fn lemma_frozen_are_the_seeds(
    base: SimState,
    seeds: Seq<(usize, usize)>,
    c: (usize, usize),
)
    requires
        is_unseeded(base),
        seeds_fit(base, seeds),
        c.0 < base.width,
        c.1 < base.height,
    ensures
        at_least_one(
            seeds_set(base, seeds, seeds.len() as int).water_at(c.0 as int, c.1 as int),
        ) <==> is_seed(
            base.width,
            seeds,
            seeds.len() as int,
            padded_index(base.width, c.0 + 1, c.1 + 1),
        ),
{
    let i = padded_index(base.width, c.0 + 1, c.1 + 1);
    lemma_index_in_range(base.width, base.height, c.0 + 1, c.1 + 1);
    lemma_seeds_set(base, seeds, seeds.len() as int);
    lemma_seeded_cells(base, seeds, seeds.len() as int, i);
}

/// The list of the frozen cells of a lattice that was seeded, and the cells
/// that were seeded, are the same cells: each cell of the one is a cell of
/// the other.
pub proof fn lemma_frozen_list_is_the_seeds(
    base: SimState,
    seeds: Seq<(usize, usize)>,
    c: (usize, usize),
)
    requires
        is_unseeded(base),
        seeds_fit(base, seeds),
    ensures
        frozen_in_rows(
            seeds_set(base, seeds, seeds.len() as int),
            base.height as int,
        ).contains(c) <==> seeds.contains(c),
{
    let s = seeds_set(base, seeds, seeds.len() as int);
    let n = seeds.len() as int;
    let w = base.width;
    let h = base.height;
    lemma_dimensions_fit(w, h);
    lemma_seeds_set(base, seeds, n);
    lemma_frozen_in_rows_lists(s, h as int, c);
    if c.0 < w && c.1 < h {
        lemma_frozen_are_the_seeds(base, seeds, c);
        let i = padded_index(w, c.0 + 1, c.1 + 1);
        if is_seed(w, seeds, n, i) {
            let j = choose|j: int| 0 <= j < n && #[trigger] seed_index(w, seeds, j) == i;
            lemma_index_is_injective(w, h, seeds[j].0 + 1, seeds[j].1 + 1, c.0 + 1, c.1 + 1);
            assert(seeds[j] == c);
        }
        if seeds.contains(c) {
            let j = choose|j: int| 0 <= j < seeds.len() && seeds[j] == c;
            assert(seed_index(w, seeds, j) == i);
        }
    }
}

/// Two lists of the same cells seed the same cells and the same neighbours.
pub proof fn lemma_same_cells_seed_alike(
    width: nat,
    height: nat,
    a: Seq<(usize, usize)>,
    b: Seq<(usize, usize)>,
    i: int,
)
    requires
        forall|c: (usize, usize)| a.contains(c) ==> b.contains(c),
    ensures
        is_seed(width, a, a.len() as int, i) ==> is_seed(width, b, b.len() as int, i),
        is_beside_seed(width, height, a, a.len() as int, i) ==> is_beside_seed(
            width,
            height,
            b,
            b.len() as int,
            i,
        ),
{
    if is_seed(width, a, a.len() as int, i) {
        let j = choose|j: int| 0 <= j < a.len() && #[trigger] seed_index(width, a, j) == i;
        assert(a.contains(a[j]));
        let k = choose|k: int| 0 <= k < b.len() && b[k] == a[j];
        assert(seed_index(width, b, k) == i);
    }
    if is_beside_seed(width, height, a, a.len() as int, i) {
        let j = choose|j: int| 0 <= j < a.len() && #[trigger] seed_touches(width, height, a, j, i);
        assert(a.contains(a[j]));
        let k = choose|k: int| 0 <= k < b.len() && b[k] == a[j];
        assert(seed_touches(width, height, b, k, i));
    }
}

/// Seeding the cells that are frozen in a seeded lattice, row by row, gives
/// that lattice again: the order in which crystals are seeded leaves no
/// trace.
pub proof fn lemma_seeding_again(base: SimState, seeds: Seq<(usize, usize)>)
    requires
        is_unseeded(base),
        seeds_fit(base, seeds),
    ensures
        seeds_fit(
            base,
            frozen_in_rows(seeds_set(base, seeds, seeds.len() as int), base.height as int),
        ),
        seeds_set(
            base,
            frozen_in_rows(seeds_set(base, seeds, seeds.len() as int), base.height as int),
            frozen_in_rows(
                seeds_set(base, seeds, seeds.len() as int),
                base.height as int,
            ).len() as int,
        ) == seeds_set(base, seeds, seeds.len() as int),
{
    let s = seeds_set(base, seeds, seeds.len() as int);
    let found = frozen_in_rows(s, base.height as int);
    let w = base.width;
    let h = base.height;
    lemma_dimensions_fit(w, h);
    lemma_seeds_set(base, seeds, seeds.len() as int);
    assert forall|c: (usize, usize)| found.contains(c) implies seeds.contains(c) by {
        lemma_frozen_list_is_the_seeds(base, seeds, c);
    }
    assert forall|c: (usize, usize)| seeds.contains(c) implies found.contains(c) by {
        lemma_frozen_list_is_the_seeds(base, seeds, c);
    }
    assert forall|j: int| 0 <= j < found.len() implies (#[trigger] found[j]).0 < w && found[j].1
        < h by {
        lemma_frozen_in_rows_lists(s, h as int, found[j]);
    }
    lemma_seeds_set(base, found, found.len() as int);
    let again = seeds_set(base, found, found.len() as int);
    assert forall|i: int| 0 <= i < s.current.len() implies again.current[i] == s.current[i]
        && again.next[i] == s.next[i] by {
        lemma_seeded_cells(base, seeds, seeds.len() as int, i);
        lemma_seeded_cells(base, found, found.len() as int, i);
        lemma_same_cells_seed_alike(w, h, seeds, found, i);
        lemma_same_cells_seed_alike(w, h, found, seeds, i);
    }
    assert(again.current =~= s.current);
    assert(again.next =~= s.next);
}

} // verus!
