//! The timeline of one parameter: the ticks at which its value changed, each
//! with the value it changed to.

use crate::number::{is_same_number, same_number};
use vstd::prelude::*;

verus! {

/// Whether the ticks rise strictly along the entries.
pub open spec fn ticks_rise(entries: Seq<(usize, u64)>) -> bool {
    forall|i: int, j: int|
        0 <= i < j < entries.len() ==> (#[trigger] entries[i]).0 < (#[trigger] entries[j]).0
}

/// Whether the entry at `i` has the number of the entry before it.
pub open spec fn repeats_at(entries: Seq<(usize, u64)>, i: int) -> bool {
    same_number(entries[i - 1].1, entries[i].1)
}

/// Whether no entry repeats the number of the entry before it.
pub open spec fn is_compact(entries: Seq<(usize, u64)>) -> bool {
    forall|i: int| 0 < i < entries.len() ==> !#[trigger] repeats_at(entries, i)
}

/// Whether the entries are a timeline: rising ticks, and no value twice in a
/// row.
pub open spec fn is_timeline(entries: Seq<(usize, u64)>) -> bool {
    ticks_rise(entries) && is_compact(entries)
}

/// Whether recording `value` would add an entry: it does on an empty
/// timeline, and where the value is another number than the last recorded.
pub open spec fn is_change(entries: Seq<(usize, u64)>, value: u64) -> bool {
    entries.len() == 0 || !same_number(entries.last().1, value)
}

/// Whether `value` can be recorded at `tick`: where an entry would be added
/// to others, it comes after the last of them.
pub open spec fn can_record(entries: Seq<(usize, u64)>, tick: nat, value: u64) -> bool {
    entries.len() > 0 && is_change(entries, value) ==> entries.last().0 < tick
}

/// The entries after `value` was recorded at `tick`.
pub open spec fn recorded(entries: Seq<(usize, u64)>, tick: nat, value: u64) -> Seq<(usize, u64)> {
    if is_change(entries, value) {
        entries.push((tick as usize, value))
    } else {
        entries
    }
}

/// The index of the entry in force at `tick`: the last one whose tick is not
/// after `tick`, and the first entry where every tick is.
pub open spec fn index_in_force(entries: Seq<(usize, u64)>, tick: nat) -> int
    decreases entries.len(),
{
    if entries.len() <= 1 {
        0
    } else if entries.last().0 <= tick {
        entries.len() - 1
    } else {
        index_in_force(entries.drop_last(), tick)
    }
}

/// The value in force at `tick`.
pub open spec fn value_in_force(entries: Seq<(usize, u64)>, tick: nat) -> u64 {
    entries[index_in_force(entries, tick)].1
}

/// The history of one parameter.
#[derive(Debug)]
pub struct AttribHistory {
    history: Vec<(usize, u64)>,
}

impl View for AttribHistory {
    type V = Seq<(usize, u64)>;

    closed spec fn view(&self) -> Seq<(usize, u64)> {
        self.history@
    }
}

impl AttribHistory {
    /// The entries are a timeline.
    pub open spec fn wf(&self) -> bool {
        is_timeline(self@)
    }

    /// A history without entries.
    pub fn new() -> (r: AttribHistory)
        ensures
            r.wf(),
            r@ == Seq::<(usize, u64)>::empty(),
    {
        AttribHistory { history: Vec::new() }
    }

    /// A history of the given entries, or nothing where they are no
    /// timeline.
    pub fn from_entries(entries: Vec<(usize, u64)>) -> (r: Option<AttribHistory>)
        ensures
            is_timeline(entries@) ==> r.is_some() && r.unwrap()@ == entries@ && r.unwrap().wf(),
            !is_timeline(entries@) ==> r.is_none(),
    {
        if entries.len() == 0 {
            return Some(AttribHistory { history: entries });
        }
        let mut i: usize = 1;
        while i < entries.len()
            invariant
                1 <= i <= entries@.len(),
                is_timeline(entries@.take(i as int)),
            decreases entries.len() - i,
        {
            let before = entries[i - 1];
            let entry = entries[i];
            if before.0 >= entry.0 || is_same_number(before.1, entry.1) {
                assert(repeats_at(entries@, i as int) || !(entries@[i - 1].0
                    < entries@[i as int].0));
                return None;
            }
            assert(is_timeline(entries@.take(i + 1))) by {
                let longer = entries@.take(i + 1);
                let shorter = entries@.take(i as int);
                assert forall|a: int, b: int| 0 <= a < b < longer.len() implies longer[a].0
                    < longer[b].0 by {
                    if b >= i && a < i - 1 {
                        assert(shorter[a].0 < shorter[i - 1].0);
                    }
                }
                assert forall|a: int| 0 < a < longer.len() implies !#[trigger] repeats_at(
                    longer,
                    a,
                ) by {
                    if a < i {
                        assert(!repeats_at(shorter, a));
                    }
                }
            }
            i = i + 1;
        }
        assert(entries@.take(entries@.len() as int) == entries@);
        Some(AttribHistory { history: entries })
    }

    /// The entries, oldest first.
    pub fn entries(&self) -> (r: &Vec<(usize, u64)>)
        ensures
            r@ == self@,
    {
        &self.history
    }

    /// How many entries the history has.
    pub fn len(&self) -> (r: usize)
        ensures
            r == self@.len(),
    {
        self.history.len()
    }

    /// The entry at `index`.
    pub fn entry(&self, index: usize) -> (r: (usize, u64))
        requires
            index < self@.len(),
        ensures
            r == self@[index as int],
    {
        self.history[index]
    }

    /// Whether `value` can be recorded at `tick`.
    pub fn accepts(&self, tick: usize, value: u64) -> (r: bool)
        ensures
            r == can_record(self@, tick as nat, value),
    {
        let n = self.history.len();
        if n == 0 {
            return true;
        }
        let last = self.history[n - 1];
        is_same_number(last.1, value) || last.0 < tick
    }

    /// Records `value` at `tick`, which may be any tick that a step count
    /// can take. An entry is added only where the value is another number
    /// than the last recorded, and then it must come after the last. No
    /// entry is taken away or changed.
    pub fn add(&mut self, tick: usize, value: u64)
        requires
            old(self).wf(),
            old(self)@.len() > 0 && is_change(old(self)@, value) ==> old(self)@.last().0 < tick,
        ensures
            final(self).wf(),
            final(self)@ == recorded(old(self)@, tick as nat, value),
            is_change(old(self)@, value) ==> final(self)@ == old(self)@.push((tick, value)),
            !is_change(old(self)@, value) ==> final(self)@ == old(self)@,
            old(self)@.is_prefix_of(final(self)@),
            forall|at: nat|
                is_change(old(self)@, value) && at >= tick ==> #[trigger] value_in_force(
                    final(self)@,
                    at,
                ) == value,
            forall|at: nat|
                old(self)@.len() > 0 && old(self)@.last().0 < tick && at < tick
                    ==> #[trigger] value_in_force(final(self)@, at) == value_in_force(
                    old(self)@,
                    at,
                ),
    {
        proof {
            lemma_recorded_is_timeline(old(self)@, tick as nat, value);
            assert forall|at: nat|
                is_change(old(self)@, value) && at >= tick implies #[trigger] value_in_force(
                recorded(old(self)@, tick as nat, value),
                at,
            ) == value by {
                lemma_later_recording(old(self)@, tick as nat, value, at);
            }
            assert forall|at: nat|
                old(self)@.len() > 0 && old(self)@.last().0 < tick && at
                    < tick implies #[trigger] value_in_force(
                recorded(old(self)@, tick as nat, value),
                at,
            ) == value_in_force(old(self)@, at) by {
                lemma_later_recording(old(self)@, tick as nat, value, at);
            }
        }
        let n = self.history.len();
        if n == 0 || !is_same_number(self.history[n - 1].1, value) {
            self.history.push((tick, value));
        }
    }

    /// The value in force at `tick`: that of the last entry whose tick is
    /// not after `tick`, and that of the first entry where `tick` comes
    /// before them all.
    pub fn get(&self, tick: usize) -> (r: u64)
        requires
            self@.len() > 0,
        ensures
            r == value_in_force(self@, tick as nat),
            self@.last().0 <= tick ==> r == self@.last().1,
            ticks_rise(self@) && tick < self@[0].0 ==> r == self@[0].1,
            forall|i: int|
                ticks_rise(self@) && 0 <= i < self@.len() && (#[trigger] self@[i]).0 <= tick && (i
                    + 1 < self@.len() ==> tick < self@[i + 1].0) ==> r == self@[i].1,
    {
        proof {
            assert forall|i: int|
                ticks_rise(self@) && 0 <= i < self@.len() && (#[trigger] self@[i]).0 <= tick && (i
                    + 1 < self@.len() ==> tick < self@[i + 1].0) implies value_in_force(
                self@,
                tick as nat,
            ) == self@[i].1 by {
                lemma_entry_in_force(self@, tick as nat, i);
            }
            if self@.last().0 <= tick {
                lemma_last_value_from_last_tick(self@, tick as nat);
            }
            if ticks_rise(self@) && tick < self@[0].0 {
                lemma_first_value_before_first_tick(self@, tick as nat);
            }
        }
        let mut found: usize = 0;
        let mut i: usize = 1;
        while i < self.history.len()
            invariant
                1 <= i <= self@.len(),
                found == index_in_force(self@.take(i as int), tick as nat),
                0 <= found < i,
            decreases self@.len() - i,
        {
            assert(self@.take(i + 1).drop_last() == self@.take(i as int));
            if self.history[i].0 <= tick {
                found = i;
            }
            i = i + 1;
        }
        assert(self@.take(self@.len() as int) == self@);
        self.history[found].1
    }
}

/// The entry in force is one of the entries.
pub proof fn lemma_index_in_force_is_an_index(entries: Seq<(usize, u64)>, tick: nat)
    requires
        entries.len() > 0,
    ensures
        0 <= index_in_force(entries, tick) < entries.len(),
    decreases entries.len(),
{
    if entries.len() > 1 && !(entries.last().0 <= tick) {
        lemma_index_in_force_is_an_index(entries.drop_last(), tick);
    }
}

/// Before the first entry the first value is in force.
pub proof fn lemma_first_value_before_first_tick(entries: Seq<(usize, u64)>, tick: nat)
    requires
        entries.len() > 0,
        ticks_rise(entries),
        tick < entries[0].0,
    ensures
        index_in_force(entries, tick) == 0,
        value_in_force(entries, tick) == entries[0].1,
    decreases entries.len(),
{
    if entries.len() > 1 {
        lemma_shorter_timeline(entries);
        lemma_first_value_before_first_tick(entries.drop_last(), tick);
    }
}

/// From the tick of the last entry on, the last value is in force.
pub proof fn lemma_last_value_from_last_tick(entries: Seq<(usize, u64)>, tick: nat)
    requires
        entries.len() > 0,
        entries.last().0 <= tick,
    ensures
        value_in_force(entries, tick) == entries.last().1,
{
}

/// The entry in force at a tick is the one entry whose tick is not after it
/// and whose successor, if it has one, comes after it.
pub proof fn lemma_entry_in_force(entries: Seq<(usize, u64)>, tick: nat, i: int)
    requires
        ticks_rise(entries),
        0 <= i < entries.len(),
        entries[i].0 <= tick,
        i + 1 < entries.len() ==> tick < entries[i + 1].0,
    ensures
        index_in_force(entries, tick) == i,
    decreases entries.len(),
{
    if entries.len() > 1 && i < entries.len() - 1 {
        lemma_shorter_timeline(entries);
        lemma_entry_in_force(entries.drop_last(), tick, i);
    }
}

/// Recording keeps a timeline a timeline, keeps what was recorded, and never
/// puts the same number twice in a row.
pub proof fn lemma_recorded_is_timeline(entries: Seq<(usize, u64)>, tick: nat, value: u64)
    requires
        is_timeline(entries),
        can_record(entries, tick, value),
        tick <= usize::MAX,
    ensures
        is_timeline(recorded(entries, tick, value)),
        entries.is_prefix_of(recorded(entries, tick, value)),
{
    let after = recorded(entries, tick, value);
    if is_change(entries, value) {
        assert forall|i: int| 0 < i < after.len() implies !#[trigger] repeats_at(after, i) by {
            if i < entries.len() {
                assert(!repeats_at(entries, i));
            }
        }
    }
}

/// A recording at a tick after every recorded one is read back from that
/// tick on, and changes no earlier answer. Where the value is the same
/// number as the last recorded, what is read back is that last value.
pub proof fn lemma_later_recording(entries: Seq<(usize, u64)>, tick: nat, value: u64, at: nat)
    requires
        entries.len() > 0 ==> entries.last().0 < tick,
        tick <= usize::MAX,
    ensures
        at >= tick && is_change(entries, value) ==> value_in_force(
            recorded(entries, tick, value),
            at,
        ) == value,
        at >= tick && !is_change(entries, value) ==> value_in_force(
            recorded(entries, tick, value),
            at,
        ) == entries.last().1 && same_number(entries.last().1, value),
        at < tick && entries.len() > 0 ==> value_in_force(recorded(entries, tick, value), at)
            == value_in_force(entries, at),
{
    let after = recorded(entries, tick, value);
    if is_change(entries, value) {
        assert(after.drop_last() =~= entries);
        if entries.len() > 0 {
            lemma_index_in_force_is_an_index(entries, at);
        }
    }
}

/// Recording the same value at the same tick a second time changes nothing,
/// where it can be recorded a second time at all.
pub proof fn lemma_recording_twice(entries: Seq<(usize, u64)>, tick: nat, value: u64)
    requires
        tick <= usize::MAX,
        can_record(recorded(entries, tick, value), tick, value),
    ensures
        recorded(recorded(entries, tick, value), tick, value) == recorded(entries, tick, value),
{
}

/// A timeline without its last entry has rising ticks still.
pub proof fn lemma_shorter_timeline(entries: Seq<(usize, u64)>)
    requires
        entries.len() > 0,
        ticks_rise(entries),
    ensures
        ticks_rise(entries.drop_last()),
{
}

/// The timeline that recording `values(0)` to `values(n)` at the ticks
/// `first` to `first + n` gives, one value at each tick.
pub open spec fn timeline_of(values: spec_fn(nat) -> u64, first: nat, n: nat) -> Seq<(usize, u64)>
    decreases n,
{
    if n == 0 {
        recorded(Seq::empty(), first, values(0))
    } else {
        recorded(timeline_of(values, first, (n - 1) as nat), first + n, values(n))
    }
}

/// Whether the value at `m` is that at `m - 1` wherever the two are the same
/// number: the value does not go from one zero to the other.
pub open spec fn is_steady_at(values: spec_fn(nat) -> u64, m: nat) -> bool {
    same_number(values((m - 1) as nat), values(m)) ==> values((m - 1) as nat) == values(m)
}

/// Whether the values up to `n` never go from one zero to the other.
pub open spec fn is_steady(values: spec_fn(nat) -> u64, n: nat) -> bool {
    forall|m: nat| 0 < m <= n ==> #[trigger] is_steady_at(values, m)
}

/// A timeline gives back what was recorded: where a value was recorded at
/// every tick from `first` to `first + n`, and never went from one zero to
/// the other, the value in force at each of those ticks is the value that
/// was recorded at it.
pub proof fn lemma_timeline_gives_back(values: spec_fn(nat) -> u64, first: nat, n: nat, j: nat)
    requires
        first + n <= usize::MAX,
        is_steady(values, n),
        j <= n,
    ensures
        is_timeline(timeline_of(values, first, n)),
        timeline_of(values, first, n).len() > 0,
        timeline_of(values, first, n).last().0 <= first + n,
        timeline_of(values, first, n).last().1 == values(n),
        value_in_force(timeline_of(values, first, n), first + j) == values(j),
    decreases n,
{
    let t = timeline_of(values, first, n);
    if n == 0 {
        assert forall|i: int| 0 < i < t.len() implies !#[trigger] repeats_at(t, i) by {}
    } else {
        let before = timeline_of(values, first, (n - 1) as nat);
        let tick = first + n;
        let earlier = if j < n {
            j
        } else {
            (n - 1) as nat
        };
        lemma_timeline_gives_back(values, first, (n - 1) as nat, earlier);
        lemma_recorded_is_timeline(before, tick, values(n));
        assert(is_steady_at(values, n));
        if is_change(before, values(n)) {
            if j < n {
                lemma_index_in_force_is_an_index(before, first + j);
            }
        } else {
            if j == n {
                lemma_last_value_from_last_tick(before, first + n);
            }
        }
    }
}

} // verus!
