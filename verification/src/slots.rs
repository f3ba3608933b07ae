//! A mathematical model of a table of slots with generations.
//!
//! Every entry has a handle: the number of its slot and the generation in which
//! it was put there. Taking an entry out starts a new generation, so the handle
//! of an entry that is gone never names another one.

use vstd::prelude::*;

verus! {

/// Names an entry of a slot table.
#[derive(Clone, Copy, Debug, PartialEq, Eq, Hash, Structural)]
pub struct Handle {
    pub slot: usize,
    pub generation: u64,
}

/// What a taken slot holds: a value, and the generation in which it came.
pub struct Entry<T> {
    pub generation: u64,
    pub value: T,
}

/// The state of a slot table.
#[verifier::ext_equal]
pub struct SlotTable<T> {
    /// What each slot holds.
    pub slots: Seq<Option<Entry<T>>>,
    /// The empty slots, in the order in which they will be filled.
    pub vacant: Seq<usize>,
    /// The current generation: how many entries have been taken out so far.
    pub generation: int,
}

/// The entries of the first `n` slots with their handles, in slot order.
pub open spec fn rows_of<T>(slots: Seq<Option<Entry<T>>>, n: int) -> Seq<(Handle, T)>
    decreases n,
{
    if n <= 0 {
        Seq::empty()
    } else {
        match slots[n - 1] {
            None => rows_of(slots, n - 1),
            Some(entry) => rows_of(slots, n - 1).push(
                (Handle { slot: (n - 1) as usize, generation: entry.generation }, entry.value),
            ),
        }
    }
}

impl<T> SlotTable<T> {
    /// A table of `n` empty slots, to be filled from the first to the last.
    pub open spec fn empty(n: nat) -> Self {
        SlotTable {
            slots: Seq::new(n, |i: int| None),
            vacant: Seq::new(n, |i: int| i as usize),
            generation: 0,
        }
    }

    /// Whether `h` names an entry.
    pub open spec fn live(self, h: Handle) -> bool {
        h.slot < self.slots.len() && self.slots[h.slot as int] is Some
            && self.slots[h.slot as int]->0.generation == h.generation
    }

    /// The entry that `h` names.
    pub open spec fn at(self, h: Handle) -> T
        recommends
            self.live(h),
    {
        self.slots[h.slot as int]->0.value
    }

    /// The entry that `h` names, if there is one.
    pub open spec fn get(self, h: Handle) -> Option<T> {
        if self.live(h) {
            Some(self.at(h))
        } else {
            None
        }
    }

    /// All entries with their handles, in slot order.
    pub open spec fn rows(self) -> Seq<(Handle, T)> {
        rows_of(self.slots, self.slots.len() as int)
    }

    /// Whether every slot is taken.
    pub open spec fn full(self) -> bool {
        self.vacant.len() == 0
    }

    /// The handle that the next entry gets.
    pub open spec fn next_handle(self) -> Handle
        recommends
            !self.full(),
    {
        Handle { slot: self.vacant[0], generation: self.generation as u64 }
    }

    /// The table after `value` was put into the first vacant slot.
    pub open spec fn insert(self, value: T) -> Self
        recommends
            !self.full(),
    {
        SlotTable {
            slots: self.slots.update(
                self.vacant[0] as int,
                Some(Entry { generation: self.generation as u64, value }),
            ),
            vacant: self.vacant.drop_first(),
            ..self
        }
    }

    /// The table after the entry that `h` names was taken out. Its slot will be
    /// the next one to be filled.
    pub open spec fn remove(self, h: Handle) -> Self
        recommends
            self.live(h),
    {
        SlotTable {
            slots: self.slots.update(h.slot as int, None),
            vacant: seq![h.slot] + self.vacant,
            generation: self.generation + 1,
        }
    }

    /// The table after the entry that `h` names was replaced by `value`.
    pub open spec fn set(self, h: Handle, value: T) -> Self
        recommends
            self.live(h),
    {
        SlotTable {
            slots: self.slots.update(
                h.slot as int,
                Some(Entry { generation: h.generation, value }),
            ),
            ..self
        }
    }

    /// The table with the same handles, whose rows hold `values` in this order.
    pub open spec fn with_values(self, values: Seq<T>) -> Self
        recommends
            values.len() == self.rows().len(),
    {
        SlotTable {
            slots: Seq::new(
                self.slots.len(),
                |i: int|
                    match self.slots[i] {
                        None => None,
                        Some(entry) => Some(
                            Entry {
                                generation: entry.generation,
                                value: values[rank(self.slots, i)],
                            },
                        ),
                    },
            ),
            ..self
        }
    }

    /// What holds of every slot table that came from an empty one.
    pub open spec fn wf(self) -> bool {
        &&& self.slots.len() <= usize::MAX
        &&& 0 <= self.generation <= u64::MAX
        &&& self.vacant.no_duplicates()
        &&& forall|k: int|
            0 <= k < self.vacant.len() ==> (#[trigger] self.vacant[k]) < self.slots.len()
                && self.slots[self.vacant[k] as int] is None
        &&& forall|i: int|
            0 <= i < self.slots.len() && (#[trigger] self.slots[i]) is None
                ==> self.vacant.contains(i as usize)
        &&& forall|i: int|
            0 <= i < self.slots.len() && (#[trigger] self.slots[i]) is Some
                ==> self.slots[i]->0.generation <= self.generation
        &&& self.rows().len() + self.vacant.len() == self.slots.len()
    }
}

/// The rows of a prefix depend on that prefix alone.
pub proof fn lemma_rows_prefix<T>(a: Seq<Option<Entry<T>>>, b: Seq<Option<Entry<T>>>, n: int)
    requires
        forall|i: int| 0 <= i < n ==> a[i] == b[i],
    ensures
        rows_of(a, n) == rows_of(b, n),
    decreases n,
{
    if n > 0 {
        lemma_rows_prefix(a, b, n - 1);
    }
}

/// Every row is an entry of its slot, and the rows stand in slot order.
pub proof fn lemma_rows_sound<T>(slots: Seq<Option<Entry<T>>>, n: int)
    requires
        0 <= n <= slots.len() <= usize::MAX,
    ensures
        rows_of(slots, n).len() <= n,
        forall|k: int|
            0 <= k < rows_of(slots, n).len() ==> (#[trigger] rows_of(slots, n)[k]).0.slot < n
                && slots[rows_of(slots, n)[k].0.slot as int] == Some(
                Entry {
                    generation: rows_of(slots, n)[k].0.generation,
                    value: rows_of(slots, n)[k].1,
                },
            ),
        forall|j: int, k: int|
            0 <= j < k < rows_of(slots, n).len() ==> (#[trigger] rows_of(slots, n)[j]).0.slot < (
            #[trigger] rows_of(slots, n)[k]).0.slot,
    decreases n,
{
    if n > 0 {
        lemma_rows_sound(slots, n - 1);
    }
}

/// The place in the rows of the entry in slot `i`.
pub open spec fn rank<T>(slots: Seq<Option<Entry<T>>>, i: int) -> int {
    rows_of(slots, i).len() as int
}

/// Every entry has its row.
pub proof fn lemma_rows_complete<T>(slots: Seq<Option<Entry<T>>>, n: int, i: int)
    requires
        0 <= i < n <= slots.len() <= usize::MAX,
        slots[i] is Some,
    ensures
        0 <= rank(slots, i) < rows_of(slots, n).len(),
        rows_of(slots, n)[rank(slots, i)] == (
            Handle { slot: i as usize, generation: slots[i]->0.generation },
            slots[i]->0.value,
        ),
    decreases n,
{
    if i < n - 1 {
        lemma_rows_complete(slots, n - 1, i);
    }
}

/// Replacing an entry replaces its row.
pub proof fn lemma_rows_set<T>(slots: Seq<Option<Entry<T>>>, n: int, i: int, g: u64, value: T)
    requires
        0 <= i < n <= slots.len() <= usize::MAX,
        slots[i] is Some,
    ensures
        rows_of(slots.update(i, Some(Entry { generation: g, value })), n) == rows_of(
            slots,
            n,
        ).update(rank(slots, i), (Handle { slot: i as usize, generation: g }, value)),
    decreases n,
{
    let after = slots.update(i, Some(Entry { generation: g, value }));
    lemma_rows_complete(slots, n, i);
    if i < n - 1 {
        lemma_rows_set(slots, n - 1, i, g, value);
        lemma_rows_complete(slots, n - 1, i);
    } else {
        lemma_rows_prefix(slots, after, n - 1);
    }
    assert(rows_of(after, n) =~= rows_of(slots, n).update(
        rank(slots, i),
        (Handle { slot: i as usize, generation: g }, value),
    ));
}

/// Filling an empty slot adds one row, at the place of the slot.
pub proof fn lemma_rows_insert<T>(slots: Seq<Option<Entry<T>>>, n: int, i: int, g: u64, value: T)
    requires
        0 <= i < n <= slots.len() <= usize::MAX,
        slots[i] is None,
    ensures
        0 <= rank(slots, i) <= rows_of(slots, n).len(),
        rows_of(slots.update(i, Some(Entry { generation: g, value })), n) == rows_of(
            slots,
            n,
        ).insert(rank(slots, i), (Handle { slot: i as usize, generation: g }, value)),
    decreases n,
{
    let after = slots.update(i, Some(Entry { generation: g, value }));
    let row = (Handle { slot: i as usize, generation: g }, value);
    if i < n - 1 {
        lemma_rows_insert(slots, n - 1, i, g, value);
    } else {
        lemma_rows_prefix(slots, after, n - 1);
    }
    assert(rows_of(after, n) =~= rows_of(slots, n).insert(rank(slots, i), row));
}

/// Emptying a slot takes its row away.
pub proof fn lemma_rows_remove<T>(slots: Seq<Option<Entry<T>>>, n: int, i: int)
    requires
        0 <= i < n <= slots.len() <= usize::MAX,
        slots[i] is Some,
    ensures
        0 <= rank(slots, i) < rows_of(slots, n).len(),
        rows_of(slots.update(i, None), n) == rows_of(slots, n).remove(rank(slots, i)),
    decreases n,
{
    let after = slots.update(i, None);
    lemma_rows_complete(slots, n, i);
    if i < n - 1 {
        lemma_rows_remove(slots, n - 1, i);
    } else {
        lemma_rows_prefix(slots, after, n - 1);
    }
    assert(rows_of(after, n) =~= rows_of(slots, n).remove(rank(slots, i)));
}

/// The rows of empty slots are none.
proof fn lemma_rows_none<T>(slots: Seq<Option<Entry<T>>>, n: int)
    requires
        forall|i: int| 0 <= i < n ==> slots[i] is None,
    ensures
        rows_of(slots, n).len() == 0,
    decreases n,
{
    if n > 0 {
        lemma_rows_none(slots, n - 1);
    }
}

impl<T> SlotTable<T> {
    /// An empty table is well formed and holds nothing.
    pub proof fn empty_is_wf(n: nat)
        requires
            n <= usize::MAX,
        ensures
            Self::empty(n).wf(),
            Self::empty(n).rows() == Seq::<(Handle, T)>::empty(),
    {
        let t = Self::empty(n);
        lemma_rows_none(t.slots, n as int);
        assert forall|i: int| 0 <= i < t.slots.len() && (#[trigger] t.slots[i]) is None implies
            t.vacant.contains(i as usize) by {
            assert(t.vacant[i] == i as usize);
        }
    }

    /// Putting an entry in keeps the table well formed, gives the entry a handle
    /// that names nothing before, and adds one row.
    pub proof fn insert_is_wf(self, value: T)
        requires
            self.wf(),
            !self.full(),
        ensures
            self.insert(value).wf(),
            !self.live(self.next_handle()),
            self.insert(value).live(self.next_handle()),
            self.insert(value).at(self.next_handle()) == value,
            self.insert(value).rows() == self.rows().insert(
                rank(self.slots, self.vacant[0] as int),
                (self.next_handle(), value),
            ),
            0 <= rank(self.slots, self.vacant[0] as int) <= self.rows().len(),
    {
        let t = self.insert(value);
        let i = self.vacant[0] as int;
        lemma_rows_insert(self.slots, self.slots.len() as int, i, self.generation as u64, value);
        assert forall|k: int| 0 <= k < t.vacant.len() implies (#[trigger] t.vacant[k])
            < t.slots.len() && t.slots[t.vacant[k] as int] is None by {
            assert(t.vacant[k] == self.vacant[k + 1]);
            assert(self.vacant[k + 1] != self.vacant[0]);
        }
        assert forall|j: int, k: int|
            0 <= j < t.vacant.len() && 0 <= k < t.vacant.len() && j != k implies t.vacant[j]
            != t.vacant[k] by {
            assert(self.vacant[j + 1] != self.vacant[k + 1]);
        }
        assert forall|j: int| 0 <= j < t.slots.len() && (#[trigger] t.slots[j]) is None implies
            t.vacant.contains(j as usize) by {
            assert(self.slots[j] is None);
            let k = choose|k: int| 0 <= k < self.vacant.len() && self.vacant[k] == j as usize;
            assert(k != 0);
            assert(t.vacant[k - 1] == j as usize);
        }
    }

    /// Taking an entry out keeps the table well formed and takes its row away.
    pub proof fn remove_is_wf(self, h: Handle)
        requires
            self.wf(),
            self.live(h),
            self.generation < u64::MAX,
        ensures
            self.remove(h).wf(),
            !self.remove(h).live(h),
            0 <= rank(self.slots, h.slot as int) < self.rows().len(),
            self.remove(h).rows() == self.rows().remove(rank(self.slots, h.slot as int)),
    {
        let t = self.remove(h);
        lemma_rows_remove(self.slots, self.slots.len() as int, h.slot as int);
        assert forall|k: int| 0 <= k < t.vacant.len() implies (#[trigger] t.vacant[k])
            < t.slots.len() && t.slots[t.vacant[k] as int] is None by {
            if k > 0 {
                assert(t.vacant[k] == self.vacant[k - 1]);
            }
        }
        assert forall|j: int, k: int|
            0 <= j < t.vacant.len() && 0 <= k < t.vacant.len() && j != k implies t.vacant[j]
            != t.vacant[k] by {
            if j > 0 {
                assert(t.vacant[j] == self.vacant[j - 1]);
                assert(self.slots[self.vacant[j - 1] as int] is None);
            }
            if k > 0 {
                assert(t.vacant[k] == self.vacant[k - 1]);
                assert(self.slots[self.vacant[k - 1] as int] is None);
            }
        }
        assert forall|j: int| 0 <= j < t.slots.len() && (#[trigger] t.slots[j]) is None implies
            t.vacant.contains(j as usize) by {
            if j == h.slot as int {
                assert(t.vacant[0] == h.slot);
            } else {
                assert(self.slots[j] is None);
                let k = choose|k: int| 0 <= k < self.vacant.len() && self.vacant[k] == j as usize;
                assert(t.vacant[k + 1] == j as usize);
            }
        }
    }

    /// Replacing an entry keeps the table well formed and replaces its row.
    pub proof fn set_is_wf(self, h: Handle, value: T)
        requires
            self.wf(),
            self.live(h),
        ensures
            self.set(h, value).wf(),
            self.set(h, value).at(h) == value,
            forall|g: Handle| self.set(h, value).live(g) <==> self.live(g),
            0 <= rank(self.slots, h.slot as int) < self.rows().len(),
            self.rows()[rank(self.slots, h.slot as int)] == (h, self.at(h)),
            self.set(h, value).rows() == self.rows().update(
                rank(self.slots, h.slot as int),
                (h, value),
            ),
    {
        let t = self.set(h, value);
        let n = self.slots.len() as int;
        lemma_rows_complete(self.slots, n, h.slot as int);
        lemma_rows_set(self.slots, n, h.slot as int, h.generation, value);
        assert forall|k: int| 0 <= k < t.vacant.len() implies (#[trigger] t.vacant[k])
            < t.slots.len() && t.slots[t.vacant[k] as int] is None by {
            assert(self.slots[self.vacant[k] as int] is None);
        }
        assert forall|j: int| 0 <= j < t.slots.len() && (#[trigger] t.slots[j]) is None implies
            t.vacant.contains(j as usize) by {
            assert(self.slots[j] is None);
        }
    }

    /// The rows are the live entries, each once, in slot order.
    pub proof fn rows_are_live(self)
        requires
            self.slots.len() <= usize::MAX,
        ensures
            forall|k: int|
                0 <= k < self.rows().len() ==> self.live((#[trigger] self.rows()[k]).0) && self.at(
                    self.rows()[k].0,
                ) == self.rows()[k].1,
            forall|j: int, k: int|
                0 <= j < k < self.rows().len() ==> (#[trigger] self.rows()[j]).0.slot < (
                #[trigger] self.rows()[k]).0.slot,
            forall|h: Handle|
                #[trigger] self.live(h) ==> 0 <= rank(self.slots, h.slot as int)
                    < self.rows().len() && self.rows()[rank(self.slots, h.slot as int)] == (
                    h,
                    self.at(h),
                ),
    {
        let n = self.slots.len() as int;
        lemma_rows_sound(self.slots, n);
        assert forall|h: Handle| #[trigger] self.live(h) implies 0 <= rank(
            self.slots,
            h.slot as int,
        ) < self.rows().len() && self.rows()[rank(self.slots, h.slot as int)] == (
            h,
            self.at(h),
        ) by {
            lemma_rows_complete(self.slots, n, h.slot as int);
        }
    }
}

/// The values of some rows.
pub open spec fn values_of<T>(rows: Seq<(Handle, T)>) -> Seq<T> {
    Seq::new(rows.len(), |k: int| rows[k].1)
}

/// Two tables that have the same slots taken give their entries the same ranks.
proof fn lemma_same_rank<T>(a: Seq<Option<Entry<T>>>, b: Seq<Option<Entry<T>>>, n: int)
    requires
        0 <= n <= a.len() == b.len(),
        forall|i: int| 0 <= i < a.len() ==> (a[i] is Some <==> b[i] is Some),
    ensures
        rank(a, n) == rank(b, n),
    decreases n,
{
    if n > 0 {
        lemma_same_rank(a, b, n - 1);
    }
}

impl<T> SlotTable<T> {
    /// Nothing changes if every row keeps its value.
    pub proof fn same_values(self)
        requires
            self.slots.len() <= usize::MAX,
        ensures
            self.with_values(values_of(self.rows())) == self,
    {
        let t = self.with_values(values_of(self.rows()));
        assert forall|i: int| 0 <= i < self.slots.len() implies t.slots[i] == self.slots[i] by {
            if self.slots[i] is Some {
                lemma_rows_complete(self.slots, self.slots.len() as int, i);
            }
        }
        assert(t =~= self);
    }

    /// Replacing the entry of the k-th row replaces the k-th value.
    pub proof fn set_value(self, values: Seq<T>, k: int, value: T)
        requires
            self.slots.len() <= usize::MAX,
            values.len() == self.rows().len(),
            0 <= k < values.len(),
        ensures
            self.with_values(values).live(self.rows()[k].0),
            self.with_values(values).set(self.rows()[k].0, value) == self.with_values(
                values.update(k, value),
            ),
    {
        let h = self.rows()[k].0;
        let a = self.with_values(values).set(h, value);
        let b = self.with_values(values.update(k, value));
        self.rows_are_live();
        assert(self.live(h));
        assert forall|i: int| 0 <= i < self.slots.len() implies a.slots[i] == b.slots[i] by {
            if self.slots[i] is Some {
                lemma_rows_complete(self.slots, self.slots.len() as int, i);
                let r = rank(self.slots, i);
                if i == h.slot {
                    assert(self.rows()[r].0.slot == self.rows()[k].0.slot);
                    assert(r == k);
                } else {
                    assert(r != k);
                }
            }
        }
        assert(a =~= b);
    }

    /// New values leave the handles, the order of the rows and the ranks alone.
    pub proof fn with_values_rows(self, values: Seq<T>)
        requires
            self.wf(),
            values.len() == self.rows().len(),
        ensures
            self.with_values(values).wf(),
            forall|h: Handle| self.with_values(values).live(h) <==> self.live(h),
            self.with_values(values).rows() == Seq::new(
                values.len(),
                |k: int| (self.rows()[k].0, values[k]),
            ),
    {
        let t = self.with_values(values);
        let n = self.slots.len() as int;
        self.rows_are_live();
        t.rows_are_live();
        lemma_same_rank(self.slots, t.slots, n);
        let expected = Seq::new(values.len(), |k: int| (self.rows()[k].0, values[k]));
        assert forall|k: int| 0 <= k < values.len() implies t.rows()[k] == expected[k] by {
            let h = self.rows()[k].0;
            let i = h.slot as int;
            assert(self.live(h));
            lemma_rows_complete(self.slots, n, i);
            lemma_same_rank(self.slots, t.slots, i);
            lemma_rows_complete(t.slots, n, i);
            let r = rank(self.slots, i);
            assert(self.rows()[r].0.slot == self.rows()[k].0.slot);
            assert(r == k);
        }
        assert(t.rows() =~= expected);
        assert forall|k: int| 0 <= k < t.vacant.len() implies (#[trigger] t.vacant[k])
            < t.slots.len() && t.slots[t.vacant[k] as int] is None by {
            assert(self.slots[self.vacant[k] as int] is None);
        }
        assert forall|j: int| 0 <= j < t.slots.len() && (#[trigger] t.slots[j]) is None implies
            t.vacant.contains(j as usize) by {
            assert(self.slots[j] is None);
        }
    }
}

} // verus!
