//! The trace of a run: the random choices that it made, each under its
//! variable address.
use vstd::prelude::*;
use crate::types::{Float, Val, Value};

verus! {

/// The address of a random choice: the address of the `sample` node, and the
/// number of `sample` and `observe` calls that the run had made before.
pub type VariableAddress = (usize, usize);

/// One random choice: its address, its value and the log-density of the
/// value.
#[derive(Debug, PartialEq)]
pub struct TraceEntry {
    pub address: VariableAddress,
    pub value: Value,
    pub log_weight: Float,
}

/// The random choices of a run: a map from variable addresses to values and
/// log-densities.
///
/// The entries stand by rising call number, and by rising node address
/// among those of one call number, so no address occurs twice. A run makes
/// each choice at a later call than the one before, so its entries stand in
/// the order in which it made them.
#[derive(Debug, PartialEq)]
pub struct Trace {
    pub entries: Vec<TraceEntry>,
}

/// Whether the address `a` stands before the address `b`: it has the lower
/// call number, or the same call number and the lower node address.
pub open spec fn before(a: VariableAddress, b: VariableAddress) -> bool {
    a.1 < b.1 || (a.1 == b.1 && a.0 < b.0)
}

/// Whether the entries stand in strictly rising order of their addresses.
pub open spec fn rising(entries: Seq<TraceEntry>) -> bool {
    forall|i: int, j: int|
        0 <= i < j < entries.len() ==> before(
            (#[trigger] entries[i]).address,
            (#[trigger] entries[j]).address,
        )
}

/// Whether an entry has the address.
pub open spec fn holds(entries: Seq<TraceEntry>, key: VariableAddress) -> bool {
    exists|i: int| 0 <= i < entries.len() && (#[trigger] entries[i]).address == key
}

/// The place of an entry that has the address.
pub open spec fn place_of(entries: Seq<TraceEntry>, key: VariableAddress) -> int {
    choose|i: int| 0 <= i < entries.len() && (#[trigger] entries[i]).address == key
}

/// The map from the addresses of the entries to their values and
/// log-densities.
pub open spec fn as_map(entries: Seq<TraceEntry>) -> Map<VariableAddress, (Val, Float)> {
    Map::new(
        |key: VariableAddress| holds(entries, key),
        |key: VariableAddress|
            (
                entries[place_of(entries, key)].value@,
                entries[place_of(entries, key)].log_weight,
            ),
    )
}

impl View for Trace {
    type V = Map<VariableAddress, (Val, Float)>;

    open spec fn view(&self) -> Map<VariableAddress, (Val, Float)> {
        as_map(self.entries@)
    }
}

impl Trace {
    /// The trace's invariant: the entries stand in rising order.
    pub open spec fn wf(&self) -> bool {
        rising(self.entries@)
    }

    /// The trace of a run that has made no choice.
    pub fn new() -> (r: Trace)
        ensures
            r.wf(),
            r.entries@.len() == 0,
            r@ == Map::<VariableAddress, (Val, Float)>::empty(),
    {
        let r = Trace { entries: Vec::new() };
        r
    }

    /// The number of choices.
    pub open spec fn spec_len(&self) -> usize {
        self.entries.len()
    }

    /// The number of choices.
    #[verifier::when_used_as_spec(spec_len)]
    pub fn len(&self) -> (r: usize)
        ensures
            r == self.entries@.len(),
    {
        self.entries.len()
    }

    /// The address of the `index`-th choice.
    pub fn key_at(&self, index: usize) -> (r: VariableAddress)
        requires
            index < self.entries@.len(),
        ensures
            r == self.entries@[index as int].address,
    {
        self.entries[index].address
    }

    /// The place at which the address stands or would stand: the entries
    /// before it stand before the address, and no other does.
    fn position(&self, key: VariableAddress) -> (r: usize)
        requires
            self.wf(),
        ensures
            r <= self.entries@.len(),
            forall|i: int| 0 <= i < r ==> before((#[trigger] self.entries@[i]).address, key),
            forall|i: int|
                r <= i < self.entries@.len() ==> !before((#[trigger] self.entries@[i]).address, key),
    {
        let mut low: usize = 0;
        let mut high: usize = self.entries.len();
        while low < high
            invariant
                low <= high <= self.entries@.len(),
                self.wf(),
                forall|i: int| 0 <= i < low ==> before((#[trigger] self.entries@[i]).address, key),
                forall|i: int|
                    high <= i < self.entries@.len() ==> !before(
                        (#[trigger] self.entries@[i]).address,
                        key,
                    ),
            decreases high - low,
        {
            let mid = low + (high - low) / 2;
            let at = self.entries[mid].address;
            if at.1 < key.1 || (at.1 == key.1 && at.0 < key.0) {
                low = mid + 1;
            } else {
                high = mid;
            }
        }
        low
    }

    /// The entry under `key`, if the trace has one.
    pub fn get(&self, key: VariableAddress) -> (r: Option<&TraceEntry>)
        requires
            self.wf(),
        ensures
            match r {
                Some(entry) => {
                    &&& self@.dom().contains(key)
                    &&& entry.address == key
                    &&& self@[key] == (entry.value@, entry.log_weight)
                },
                None => !self@.dom().contains(key),
            },
    {
        let at = self.position(key);
        if at < self.entries.len() {
            let entry = &self.entries[at];
            if entry.address.0 == key.0 && entry.address.1 == key.1 {
                return Some(entry);
            }
        }
        None
    }

    /// Puts the choice under `key`, in place of the one that the trace may
    /// hold there.
    pub fn insert(&mut self, key: VariableAddress, value: Value, log_weight: Float)
        requires
            old(self).wf(),
        ensures
            final(self).wf(),
            final(self)@ == old(self)@.insert(key, (value@, log_weight)),
            final(self).entries@.len() == if old(self)@.dom().contains(key) {
                old(self).entries@.len()
            } else {
                old(self).entries@.len() + 1
            },
            (forall|i: int| 0 <= i < old(self).entries@.len() ==> before(
                (#[trigger] old(self).entries@[i]).address,
                key,
            )) ==> final(self).entries@ == old(self).entries@.push(
                TraceEntry { address: key, value, log_weight },
            ),
    {
        let ghost before_entries = self.entries@;
        let at = self.position(key);
        let entry = TraceEntry { address: key, value, log_weight };
        let replace = at < self.entries.len() && self.entries[at].address.0 == key.0
            && self.entries[at].address.1 == key.1;
        if replace {
            self.entries.set(at, entry);
        } else {
            self.entries.insert(at, entry);
        }
        let ghost after = self.entries@;
        proof {
            if replace {
                assert forall|k: VariableAddress| holds(after, k) <==> holds(before_entries, k) by {
                    if holds(after, k) {
                        let i = place_of(after, k);
                        assert(before_entries[i].address == k);
                    }
                    if holds(before_entries, k) {
                        let i = place_of(before_entries, k);
                        assert(after[i].address == k);
                    }
                }
            } else {
                assert forall|k: VariableAddress| holds(after, k) <==> (holds(before_entries, k) || k
                    == key) by {
                    if holds(after, k) {
                        let i = place_of(after, k);
                        if i < at {
                            assert(before_entries[i].address == k);
                        } else if i > at {
                            assert(before_entries[i - 1].address == k);
                        }
                    }
                    if holds(before_entries, k) {
                        let i = place_of(before_entries, k);
                        if i < at {
                            assert(after[i].address == k);
                        } else {
                            assert(after[i + 1].address == k);
                        }
                    }
                    if k == key {
                        assert(after[at as int].address == k);
                    }
                }
                if forall|i: int|
                    0 <= i < before_entries.len() ==> before(
                        (#[trigger] before_entries[i]).address,
                        key,
                    ) {
                }
            }
            if forall|i: int|
                0 <= i < before_entries.len() ==> before(
                    (#[trigger] before_entries[i]).address,
                    key,
                ) {
            }
        }
    }
}

} // verus!
