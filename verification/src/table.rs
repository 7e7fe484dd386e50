//! The transposition cache: a direct-mapped table from position hashes to
//! what the search found there, which prefers the deeper of two entries.

use vstd::prelude::*;
use vstd::arithmetic::power2::{lemma_pow2_unfold, pow2};
use crate::board::{Move, Position};
use crate::evaluation::Evaluation;

verus! {

/// How the stored value relates to the true one.
#[derive(Debug, Copy, Clone, Eq, PartialEq, Structural)]
pub enum TableEntryKind {
    Exact,
    LowerBound,
    UpperBound,
}

#[derive(Debug, Copy, Clone)]
pub struct TableEntry {
    pub kind: TableEntryKind,
    pub value: Evaluation,
    /// The depth that was still to be searched below the position.
    pub depth: u8,
    pub best_move: Move,
}

/// The bytes that one slot of the table is counted as.
pub const ENTRY_BYTES: usize = 24;

/// A slot: nothing, or a hash and its entry.
pub type Slot = Option<(u64, TableEntry)>;

/// The slot that a hash falls into: its low bits.
pub open spec fn slot_index(hash: u64, mask: usize) -> int {
    (hash & (mask as u64)) as int
}

/// What a slot holds after `entry` was offered under `hash`: an empty slot
/// takes it, a slot of the same hash takes it, and a slot of another hash
/// takes it only if it is strictly deeper.
pub open spec fn offer(slot: Slot, hash: u64, entry: TableEntry) -> Slot {
    match slot {
        None => Some((hash, entry)),
        Some((resident_hash, resident)) => if resident_hash == hash || entry.depth > resident.depth {
            Some((hash, entry))
        } else {
            slot
        },
    }
}

/// The entry that a probe for `hash` finds in a slot.
pub open spec fn probe(slot: Slot, hash: u64) -> Option<TableEntry> {
    match slot {
        Some((resident_hash, resident)) => if resident_hash == hash {
            Some(resident)
        } else {
            None
        },
        None => None,
    }
}

/// How many of the slots are taken.
pub open spec fn taken(slots: Seq<Slot>) -> nat
    decreases slots.len(),
{
    if slots.len() == 0 {
        0
    } else {
        taken(slots.drop_last()) + if slots.last().is_some() { 1nat } else { 0nat }
    }
}

/// What a slot holds after a run of offers, the first offer first.
pub open spec fn replay(writes: Seq<(u64, TableEntry)>) -> Slot
    decreases writes.len(),
{
    if writes.len() == 0 {
        None
    } else {
        offer(replay(writes.drop_last()), writes.last().0, writes.last().1)
    }
}

/// The last offer of a run that found the slot empty or holding its own hash;
/// later offers only got in by being deeper.
pub open spec fn last_settled(writes: Seq<(u64, TableEntry)>) -> int
    decreases writes.len(),
{
    if writes.len() == 0 {
        0
    } else {
        match replay(writes.drop_last()) {
            None => writes.len() - 1,
            Some((resident_hash, _)) => if resident_hash == writes.last().0 {
                writes.len() - 1
            } else {
                last_settled(writes.drop_last())
            },
        }
    }
}

pub proof fn lemma_taken_bounds(slots: Seq<Slot>)
    ensures
        taken(slots) <= slots.len(),
    decreases slots.len(),
{
    if slots.len() > 0 {
        lemma_taken_bounds(slots.drop_last());
    }
}

/// Filling or refilling one slot changes the count by what that slot adds.
pub proof fn lemma_taken_update(slots: Seq<Slot>, i: int, slot: Slot)
    requires
        0 <= i < slots.len(),
    ensures
        taken(slots.update(i, slot)) + (if slots[i].is_some() { 1int } else { 0int })
            == taken(slots) + (if slot.is_some() { 1int } else { 0int }),
    decreases slots.len(),
{
    let updated = slots.update(i, slot);
    if i == slots.len() - 1 {
        assert(updated.drop_last() =~= slots.drop_last());
    } else {
        assert(updated.drop_last() =~= slots.drop_last().update(i, slot));
        lemma_taken_update(slots.drop_last(), i, slot);
    }
}

/// After any run of offers to one slot, the slot holds one of the offers made
/// since the last one that found the slot empty or holding its own hash, and
/// no offer made since then is deeper than it.
pub proof fn lemma_resident_is_deepest_since_settled(writes: Seq<(u64, TableEntry)>)
    requires
        writes.len() > 0,
    ensures
        0 <= last_settled(writes) < writes.len(),
        replay(writes).is_some(),
        exists|i: int|
            last_settled(writes) <= i < writes.len() && replay(writes) == Some(#[trigger] writes[i]),
        forall|i: int|
            last_settled(writes) <= i < writes.len() ==> (#[trigger] writes[i]).1.depth
                <= replay(writes).unwrap().1.depth,
    decreases writes.len(),
{
    let before = writes.drop_last();
    let last = writes.last();
    let n = writes.len() - 1;
    if before.len() == 0 {
        assert(replay(before).is_none());
        assert(replay(writes) == Some(writes[n]));
    } else {
        lemma_resident_is_deepest_since_settled(before);
        let resident = replay(before).unwrap();
        if resident.0 == last.0 {
            assert(replay(writes) == Some(writes[n]));
        } else if last.1.depth > resident.1.depth {
            assert(replay(writes) == Some(writes[n]));
            assert(last_settled(writes) == last_settled(before));
            assert forall|i: int| last_settled(writes) <= i < writes.len() implies (
            #[trigger] writes[i]).1.depth <= replay(writes).unwrap().1.depth by {
                if i < n {
                    assert(writes[i] == before[i]);
                }
            }
        } else {
            assert(replay(writes) == replay(before));
            assert(last_settled(writes) == last_settled(before));
            let k = choose|i: int|
                last_settled(before) <= i < before.len() && replay(before) == Some(
                    #[trigger] before[i],
                );
            assert(writes[k] == before[k]);
            assert forall|i: int| last_settled(writes) <= i < writes.len() implies (
            #[trigger] writes[i]).1.depth <= replay(writes).unwrap().1.depth by {
                if i < n {
                    assert(writes[i] == before[i]);
                }
            }
        }
    }
}

/// Whether no offer of a run was shallower than an entry of its own hash that
/// it replaced.
pub open spec fn never_lowers(writes: Seq<(u64, TableEntry)>) -> bool
    decreases writes.len(),
{
    if writes.len() == 0 {
        true
    } else {
        never_lowers(writes.drop_last()) && match replay(writes.drop_last()) {
            Some((resident_hash, resident)) => resident_hash == writes.last().0
                ==> resident.depth <= writes.last().1.depth,
            None => true,
        }
    }
}

/// Where no offer lowers the depth held for its own hash, the slot ends up
/// with the greatest depth of the whole run.
pub proof fn lemma_resident_is_deepest(writes: Seq<(u64, TableEntry)>)
    requires
        writes.len() > 0,
        never_lowers(writes),
    ensures
        replay(writes).is_some(),
        exists|i: int| 0 <= i < writes.len() && replay(writes) == Some(#[trigger] writes[i]),
        forall|i: int|
            0 <= i < writes.len() ==> (#[trigger] writes[i]).1.depth
                <= replay(writes).unwrap().1.depth,
    decreases writes.len(),
{
    let before = writes.drop_last();
    let n = writes.len() - 1;
    if before.len() == 0 {
        assert(replay(before).is_none());
        assert(replay(writes) == Some(writes[n]));
    } else {
        lemma_resident_is_deepest(before);
        let k = choose|i: int| 0 <= i < before.len() && replay(before) == Some(#[trigger] before[i]);
        assert(writes[k] == before[k]);
        if replay(writes) != replay(before) {
            assert(replay(writes) == Some(writes[n]));
        }
        assert forall|i: int| 0 <= i < writes.len() implies (#[trigger] writes[i]).1.depth
            <= replay(writes).unwrap().1.depth by {
            if i < n {
                assert(writes[i] == before[i]);
            }
        }
    }
}

#[derive(Debug)]
pub struct TranspositionTable {
    table: Vec<Slot>,
    len: usize,
    mask: usize,
}

impl View for TranspositionTable {
    type V = Seq<Slot>;

    closed spec fn view(&self) -> Seq<Slot> {
        self.table@
    }
}

impl TranspositionTable {
    /// The bits of a hash that pick the slot.
    pub closed spec fn mask(&self) -> usize {
        self.mask
    }

    /// The table has a power of two of slots, and its count of taken slots is right.
    pub closed spec fn wf(&self) -> bool {
        &&& self.table@.len() == self.mask + 1
        &&& exists|k: nat| self.table@.len() == pow2(k)
        &&& self.len == taken(self.table@)
    }

    /// Properties of a well-formed table that callers may use.
    pub proof fn lemma_wf(&self)
        requires
            self.wf(),
        ensures
            self@.len() == self.mask() + 1,
            exists|k: nat| self@.len() == pow2(k),
            forall|hash: u64| 0 <= #[trigger] slot_index(hash, self.mask()) < self@.len(),
    {
        let mask = self.mask;
        assert forall|hash: u64| 0 <= #[trigger] slot_index(hash, mask) < self@.len() by {
            let m: u64 = mask as u64;
            assert(hash & m <= m) by (bit_vector);
        }
    }

    /// A table with the least power of two of slots that is at least
    /// `entries`, all of them empty.
    pub fn with_rounded_entries(entries: usize) -> (r: TranspositionTable)
        requires
            entries <= usize::MAX / 2 + 1,
        ensures
            r.wf(),
            r@.len() >= entries,
            r@.len() >= 1,
            r@.len() == 1 || r@.len() / 2 < entries,
            forall|i: int| 0 <= i < r@.len() ==> r@[i].is_none(),
            taken(r@) == 0,
    {
        let mut slots: usize = 1;
        let ghost mut k: nat = 0;
        proof {
            lemma_pow2_unfold(1);
            vstd::arithmetic::power2::lemma2_to64();
        }
        while slots < entries
            invariant
                slots == pow2(k),
                slots >= 1,
                slots == 1 || slots / 2 < entries,
                entries <= usize::MAX / 2 + 1,
            decreases (if slots < entries { entries - slots } else { 0 }),
        {
            let doubled: usize = slots * 2;
            proof {
                lemma_pow2_unfold(k + 1);
                k = k + 1;
                assert(doubled > slots);
            }
            slots = doubled;
        }
        let mut table: Vec<Slot> = Vec::new();
        let mut i: usize = 0;
        while i < slots
            invariant
                i <= slots,
                table@.len() == i,
                forall|j: int| 0 <= j < i ==> table@[j].is_none(),
                taken(table@) == 0,
            decreases slots - i,
        {
            let ghost before = table@;
            table.push(None);
            proof {
                assert(table@.drop_last() =~= before);
            }
            i = i + 1;
        }
        TranspositionTable { table, len: 0, mask: slots - 1 }
    }

    /// A table for `size` bytes: one slot for every `ENTRY_BYTES` of them,
    /// rounded up to a power of two.
    pub fn with_rounded_size(size: usize) -> (r: TranspositionTable)
        ensures
            r.wf(),
            r@.len() >= size / ENTRY_BYTES,
            r@.len() >= 1,
            r@.len() == 1 || r@.len() / 2 < size / ENTRY_BYTES,
            forall|i: int| 0 <= i < r@.len() ==> r@[i].is_none(),
            taken(r@) == 0,
    {
        Self::with_rounded_entries(size / ENTRY_BYTES)
    }

    /// The entry stored under `hash`, if the slot of `hash` holds that hash.
    pub fn probe_hash(&self, hash: u64) -> (r: Option<TableEntry>)
        requires
            self.wf(),
        ensures
            r == probe(self@[slot_index(hash, self.mask())], hash),
    {
        proof {
            self.lemma_wf();
            assert(0 <= slot_index(hash, self.mask()) < self@.len());
        }
        let index: usize = (hash & (self.mask as u64)) as usize;
        match self.table[index] {
            Some((resident_hash, resident)) => if resident_hash == hash {
                Some(resident)
            } else {
                None
            },
            None => None,
        }
    }

    /// Offers `entry` to the slot of `hash`.
    pub fn offer_hash(&mut self, hash: u64, entry: TableEntry)
        requires
            old(self).wf(),
        ensures
            final(self).wf(),
            final(self).mask() == old(self).mask(),
            final(self)@ == old(self)@.update(
                slot_index(hash, old(self).mask()),
                offer(old(self)@[slot_index(hash, old(self).mask())], hash, entry),
            ),
    {
        proof {
            self.lemma_wf();
            lemma_taken_bounds(self.table@);
            assert(0 <= slot_index(hash, self.mask()) < self@.len());
        }
        let index: usize = (hash & (self.mask as u64)) as usize;
        let replace: bool = match self.table[index] {
            Some((resident_hash, resident)) => resident_hash == hash || entry.depth > resident.depth,
            None => true,
        };
        proof {
            lemma_taken_update(self.table@, index as int, Some((hash, entry)));
            lemma_taken_bounds(self.table@.update(index as int, Some((hash, entry))));
        }
        if replace {
            if self.table[index].is_none() {
                let slots: usize = self.table.len();
                assert(self.len < slots);
                self.len = self.len + 1;
            }
            self.table.set(index, Some((hash, entry)));
        } else {
            assert(self.table@ =~= old(self).table@.update(index as int, old(self).table@[index as int]));
        }
    }

    /// The entry stored for the position `board`, if there is one.
    pub fn get(&self, board: &Position) -> (r: Option<TableEntry>)
        requires
            self.wf(),
        ensures
            r == probe(self@[slot_index(board@.hash, self.mask())], board@.hash),
    {
        self.probe_hash(board.hash())
    }

    /// Offers `entry` to the slot of the position `board`.
    pub fn set(&mut self, board: &Position, entry: TableEntry)
        requires
            old(self).wf(),
        ensures
            final(self).wf(),
            final(self).mask() == old(self).mask(),
            final(self)@ == old(self)@.update(
                slot_index(board@.hash, old(self).mask()),
                offer(old(self)@[slot_index(board@.hash, old(self).mask())], board@.hash, entry),
            ),
    {
        self.offer_hash(board.hash(), entry)
    }

    /// The number of slots.
    pub fn capacity(&self) -> (r: usize)
        ensures
            r == self@.len(),
    {
        self.table.len()
    }

    /// The number of slots that hold an entry.
    pub fn len(&self) -> (r: usize)
        requires
            self.wf(),
        ensures
            r == taken(self@),
    {
        self.len
    }
}

} // verus!
