//! A fixed-capacity associative ring keyed by 16-bit sequence number.
//!
//! Each slot holds one entry plus a 32-bit tag naming the sequence the slot
//! currently serves; the tag `SEQUENCE_BUFFER_EMPTY` (which no 16-bit
//! sequence can equal) marks the slot empty. Sequence `s` always maps to
//! slot `s % capacity`, so lookup is O(1) and the tag tells a live entry
//! from a stale alias after wraparound. A stored entry is changed by
//! taking it out (`remove`) and writing it back into its slot (`restore`),
//! which keeps the window edge where it is.

use vstd::prelude::*;

use crate::bits::bit_set;
use crate::bits::lemma_set_bit;
use crate::error::ReliableError;
use crate::sequence::lemma_sub_then_add;
use crate::sequence::sequence_add;
use crate::sequence::sequence_greater_than;
use crate::sequence::sequence_less_than;
use crate::sequence::sequence_sub;
use crate::sequence::spec_sequence_add;
use crate::sequence::spec_sequence_distance;
use crate::sequence::spec_sequence_greater_than;
use crate::sequence::spec_sequence_less_than;
use crate::sequence::spec_sequence_sub;

verus! {

/// Tag of an empty slot; wider than any 16-bit sequence number so the two
/// can never be confused, not even for sequence `0xFFFF`.
pub const SEQUENCE_BUFFER_EMPTY: u32 = 0xFFFF_FFFF;

/// Ring of `capacity` slots, each tagged with the sequence it stores.
pub struct SequenceBuffer<T> {
    /// Slot payloads; `None` in every slot whose tag is empty.
    pub entries: Vec<Option<T>>,
    /// Slot tags: the stored sequence, or `SEQUENCE_BUFFER_EMPTY`.
    pub entry_sequences: Vec<u32>,
    /// One past the highest sequence ever inserted (wrapping).
    pub sequence: u16,
}

impl<T> SequenceBuffer<T> {
    /// Number of slots.
    pub open spec fn spec_capacity(self) -> int {
        self.entries@.len() as int
    }

    /// The slot serving sequence `s`.
    pub open spec fn spec_index_of(self, s: u16) -> int {
        s as int % self.spec_capacity()
    }

    /// Structural soundness: parallel arrays of equal, bounded length, and
    /// every non-empty tag is a 16-bit sequence stored in its own slot with
    /// a payload present.
    pub open spec fn wf(self) -> bool {
        &&& self.entry_sequences@.len() == self.entries@.len()
        &&& 1 <= self.entries@.len() <= 32767
        &&& forall|i: int|
            0 <= i < self.entries@.len() ==> {
                ||| self.entry_sequences@[i] == SEQUENCE_BUFFER_EMPTY
                ||| (self.entry_sequences@[i] <= 0xFFFF
                    && self.entry_sequences@[i] as int % self.spec_capacity() == i
                    && self.entries@[i] is Some)
            }
    }

    /// The buffer holds live data for sequence `s`.
    pub open spec fn live(self, s: u16) -> bool {
        self.entry_sequences@[self.spec_index_of(s)] == s as u32
    }

    /// The entry stored for sequence `s` (meaningful only when live).
    pub open spec fn at(self, s: u16) -> T {
        self.entries@[self.spec_index_of(s)].unwrap()
    }

    /// `s` is not too old for the window ending at `self.sequence`.
    pub open spec fn spec_check_sequence(self, s: u16) -> bool {
        !spec_sequence_less_than(
            s,
            spec_sequence_sub(self.sequence, self.spec_capacity() as u16),
        )
    }

    /// Slot `slot` is the home of some sequence in the open-below interval
    /// `(current, current + distance]` of the sequence circle.
    pub open spec fn slot_cleared_in_range(
        current: u16,
        distance: int,
        cap: int,
        slot: int,
    ) -> bool {
        exists|j: int|
            1 <= j <= distance && (#[trigger] spec_sequence_add(current, j as u16)) as int % cap
                == slot
    }

    /// `k`'s slot is overwritten when inserting `s` advances the window
    /// from `pre.sequence`.
    pub open spec fn displaced_by_insert(pre: Self, s: u16, k: u16) -> bool {
        &&& spec_sequence_greater_than(spec_sequence_add(s, 1), pre.sequence)
        &&& Self::slot_cleared_in_range(
            pre.sequence,
            spec_sequence_distance(pre.sequence, s),
            pre.spec_capacity(),
            pre.spec_index_of(k),
        )
    }

    /// Everything a successful `insert` of `value` at `s` does to the buffer.
    pub open spec fn inserted(pre: Self, post: Self, s: u16, value: T) -> bool {
        &&& post.spec_capacity() == pre.spec_capacity()
        &&& post.sequence == (if spec_sequence_greater_than(
            spec_sequence_add(s, 1),
            pre.sequence,
        ) {
            spec_sequence_add(s, 1)
        } else {
            pre.sequence
        })
        &&& post.live(s)
        &&& post.at(s) == value
        &&& forall|k: u16|
            k != s ==> ((#[trigger] post.live(k)) <==> (pre.live(k)
                && pre.spec_index_of(k) != pre.spec_index_of(s)
                && !Self::displaced_by_insert(pre, s, k)))
        &&& forall|k: u16| k != s && #[trigger] post.live(k) ==> post.at(k) == pre.at(k)
    }

    /// A buffer with every slot empty and the window starting at zero.
    pub fn with_capacity(capacity: usize) -> (r: Self)
        requires
            1 <= capacity <= 32767,
        ensures
            r.wf(),
            r.spec_capacity() == capacity,
            r.sequence == 0,
            forall|s: u16| !r.live(s),
    {
        let mut entries: Vec<Option<T>> = Vec::new();
        let mut entry_sequences: Vec<u32> = Vec::new();
        let mut i: usize = 0;
        while i < capacity
            invariant
                i <= capacity,
                entries@.len() == i,
                entry_sequences@.len() == i,
                forall|j: int| 0 <= j < i ==> entries@[j] is None,
                forall|j: int| 0 <= j < i ==> entry_sequences@[j] == SEQUENCE_BUFFER_EMPTY,
            decreases capacity - i,
        {
            entries.push(None);
            entry_sequences.push(SEQUENCE_BUFFER_EMPTY);
            i += 1;
        }
        SequenceBuffer { entries, entry_sequences, sequence: 0 }
    }

    /// Number of slots.
    pub fn capacity(&self) -> (r: usize)
        ensures
            r == self.spec_capacity(),
    {
        self.entries.len()
    }

    /// One past the highest sequence ever inserted.
    pub fn sequence(&self) -> (r: u16)
        ensures
            r == self.sequence,
    {
        self.sequence
    }

    /// Screens an incoming sequence: false when it is older than the
    /// window `(sequence - capacity, sequence]` can ever represent.
    pub fn check_sequence(&self, s: u16) -> (r: bool)
        requires
            self.wf(),
        ensures
            r == self.spec_check_sequence(s),
    {
        let cutoff = sequence_sub(self.sequence, self.entries.len() as u16);
        !sequence_less_than(s, cutoff)
    }

    /// The entry stored for `s`, if its slot currently serves `s`.
    pub fn get(&self, s: u16) -> (r: Option<&T>)
        requires
            self.wf(),
        ensures
            r is Some <==> self.live(s),
            r is Some ==> *r.unwrap() == self.at(s),
    {
        let index = (s as usize) % self.entries.len();
        if self.entry_sequences[index] == s as u32 {
            self.entries[index].as_ref()
        } else {
            None
        }
    }

    /// Stores `data` for sequence `s`. A sequence below the window is
    /// refused as stale; otherwise every slot between the old window edge
    /// and `s` is emptied first, so that an old entry can never masquerade
    /// under the alias of a sequence that was skipped, and the window edge
    /// advances to `s + 1` when `s` lies ahead of it.
    #[verifier::rlimit(100)]
    pub fn insert(&mut self, data: T, s: u16) -> (r: Result<u16, ReliableError>)
        requires
            old(self).wf(),
        ensures
            final(self).wf(),
            !old(self).spec_check_sequence(s) ==> r == Err::<u16, ReliableError>(
                ReliableError::StaleSequence,
            ) && *final(self) == *old(self),
            old(self).spec_check_sequence(s) ==> r == Ok::<u16, ReliableError>(s)
                && Self::inserted(*old(self), *final(self), s, data),
            old(self).spec_check_sequence(s) && spec_sequence_greater_than(
                spec_sequence_add(s, 1),
                old(self).sequence,
            ) ==> forall|k: u16|
                1 <= spec_sequence_distance(old(self).sequence, k) < spec_sequence_distance(
                    old(self).sequence,
                    s,
                ) ==> !final(self).live(k),
    {
        if !self.check_sequence(s) {
            return Err(ReliableError::StaleSequence);
        }
        let capacity = self.entries.len();
        let ghost pre = *self;
        let ghost dist = spec_sequence_distance(pre.sequence, s);
        let next = sequence_add(s, 1);
        let advanced = sequence_greater_than(next, self.sequence);
        if advanced {
            self.clear_ahead(s);
            self.sequence = next;
        }
        let ghost mid = *self;
        let index = (s as usize) % capacity;
        self.entry_sequences.set(index, s as u32);
        self.entries.set(index, Some(data));
        proof {
            let post = *self;
            assert forall|k: u16| k != s implies ((#[trigger] post.live(k)) <==> (pre.live(k)
                && pre.spec_index_of(k) != pre.spec_index_of(s) && !Self::displaced_by_insert(
                pre,
                s,
                k,
            ))) by {
                if pre.spec_index_of(k) == pre.spec_index_of(s) {
                    assert(post.entry_sequences@[post.spec_index_of(k)] == s as u32);
                } else {
                    assert(post.entry_sequences@[post.spec_index_of(k)]
                        == mid.entry_sequences@[pre.spec_index_of(k)]);
                    if advanced {
                        assert(Self::displaced_by_insert(pre, s, k)
                            <==> Self::slot_cleared_in_range(
                            pre.sequence,
                            dist,
                            capacity as int,
                            pre.spec_index_of(k),
                        ));
                    }
                }
            }
            assert forall|k: u16|
                advanced && 1 <= spec_sequence_distance(pre.sequence, k) < spec_sequence_distance(
                    pre.sequence,
                    s,
                ) implies !post.live(k) by {
                let jk = spec_sequence_distance(pre.sequence, k);
                lemma_sub_then_add(k, pre.sequence);
                assert(spec_sequence_add(pre.sequence, (jk % 0x10000) as u16) == k);
                assert(Self::slot_cleared_in_range(
                    pre.sequence,
                    dist,
                    capacity as int,
                    pre.spec_index_of(k),
                ));
                assert(k != s);
            }
        }
        Ok(s)
    }

    /// Empties every slot that serves a sequence in `(self.sequence, s]`,
    /// without moving the window edge.
    #[verifier::rlimit(60)]
    fn clear_ahead(&mut self, s: u16)
        requires
            old(self).wf(),
        ensures
            final(self).wf(),
            final(self).entries@.len() == old(self).entries@.len(),
            final(self).entry_sequences@.len() == old(self).entry_sequences@.len(),
            final(self).sequence == old(self).sequence,
            forall|i: int|
                0 <= i < old(self).spec_capacity() && #[trigger] Self::slot_cleared_in_range(
                    old(self).sequence,
                    spec_sequence_distance(old(self).sequence, s),
                    old(self).spec_capacity(),
                    i,
                ) ==> final(self).entry_sequences@[i] == SEQUENCE_BUFFER_EMPTY
                    && final(self).entries@[i] is None,
            forall|i: int|
                0 <= i < old(self).spec_capacity() && !(#[trigger] Self::slot_cleared_in_range(
                    old(self).sequence,
                    spec_sequence_distance(old(self).sequence, s),
                    old(self).spec_capacity(),
                    i,
                )) ==> final(self).entry_sequences@[i] == old(self).entry_sequences@[i]
                    && final(self).entries@[i] == old(self).entries@[i],
    {
        let capacity = self.entries.len();
        let ghost pre = *self;
        let current = self.sequence;
        let d = sequence_sub(s, current);
        let mut j: u32 = 1;
        while j <= d as u32
            invariant
                pre.wf(),
                1 <= j <= d as u32 + 1,
                capacity == pre.spec_capacity(),
                self.entries@.len() == capacity,
                self.entry_sequences@.len() == capacity,
                self.sequence == pre.sequence,
                current == pre.sequence,
                d == spec_sequence_sub(s, current),
                forall|i: int|
                    0 <= i < capacity && #[trigger] Self::slot_cleared_in_range(
                        current,
                        j - 1,
                        capacity as int,
                        i,
                    ) ==> self.entry_sequences@[i] == SEQUENCE_BUFFER_EMPTY
                        && self.entries@[i] is None,
                forall|i: int|
                    0 <= i < capacity && !(#[trigger] Self::slot_cleared_in_range(
                        current,
                        j - 1,
                        capacity as int,
                        i,
                    )) ==> self.entry_sequences@[i] == pre.entry_sequences@[i]
                        && self.entries@[i] == pre.entries@[i],
            decreases d as int + 1 - j,
        {
            let target = sequence_add(current, j as u16);
            let index = (target as usize) % capacity;
            proof {
                assert((#[trigger] spec_sequence_add(current, (j as int) as u16)) as int % (
                capacity as int) == index as int);
            }
            self.entry_sequences.set(index, SEQUENCE_BUFFER_EMPTY);
            self.entries.set(index, None);
            proof {
                assert(Self::slot_cleared_in_range(current, j as int, capacity as int, index as int));
                assert forall|i: int|
                    0 <= i < capacity && Self::slot_cleared_in_range(
                        current,
                        j as int,
                        capacity as int,
                        i,
                    ) implies self.entry_sequences@[i] == SEQUENCE_BUFFER_EMPTY
                    && self.entries@[i] is None by {
                    if i != index {
                        let j0 = choose|j0: int|
                            1 <= j0 <= j as int && (#[trigger] spec_sequence_add(
                                current,
                                j0 as u16,
                            )) as int % capacity as int == i;
                        assert(j0 <= j - 1);
                        assert(Self::slot_cleared_in_range(current, j - 1, capacity as int, i));
                    }
                }
                assert forall|i: int|
                    0 <= i < capacity && !Self::slot_cleared_in_range(
                        current,
                        j as int,
                        capacity as int,
                        i,
                    ) implies self.entry_sequences@[i] == pre.entry_sequences@[i]
                    && self.entries@[i] == pre.entries@[i] by {
                    if Self::slot_cleared_in_range(current, j - 1, capacity as int, i) {
                        let j0 = choose|j0: int|
                            1 <= j0 <= j - 1 && (#[trigger] spec_sequence_add(
                                current,
                                j0 as u16,
                            )) as int % capacity as int == i;
                        assert(1 <= j0 <= j as int);
                        assert(Self::slot_cleared_in_range(current, j as int, capacity as int, i));
                    }
                }
            }
            j += 1;
        }
        proof {
            assert(spec_sequence_distance(current, s) == d as int);
            assert(j == d as u32 + 1);
            assert forall|i: int| 0 <= i < capacity implies {
                ||| self.entry_sequences@[i] == SEQUENCE_BUFFER_EMPTY
                ||| (self.entry_sequences@[i] <= 0xFFFF && self.entry_sequences@[i] as int % (
                capacity as int) == i && self.entries@[i] is Some)
            } by {
                if !Self::slot_cleared_in_range(current, j - 1, capacity as int, i) {
                    assert(self.entry_sequences@[i] == pre.entry_sequences@[i]);
                }
            }
            assert forall|i: int|
                0 <= i < capacity && Self::slot_cleared_in_range(
                    current,
                    spec_sequence_distance(current, s),
                    capacity as int,
                    i,
                ) implies self.entry_sequences@[i] == SEQUENCE_BUFFER_EMPTY
                && self.entries@[i] is None by {
                assert(Self::slot_cleared_in_range(current, j - 1, capacity as int, i));
            }
            assert forall|i: int|
                0 <= i < capacity && !Self::slot_cleared_in_range(
                    current,
                    spec_sequence_distance(current, s),
                    capacity as int,
                    i,
                ) implies self.entry_sequences@[i] == pre.entry_sequences@[i]
                && self.entries@[i] == pre.entries@[i] by {
                assert(!Self::slot_cleared_in_range(current, j - 1, capacity as int, i));
            }
        }
    }

    /// Stores `value` as the entry for `s` in `s`'s own slot, without
    /// touching the window edge or clearing anything else; whatever else
    /// aliased that slot is displaced.
    pub(crate) fn restore(&mut self, s: u16, value: T)
        requires
            old(self).wf(),
        ensures
            final(self).wf(),
            final(self).spec_capacity() == old(self).spec_capacity(),
            final(self).sequence == old(self).sequence,
            final(self).entry_sequences@ == old(self).entry_sequences@.update(
                old(self).spec_index_of(s),
                s as u32,
            ),
            final(self).entries@ == old(self).entries@.update(
                old(self).spec_index_of(s),
                Some(value),
            ),
            final(self).live(s),
            final(self).at(s) == value,
            forall|k: u16|
                k != s && old(self).spec_index_of(k) != old(self).spec_index_of(s)
                    ==> final(self).live(k) == old(self).live(k),
            forall|k: u16|
                k != s && old(self).spec_index_of(k) != old(self).spec_index_of(s)
                    && old(self).live(k) ==> final(self).at(k) == old(self).at(k),
            forall|k: u16|
                k != s && old(self).spec_index_of(k) == old(self).spec_index_of(s)
                    ==> !final(self).live(k),
    {
        let index = (s as usize) % self.entries.len();
        self.entry_sequences.set(index, s as u32);
        self.entries.set(index, Some(value));
    }

    /// Empties the slot serving `s` and hands back what it stored.
    pub fn remove(&mut self, s: u16) -> (r: Option<T>)
        requires
            old(self).wf(),
        ensures
            final(self).wf(),
            final(self).spec_capacity() == old(self).spec_capacity(),
            final(self).sequence == old(self).sequence,
            old(self).live(s) ==> r is Some && r.unwrap() == old(self).at(s)
                && !final(self).live(s),
            !old(self).live(s) ==> r is None && *final(self) == *old(self),
            forall|k: u16| k != s ==> (final(self).live(k) <==> old(self).live(k)),
            forall|k: u16| k != s && #[trigger] final(self).live(k)
                ==> final(self).at(k) == old(self).at(k),
    {
        let index = (s as usize) % self.entries.len();
        if self.entry_sequences[index] == s as u32 {
            self.entry_sequences.set(index, SEQUENCE_BUFFER_EMPTY);
            let mut taken: Option<T> = None;
            self.entries.set_and_swap(index, &mut taken);
            taken
        } else {
            None
        }
    }

    /// The ack-bits word over the first `i` bits: bit `j < i` is set
    /// exactly when `ack - j` is live.
    pub open spec fn spec_ack_bits_upto(self, ack: u16, i: int) -> u32
        decreases i,
    {
        if i <= 0 {
            0u32
        } else {
            let rest = self.spec_ack_bits_upto(ack, i - 1);
            if self.live(spec_sequence_sub(ack, (i - 1) as u16)) {
                rest | (1u32 << ((i - 1) as u32))
            } else {
                rest
            }
        }
    }

    /// The exact ack-bits word `ack_bits` returns.
    pub open spec fn spec_ack_bits(self) -> u32 {
        self.spec_ack_bits_upto(spec_sequence_sub(self.sequence, 1), 32)
    }

    /// The most recent sequence (`sequence - 1`) together with a 32-bit
    /// window: bit `i` is set exactly when `ack - i` is live.
    pub fn ack_bits(&self) -> (r: (u16, u32))
        requires
            self.wf(),
        ensures
            r.0 == spec_sequence_sub(self.sequence, 1),
            r.1 == self.spec_ack_bits(),
            forall|i: u32|
                i < 32 ==> (#[trigger] bit_set(r.1, i) <==> self.live(
                    spec_sequence_sub(r.0, i as u16),
                )),
    {
        let ack = sequence_sub(self.sequence, 1);
        let mut bits: u32 = 0;
        let mut i: u32 = 0;
        proof {
            crate::bits::lemma_zero_bits();
        }
        while i < 32
            invariant
                self.wf(),
                i <= 32,
                ack == spec_sequence_sub(self.sequence, 1),
                bits == self.spec_ack_bits_upto(ack, i as int),
                forall|j: u32|
                    j < i ==> (#[trigger] bit_set(bits, j) <==> self.live(
                        spec_sequence_sub(ack, j as u16),
                    )),
                forall|j: u32| i <= j < 32 ==> !(#[trigger] bit_set(bits, j)),
            decreases 32 - i,
        {
            if self.get(sequence_sub(ack, i as u16)).is_some() {
                let ghost prev = bits;
                bits = bits | (1u32 << i);
                proof {
                    lemma_set_bit(prev, i);
                }
            }
            i += 1;
        }
        (ack, bits)
    }

    /// Round trip through the buffer: after a successful `insert` of
    /// `value` at `s`, `get(s)` finds exactly `value` — `s` is live and
    /// stores `value`.
    pub proof fn lemma_insert_get_round_trip(pre: Self, post: Self, s: u16, value: T)
        requires
            Self::inserted(pre, post, s, value),
        ensures
            post.live(s),
            post.at(s) == value,
    {
    }

    /// The round trip survives later inserts: a following `insert` at a
    /// different sequence whose slot neither collides with `s`'s nor is
    /// swept by the window advance leaves `s` live with `value`.
    pub proof fn lemma_insert_preserves_earlier(
        b0: Self,
        b1: Self,
        b2: Self,
        s: u16,
        value: T,
        s2: u16,
        value2: T,
    )
        requires
            Self::inserted(b0, b1, s, value),
            Self::inserted(b1, b2, s2, value2),
            s2 != s,
            b1.spec_index_of(s) != b1.spec_index_of(s2),
            !Self::displaced_by_insert(b1, s2, s),
        ensures
            b2.live(s),
            b2.at(s) == value,
    {
        assert(b2.live(s));
        assert(b2.at(s) == b1.at(s));
    }

    /// The tag of slot `i`.
    pub(crate) fn slot_tag(&self, i: usize) -> (r: u32)
        requires
            i < self.entry_sequences@.len(),
        ensures
            r == self.entry_sequences@[i as int],
    {
        self.entry_sequences[i]
    }

    /// The payload of slot `i`.
    pub(crate) fn slot_entry(&self, i: usize) -> (r: &Option<T>)
        requires
            i < self.entries@.len(),
        ensures
            *r == self.entries@[i as int],
    {
        &self.entries[i]
    }

    /// Empties every slot and restarts the window at zero.
    pub fn reset(&mut self)
        requires
            old(self).wf(),
        ensures
            final(self).wf(),
            final(self).spec_capacity() == old(self).spec_capacity(),
            final(self).sequence == 0,
            forall|s: u16| !final(self).live(s),
    {
        let capacity = self.entries.len();
        let mut i: usize = 0;
        while i < capacity
            invariant
                i <= capacity,
                self.entries@.len() == capacity,
                self.entry_sequences@.len() == capacity,
                forall|j: int| 0 <= j < i ==> self.entries@[j] is None,
                forall|j: int| 0 <= j < i ==> self.entry_sequences@[j] == SEQUENCE_BUFFER_EMPTY,
            decreases capacity - i,
        {
            self.entry_sequences.set(i, SEQUENCE_BUFFER_EMPTY);
            self.entries.set(i, None);
            i += 1;
        }
        self.sequence = 0;
    }
}

} // verus!
