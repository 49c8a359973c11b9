//! A fixed-capacity circular buffer with one write cursor and one read cursor.
//!
//! The buffer never blocks and never fails on a write: an element written to a
//! full buffer takes the slot of the oldest unread one, and the elements that
//! the writer has lapped are lost to the reader.

use std::fmt::Debug;
use vstd::prelude::*;
use vstd::std_specs::cmp::PartialEqSpec;

verus! {

/// The error of a read from a buffer that holds too few unread elements.
#[derive(Clone, Copy, Debug, PartialEq, Eq, Structural)]
pub struct Empty;

/// The mathematical state of a ring buffer: its slots, the two cursors and the
/// wrap flag.
pub struct RingState<T> {
    /// What each slot holds, by index.
    pub slots: Seq<T>,
    /// Index of the slot that the next append fills.
    pub write: int,
    /// Index of the slot that the next read takes.
    pub read: int,
    /// Whether the write cursor has passed the end of the slots since the read
    /// cursor last did.
    pub wrapped: bool,
}

impl<T> RingState<T> {
    /// The state of a new buffer: `capacity` slots that all hold `fill`, both
    /// cursors on slot zero, the wrap flag down.
    pub open spec fn fresh(capacity: nat, fill: T) -> Self {
        RingState { slots: Seq::new(capacity, |i: int| fill), write: 0, read: 0, wrapped: false }
    }

    /// The states that a buffer can be in: at least one slot, both cursors on a
    /// slot, and the read cursor not ahead of the write cursor while the wrap
    /// flag is down.
    pub open spec fn wf(self) -> bool {
        &&& self.slots.len() > 0
        &&& 0 <= self.read < self.slots.len()
        &&& 0 <= self.write < self.slots.len()
        &&& !self.wrapped ==> self.read <= self.write
    }

    /// The number of slots.
    pub open spec fn capacity(self) -> nat {
        self.slots.len()
    }

    /// The number of unread elements: the distance from the read cursor forward
    /// to the write cursor, modulo the capacity. Where the cursors coincide the
    /// wrap flag decides between a full buffer and a drained one.
    pub open spec fn readable(self) -> nat {
        if self.read < self.write {
            (self.write - self.read) as nat
        } else if self.read > self.write {
            (self.slots.len() - self.read + self.write) as nat
        } else if self.wrapped {
            self.slots.len()
        } else {
            0
        }
    }

    /// The element `i` slots after the read cursor, counting around the end.
    pub open spec fn ahead(self, i: int) -> T {
        if self.read + i < self.slots.len() {
            self.slots[self.read + i]
        } else {
            self.slots[self.read + i - self.slots.len()]
        }
    }

    /// The element under the read cursor.
    pub open spec fn front(self) -> T {
        self.slots[self.read]
    }

    /// The unread elements, oldest first.
    pub open spec fn contents(self) -> Seq<T> {
        Seq::new(self.readable(), |i: int| self.ahead(i))
    }

    /// Whether the writer has lapped the reader: the wrap flag is up although
    /// the read cursor is behind the write cursor. Unread elements were
    /// overwritten to get here. A reader that catches up with the writer in
    /// this state finds the cursors together under a raised flag, which is a
    /// full buffer: it reads the slots once round before the buffer is drained.
    pub open spec fn lapped(self) -> bool {
        self.wrapped && self.read < self.write
    }

    /// The state after `value` is written under the write cursor and the cursor
    /// moves one slot on. The wrap flag goes up when the cursor passes the end.
    pub open spec fn append(self, value: T) -> Self {
        RingState {
            slots: self.slots.update(self.write, value),
            write: if self.write + 1 < self.slots.len() {
                self.write + 1
            } else {
                0
            },
            read: self.read,
            wrapped: self.wrapped || self.write + 1 >= self.slots.len(),
        }
    }

    /// The state after every element of `values` is appended, first to last.
    pub open spec fn extend(self, values: Seq<T>) -> Self
        decreases values.len(),
    {
        if values.len() == 0 {
            self
        } else {
            self.extend(values.drop_last()).append(values.last())
        }
    }

    /// The state after the read cursor moves `n` slots on, for `n` up to the
    /// capacity. The wrap flag goes down when the cursor passes the end.
    pub open spec fn advance(self, n: nat) -> Self {
        RingState {
            slots: self.slots,
            write: self.write,
            read: if self.read + n < self.slots.len() {
                self.read + n
            } else {
                self.read + n - self.slots.len()
            },
            wrapped: self.wrapped && self.read + n < self.slots.len(),
        }
    }

    /// The state with both cursors back on slot zero and the wrap flag down.
    pub open spec fn rewound(self) -> Self {
        RingState { slots: self.slots, write: 0, read: 0, wrapped: false }
    }

    /// An upper bound on the number of reads that can still succeed if nothing
    /// more is written.
    pub open spec fn reads_left(self) -> nat {
        if self.wrapped {
            (2 * self.slots.len() - self.read + 1) as nat
        } else {
            (self.write - self.read) as nat
        }
    }
}

impl<T: PartialEq> RingState<T> {
    /// The state after elements are read and dropped until the element under
    /// the read cursor is unread and equal to `target`, or nothing is left to
    /// read.
    pub open spec fn seek(self, target: T) -> Self
        decreases self.reads_left(),
    {
        if !self.wf() || self.readable() == 0 || self.front().eq_spec(&target) {
            self
        } else {
            self.advance(1).seek(target)
        }
    }
}

/// A ring buffer over a fixed number of slots.
#[derive(Debug, PartialEq)]
pub struct RingBuff<T: Copy + Debug + PartialEq> {
    data: Vec<T>,
    write_offset: usize,
    read_offset: usize,
    wrap_flag: bool,
}

impl<T: Copy + Debug + PartialEq> View for RingBuff<T> {
    type V = RingState<T>;

    closed spec fn view(&self) -> RingState<T> {
        RingState {
            slots: self.data@,
            write: self.write_offset as int,
            read: self.read_offset as int,
            wrapped: self.wrap_flag,
        }
    }
}

impl<T: Copy + Debug + PartialEq> RingBuff<T> {
    /// Every buffer is in a well-formed state.
    #[verifier::type_invariant]
    pub open spec fn well_formed(&self) -> bool {
        self@.wf()
    }

    /// A buffer of `initial_size` slots, each holding `initial_value`, with
    /// nothing to read.
    pub fn new(initial_size: usize, initial_value: T) -> (ring: Self)
        requires
            initial_size > 0,
        ensures
            ring@ == RingState::fresh(initial_size as nat, initial_value),
            ring@.wf(),
    {
        let mut temp: Vec<T> = Vec::new();
        let mut filled: usize = 0;
        while filled < initial_size
            invariant
                filled <= initial_size,
                temp@.len() == filled,
                forall|i: int| 0 <= i < filled ==> temp@[i] == initial_value,
            decreases initial_size - filled,
        {
            temp.push(initial_value);
            filled += 1;
        }
        let ring = RingBuff { data: temp, write_offset: 0, read_offset: 0, wrap_flag: false };
        assert(ring@.slots =~= RingState::fresh(initial_size as nat, initial_value).slots);
        ring
    }

    /// Writes `appendage` under the write cursor and moves the cursor on. A full
    /// buffer takes the element too: it replaces the oldest unread one.
    pub fn append(&mut self, appendage: T)
        ensures
            final(self)@ == old(self)@.append(appendage),
            final(self)@.wf(),
    {
        proof {
            use_type_invariant(&*self);
        }
        self.data[self.write_offset] = appendage;
        if self.write_offset < self.data.len() - 1 {
            self.write_offset += 1;
        } else {
            self.wrap_flag = true;
            self.write_offset = 0;
        }
    }

    /// The number of unread elements.
    pub fn readable(&self) -> (count: usize)
        ensures
            count == self@.readable(),
            self@.wf(),
    {
        proof {
            use_type_invariant(self);
        }
        if self.read_offset < self.write_offset {
            return self.write_offset - self.read_offset;
        }
        if self.read_offset > self.write_offset {
            return self.data.len() - self.read_offset + self.write_offset;
        }
        if self.wrap_flag {
            return self.data.len();
        }
        return 0;
    }

    /// The element under the read cursor, which stays where it is.
    pub fn peek(&self) -> (value: T)
        ensures
            value == self@.front(),
            self@.wf(),
    {
        proof {
            use_type_invariant(self);
        }
        self.data[self.read_offset]
    }

    /// Takes the element under the read cursor and moves the cursor on. With
    /// nothing to read it fails and leaves the buffer as it was.
    pub fn reduce(&mut self) -> (result: Result<T, Empty>)
        ensures
            final(self)@.wf(),
            match result {
                Ok(value) => {
                    &&& old(self)@.readable() >= 1
                    &&& value == old(self)@.front()
                    &&& final(self)@ == old(self)@.advance(1)
                },
                Err(_) => old(self)@.readable() == 0 && final(self)@ == old(self)@,
            },
    {
        proof {
            use_type_invariant(&*self);
        }
        if self.readable() >= 1 {
            let temp = self.peek();
            if self.read_offset < self.data.len() - 1 {
                self.read_offset += 1;
            } else {
                self.read_offset = 0;
                self.wrap_flag = false;
            }
            Ok(temp)
        } else {
            Err(Empty)
        }
    }

    /// Reads and drops elements until an unread element equal to `search_term`
    /// is under the read cursor. Fails once nothing is left to read.
    pub fn reduce_search(&mut self, search_term: T) -> (result: Result<(), Empty>)
        ensures
            final(self)@.wf(),
            final(self)@.slots == old(self)@.slots,
            final(self)@.write == old(self)@.write,
            result is Ok <==> final(self)@.readable() >= 1,
            T::obeys_eq_spec() ==> final(self)@ == old(self)@.seek(search_term),
    {
        proof {
            use_type_invariant(&*self);
        }
        loop
            invariant
                self@.wf(),
                self@.slots == old(self)@.slots,
                self@.write == old(self)@.write,
                T::obeys_eq_spec() ==> self@.seek(search_term) == old(self)@.seek(search_term),
            decreases self@.reads_left(),
        {
            if self.readable() >= 1 && self.peek() == search_term {
                return Ok(());
            }
            match self.reduce() {
                Ok(_) => {},
                Err(e) => {
                    return Err(e);
                },
            }
        }
    }

    /// Takes `size` elements, oldest first. With fewer than `size` to read it
    /// fails and takes none.
    pub fn reduce_slice(&mut self, size: usize) -> (result: Result<Vec<T>, Empty>)
        ensures
            final(self)@.wf(),
            match result {
                Ok(taken) => {
                    &&& size <= old(self)@.readable()
                    &&& taken@ == old(self)@.contents().take(size as int)
                    &&& final(self)@ == old(self)@.advance(size as nat)
                },
                Err(_) => old(self)@.readable() < size && final(self)@ == old(self)@,
            },
    {
        if self.readable() < size {
            return Err(Empty);
        }
        let mut temp: Vec<T> = Vec::with_capacity(size);
        let mut i: usize = 0;
        while i < size
            invariant
                old(self)@.wf(),
                i <= size <= old(self)@.readable(),
                self@ == old(self)@.advance(i as nat),
                temp@ == old(self)@.contents().take(i as int),
            decreases size - i,
        {
            proof {
                lemma_advance(old(self)@, i as nat);
            }
            match self.reduce() {
                Ok(x) => {
                    temp.push(x);
                },
                Err(e) => {
                    return Err(e);
                },
            }
            i += 1;
            assert(temp@ =~= old(self)@.contents().take(i as int));
        }
        Ok(temp)
    }

    /// Puts both cursors back on slot zero and the wrap flag down, so that
    /// nothing is left to read. The slots keep what they hold.
    pub fn reset_offsets(&mut self)
        ensures
            final(self)@ == old(self)@.rewound(),
            final(self)@.wf(),
            final(self)@.readable() == 0,
    {
        proof {
            use_type_invariant(&*self);
        }
        self.read_offset = 0;
        self.wrap_flag = false;
        self.write_offset = 0;
    }

    /// A copy of every slot, by index, read or not.
    pub fn get_vec(&self) -> (slots: Vec<T>)
        ensures
            slots@ == self@.slots,
    {
        let mut copy: Vec<T> = Vec::with_capacity(self.data.len());
        let mut i: usize = 0;
        while i < self.data.len()
            invariant
                i <= self.data.len(),
                copy@ == self.data@.take(i as int),
            decreases self.data.len() - i,
        {
            copy.push(self.data[i]);
            i += 1;
            assert(copy@ =~= self.data@.take(i as int));
        }
        assert(self.data@.take(i as int) =~= self.data@);
        copy
    }
}

/// Moving the read cursor over `n` unread elements keeps the state well formed.
/// Short of the last unread element, and up to it where the writer has not
/// lapped the reader, it leaves the unread elements but the first `n`.
pub proof fn lemma_advance<T>(state: RingState<T>, n: nat)
    requires
        state.wf(),
        n <= state.readable(),
    ensures
        state.advance(n).wf(),
        n < state.readable() || !state.lapped() ==> {
            &&& state.advance(n).readable() == state.readable() - n
            &&& state.advance(n).contents() == state.contents().skip(n as int)
            &&& state.advance(n).lapped() == state.lapped()
        },
        n < state.readable() ==> state.advance(n).front() == state.contents()[n as int],
        n < state.readable() ==> state.advance(n).advance(1) == state.advance(n + 1),
{
    if n < state.readable() || !state.lapped() {
        assert(state.advance(n).contents() =~= state.contents().skip(n as int));
    }
}

/// No buffer holds more unread elements than it has slots.
pub proof fn lemma_readable_bounded<T>(state: RingState<T>)
    requires
        state.wf(),
    ensures
        state.readable() <= state.capacity(),
{
}

/// Moving the read cursor in two steps is moving it once over their sum.
pub proof fn lemma_advance_twice<T>(state: RingState<T>, first: nat, second: nat)
    requires
        state.wf(),
        first + second <= state.capacity(),
    ensures
        state.advance(first).advance(second) == state.advance(first + second),
{
}

/// An append to a buffer that is not full adds the value behind the unread
/// elements. An append to a full buffer leaves the value as the only unread
/// element.
pub proof fn lemma_append<T>(state: RingState<T>, value: T)
    requires
        state.wf(),
    ensures
        state.append(value).wf(),
        state.append(value).capacity() == state.capacity(),
        state.readable() < state.capacity() ==> {
            &&& state.append(value).readable() == state.readable() + 1
            &&& state.append(value).contents() == state.contents().push(value)
            &&& state.append(value).lapped() ==> state.lapped()
        },
        state.readable() == state.capacity() ==> state.append(value).contents() == seq![value],
{
    let next = state.append(value);
    if state.readable() < state.capacity() {
        assert(next.contents() =~= state.contents().push(value));
    } else {
        assert(next.contents() =~= seq![value]);
    }
}

/// Appends that do not overfill the buffer add their values, in order, behind
/// the unread elements.
pub proof fn lemma_extend<T>(state: RingState<T>, values: Seq<T>)
    requires
        state.wf(),
        state.readable() + values.len() <= state.capacity(),
    ensures
        state.extend(values).wf(),
        state.extend(values).capacity() == state.capacity(),
        state.extend(values).read == state.read,
        state.extend(values).readable() == state.readable() + values.len(),
        state.extend(values).contents() == state.contents() + values,
        state.extend(values).lapped() ==> state.lapped(),
    decreases values.len(),
{
    if values.len() == 0 {
        assert(state.contents() + values =~= state.contents());
    } else {
        let before = state.extend(values.drop_last());
        lemma_extend(state, values.drop_last());
        lemma_append(before, values.last());
        assert(state.contents() + values =~= (state.contents() + values.drop_last()).push(
            values.last(),
        ));
    }
}

/// The capacity law. After as many appends as the buffer has slots, made to a
/// drained buffer with no read in between, every one of the values is unread, in
/// the order written. One append more overwrites the slot of the oldest of
/// them, and the count of unread elements stays within the capacity.
pub proof fn lemma_capacity<T>(state: RingState<T>, values: Seq<T>, extra: T)
    requires
        state.wf(),
        state.readable() == 0,
        values.len() == state.capacity(),
    ensures
        state.extend(values).capacity() == state.capacity(),
        state.extend(values).read == state.read,
        state.extend(values).readable() == state.capacity(),
        state.extend(values).contents() == values,
        state.extend(values).front() == values[0],
        state.extend(values).append(extra).slots == state.extend(values).slots.update(
            state.read,
            extra,
        ),
        state.extend(values).append(extra).readable() <= state.capacity(),
{
    lemma_extend(state, values);
    assert(state.contents() + values =~= values);
    let full = state.extend(values);
    assert(full.contents()[0] == full.front());
    lemma_append(full, extra);
}

/// The capacity law on a new buffer: the append that follows the filling
/// appends overwrites slot zero.
pub proof fn lemma_capacity_fresh<T>(capacity: nat, fill: T, values: Seq<T>, extra: T)
    requires
        capacity > 0,
        values.len() == capacity,
    ensures
        RingState::fresh(capacity, fill).extend(values).readable() == capacity,
        RingState::fresh(capacity, fill).extend(values).contents() == values,
        RingState::fresh(capacity, fill).extend(values).slots[0] == values[0],
        RingState::fresh(capacity, fill).extend(values).append(extra).slots[0] == extra,
        RingState::fresh(capacity, fill).extend(values).append(extra).readable() <= capacity,
{
    lemma_capacity(RingState::fresh(capacity, fill), values, extra);
}

/// A slice read that failed for want of elements loses nothing. Once appends
/// have brought the unread elements up to `n`, without overfilling the buffer,
/// the same read succeeds, and what it returns starts with the elements that
/// were unread at the failed attempt.
pub proof fn lemma_slice_retry<T>(state: RingState<T>, more: Seq<T>, n: nat)
    requires
        state.wf(),
        state.readable() < n,
        n <= state.readable() + more.len(),
        state.readable() + more.len() <= state.capacity(),
    ensures
        n <= state.extend(more).readable(),
        state.extend(more).contents().take(n as int) == (state.contents() + more).take(n as int),
        state.extend(more).contents().take(n as int).take(state.readable() as int)
            == state.contents(),
{
    lemma_extend(state, more);
    assert((state.contents() + more).take(n as int).take(state.readable() as int)
        =~= state.contents());
}

/// A search moves the read cursor only, and where it leaves anything to read,
/// the element under the read cursor equals the target.
pub proof fn lemma_seek_stops<T: PartialEq>(state: RingState<T>, target: T)
    requires
        state.wf(),
    ensures
        state.seek(target).wf(),
        state.seek(target).slots == state.slots,
        state.seek(target).write == state.write,
        state.seek(target).readable() >= 1 ==> state.seek(target).front().eq_spec(&target),
    decreases state.reads_left(),
{
    if state.readable() != 0 && !state.front().eq_spec(&target) {
        lemma_seek_stops(state.advance(1), target);
    }
}

/// A search passes over the unread elements that differ from the target and
/// stops on the first that equals it, or behind the last unread element where
/// none does.
pub proof fn lemma_seek<T: PartialEq>(state: RingState<T>, target: T, k: nat)
    requires
        state.wf(),
        k <= state.readable(),
        k < state.readable() || !state.lapped(),
        forall|i: int| 0 <= i < k ==> !(#[trigger] state.contents()[i]).eq_spec(&target),
        k < state.readable() ==> state.contents()[k as int].eq_spec(&target),
    ensures
        state.seek(target) == state.advance(k),
    decreases k,
{
    if k == 0 {
        if state.readable() > 0 {
            assert(state.contents()[0] == state.front());
        }
        assert(state.advance(0) == state);
    } else {
        assert(state.contents()[0] == state.front());
        let next = state.advance(1);
        lemma_advance(state, 1);
        assert forall|i: int| 0 <= i < k - 1 implies !(#[trigger] next.contents()[i]).eq_spec(
            &target,
        ) by {
            assert(next.contents()[i] == state.contents()[i + 1]);
        }
        lemma_seek(next, target, (k - 1) as nat);
        lemma_advance_twice(state, 1, (k - 1) as nat);
    }
}

} // verus!
