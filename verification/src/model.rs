use crate::cursor::next_index;
use crate::status::RingError;
use vstd::prelude::*;

verus! {

/// The mathematical content of one slot.
#[verifier::ext_equal]
pub struct SlotView<T> {
    /// Size of the payload in bytes.
    pub byte_length: nat,
    /// Size in bytes of one element, as the slot records it.
    pub element_size: nat,
    /// The stored elements, in order.
    pub payload: Seq<T>,
}

impl<T> SlotView<T> {
    /// The slot that no write has touched yet: nothing stored, sizes 0.
    pub open spec fn placeholder() -> Self {
        SlotView { byte_length: 0, element_size: 0, payload: Seq::empty() }
    }

    /// The slot that a write of `payload` leaves in a buffer whose elements
    /// take `element_size` bytes each.
    pub open spec fn holding(payload: Seq<T>, element_size: nat) -> Self {
        SlotView { byte_length: payload.len() * element_size, element_size, payload }
    }

    /// The byte length is the number of elements times the element size.
    pub open spec fn wf(self) -> bool {
        self.byte_length == self.payload.len() * self.element_size
    }

    /// The slot can occur in a buffer with this element size: it is still the
    /// placeholder, or it is what a write of its payload left there.
    pub open spec fn fits(self, element_size: nat) -> bool {
        self == Self::placeholder() || self == Self::holding(self.payload, element_size)
    }
}

/// The slots that writes of `payloads`, one after the other, leave behind in a
/// buffer with this element size, in the order of the writes.
pub open spec fn written<T>(payloads: Seq<Seq<T>>, element_size: nat) -> Seq<SlotView<T>> {
    Seq::new(payloads.len(), |i: int| SlotView::holding(payloads[i], element_size))
}

/// The last `limit` of `entries`, or all of them where there are fewer.
pub open spec fn keep_newest<A>(entries: Seq<A>, limit: nat) -> Seq<A> {
    if entries.len() <= limit {
        entries
    } else {
        entries.subrange(entries.len() - limit, entries.len() as int)
    }
}

/// The mathematical state of a ring buffer.
#[verifier::ext_equal]
pub struct RingView<T> {
    /// Number of slots.
    pub capacity: nat,
    /// Size in bytes of one element of the stored type.
    pub element_size: nat,
    /// The slots, by index.
    pub slots: Seq<SlotView<T>>,
    /// Number of slots that hold unread data.
    pub occupancy: nat,
    /// Index of the slot that the next write fills.
    pub write_cursor: nat,
    /// Index of the slot that the next read looks at.
    pub read_cursor: nat,
}

impl<T> RingView<T> {
    /// The state invariant: at least one slot, as many slots as the capacity
    /// says, both cursors inside the ring, at most `capacity` unread entries,
    /// and every slot fit for this buffer's element size.
    pub open spec fn wf(self) -> bool {
        &&& 0 < self.capacity
        &&& self.slots.len() == self.capacity
        &&& self.occupancy <= self.capacity
        &&& self.write_cursor < self.capacity
        &&& self.read_cursor < self.capacity
        &&& forall|i: int| 0 <= i < self.slots.len() ==> (#[trigger] self.slots[i]).fits(self.element_size)
    }

    /// The state right after construction: placeholders only, nothing unread,
    /// both cursors at 0.
    pub open spec fn fresh(capacity: nat, element_size: nat) -> Self {
        RingView {
            capacity,
            element_size,
            slots: Seq::new(capacity, |i: int| SlotView::placeholder()),
            occupancy: 0,
            write_cursor: 0,
            read_cursor: 0,
        }
    }

    /// No entry is unread.
    pub open spec fn is_empty(self) -> bool {
        self.occupancy == 0
    }

    /// Every slot holds unread data.
    pub open spec fn is_full(self) -> bool {
        self.occupancy == self.capacity
    }

    /// The state after one write of `payload`. The slot under the write cursor
    /// is replaced and the write cursor moves on. A full buffer gives up its
    /// oldest unread entry, so its read cursor moves on too; any other buffer
    /// has one more unread entry.
    pub open spec fn after_write(self, payload: Seq<T>) -> Self {
        RingView {
            slots: self.slots.update(
                self.write_cursor as int,
                SlotView::holding(payload, self.element_size),
            ),
            write_cursor: next_index(self.write_cursor, self.capacity),
            read_cursor: if self.is_full() {
                next_index(self.read_cursor, self.capacity)
            } else {
                self.read_cursor
            },
            occupancy: if self.is_full() {
                self.occupancy
            } else {
                self.occupancy + 1
            },
            ..self
        }
    }

    /// The status that a read reports in this state.
    pub open spec fn read_status(self) -> RingError {
        if self.is_empty() {
            RingError::RingEmptyError
        } else {
            RingError::NoError
        }
    }

    /// The slot that a read shows in this state, whatever its status.
    pub open spec fn read_slot(self) -> SlotView<T> {
        self.slots[self.read_cursor as int]
    }

    /// The state after one read. The read cursor moves on in any case, the
    /// slots stay as they are, and one entry fewer is unread unless none was.
    pub open spec fn after_read(self) -> Self {
        RingView {
            read_cursor: next_index(self.read_cursor, self.capacity),
            occupancy: if self.is_empty() {
                0
            } else {
                (self.occupancy - 1) as nat
            },
            ..self
        }
    }

    /// The state after writing `payloads` one after the other.
    pub open spec fn after_writes(self, payloads: Seq<Seq<T>>) -> Self
        decreases payloads.len(),
    {
        if payloads.len() == 0 {
            self
        } else {
            self.after_writes(payloads.drop_last()).after_write(payloads.last())
        }
    }

    /// The state after `count` reads.
    pub open spec fn after_reads(self, count: nat) -> Self
        decreases count,
    {
        if count == 0 {
            self
        } else {
            self.after_reads((count - 1) as nat).after_read()
        }
    }

    /// The write cursor stands where the unread entries end: `occupancy`
    /// positions after the read cursor, modulo the capacity. A read of an
    /// empty buffer moves the read cursor alone and so breaks this.
    pub open spec fn in_step(self) -> bool {
        self.write_cursor == (self.read_cursor + self.occupancy) % self.capacity
    }

    /// The slots that the next `occupancy` reads show, oldest first.
    pub open spec fn unread(self) -> Seq<SlotView<T>> {
        Seq::new(
            self.occupancy,
            |k: int| self.slots[(self.read_cursor + k) % (self.capacity as int)],
        )
    }
}

} // verus!
