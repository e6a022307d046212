use crate::cursor::increment_index;
use crate::model::{RingView, SlotView};
use crate::slot::RingBufferData;
use crate::status::RingError;
use vstd::prelude::*;

verus! {

/// What a read hands back: its status and the slot under the read cursor.
/// The slot is borrowed from the buffer and is to be trusted only where the
/// status is `NoError`.
pub struct RingBufferPayloadRead<'a, T> {
    pub status: RingError,
    pub ring_buffer_data: &'a RingBufferData<T>,
}

/// A ring buffer with a fixed number of slots, each holding one payload of
/// elements of type `T`.
pub struct RingBuffer<T> {
    capacity: u64,
    t_size: usize,
    data: Vec<RingBufferData<T>>,
    items_in_buffer: u64,
    current_head_index: u64,
    current_read_index: u64,
}

/// Puts `slot` at index `at`, in place of what stood there.
fn replace_slot<T>(slots: &mut Vec<RingBufferData<T>>, at: usize, slot: RingBufferData<T>)
    requires
        at < old(slots)@.len(),
    ensures
        final(slots)@ == old(slots)@.update(at as int, slot),
    no_unwind
{
    slots[at] = slot;
}

impl<T> View for RingBuffer<T> {
    type V = RingView<T>;

    closed spec fn view(&self) -> RingView<T> {
        RingView {
            capacity: self.capacity as nat,
            element_size: self.t_size as nat,
            slots: self.data@.map_values(|slot: RingBufferData<T>| slot@),
            occupancy: self.items_in_buffer as nat,
            write_cursor: self.current_head_index as nat,
            read_cursor: self.current_read_index as nat,
        }
    }
}

impl<T> RingBuffer<T> {
    #[verifier::type_invariant]
    spec fn valid(self) -> bool {
        &&& self.capacity <= usize::MAX
        &&& self@.wf()
    }

    /// Makes a buffer of `capacity` slots for elements of `dtype_size` bytes.
    /// A buffer needs at least one slot and cannot have more slots than a
    /// `Vec` can index; any other capacity is an invalid configuration.
    pub fn init_ring_buffer(capacity: u64, dtype_size: usize) -> (made: Result<Self, RingError>)
        ensures
            made is Ok <==> 0 < capacity <= usize::MAX,
            made matches Ok(buffer) ==> buffer@ == RingView::<T>::fresh(
                capacity as nat,
                dtype_size as nat,
            ) && buffer@.wf(),
            made matches Err(error) ==> error == RingError::InvalidConfiguration,
    {
        if capacity == 0 || capacity > usize::MAX as u64 {
            return Err(RingError::InvalidConfiguration);
        }
        let mut data_vec: Vec<RingBufferData<T>> = Vec::with_capacity(capacity as usize);
        for filled in 0..capacity
            invariant
                data_vec@.len() == filled,
                forall|i: int|
                    0 <= i < data_vec@.len() ==> (#[trigger] data_vec@[i])@
                        == SlotView::<T>::placeholder(),
        {
            data_vec.push(RingBufferData::placeholder());
        }
        let buffer = RingBuffer {
            capacity,
            t_size: dtype_size,
            data: data_vec,
            items_in_buffer: 0,
            current_head_index: 0,
            current_read_index: 0,
        };
        Ok(buffer)
    }

    /// Number of slots.
    pub fn capacity(&self) -> (capacity: u64)
        ensures
            capacity == self@.capacity,
            self@.wf(),
    {
        proof {
            use_type_invariant(self);
        }
        self.capacity
    }

    /// Size in bytes of one element, as given at construction.
    pub fn t_size(&self) -> (size: usize)
        ensures
            size == self@.element_size,
            self@.wf(),
    {
        proof {
            use_type_invariant(self);
        }
        self.t_size
    }

    /// Index of the slot that the next write fills.
    pub fn get_current_head_index(&self) -> (head: u64)
        ensures
            head == self@.write_cursor,
            head < self@.capacity,
            self@.wf(),
    {
        proof {
            use_type_invariant(self);
        }
        self.current_head_index
    }

    /// Index of the slot that the next read looks at.
    pub fn get_current_read_index(&self) -> (index: u64)
        ensures
            index == self@.read_cursor,
            index < self@.capacity,
            self@.wf(),
    {
        proof {
            use_type_invariant(self);
        }
        self.current_read_index
    }

    /// Number of slots that hold unread data.
    pub fn get_items_in_buffer(&self) -> (count: u64)
        ensures
            count == self@.occupancy,
            count <= self@.capacity,
            self@.wf(),
    {
        proof {
            use_type_invariant(self);
        }
        self.items_in_buffer
    }

    /// Reads the slot under the read cursor and moves the cursor on. The slot
    /// stays in place. With nothing unread the status is `RingEmptyError`,
    /// the slot is whatever stands there, and the cursor moves all the same.
    pub fn get_data(&mut self) -> (read: RingBufferPayloadRead<'_, T>)
        ensures
            read.status == old(self)@.read_status(),
            read.ring_buffer_data@ == old(self)@.read_slot(),
            final(self)@ == old(self)@.after_read(),
            final(self)@.wf(),
    {
        proof {
            use_type_invariant(&*self);
        }
        let at: u64 = self.current_read_index;
        let status = if self.items_in_buffer == 0 {
            RingError::RingEmptyError
        } else {
            RingError::NoError
        };
        self.current_read_index = increment_index(self.current_read_index, self.capacity);
        if self.items_in_buffer > 0 {
            self.items_in_buffer -= 1;
        }
        RingBufferPayloadRead { status, ring_buffer_data: &self.data[at as usize] }
    }

    /// Stores `data` in the slot under the write cursor, whatever stood there,
    /// and moves the cursor on. A full buffer loses its oldest unread entry.
    /// There is no payload that a write refuses.
    pub fn add_new_data(&mut self, data: Vec<T>) -> (status: RingError)
        ensures
            status == RingError::NoError,
            final(self)@ == old(self)@.after_write(data@),
            final(self)@.wf(),
    {
        proof {
            use_type_invariant(&*self);
        }
        let new_ring_buffer_data = RingBufferData::holding(data, self.t_size);
        proof {
            let at = self.current_head_index as int;
            let slots = self.data@.update(at, new_ring_buffer_data);
            let views = slots.map_values(|slot: RingBufferData<T>| slot@);
            assert forall|i: int| 0 <= i < views.len() implies (#[trigger] views[i]).fits(
                self.t_size as nat,
            ) by {
                if i != at {
                    assert(views[i] == self@.slots[i]);
                }
            }
        }
        replace_slot(&mut self.data, self.current_head_index as usize, new_ring_buffer_data);
        self.current_head_index = increment_index(self.current_head_index, self.capacity);
        if self.items_in_buffer == self.capacity {
            self.current_read_index = increment_index(self.current_read_index, self.capacity);
        }
        if self.items_in_buffer < self.capacity {
            self.items_in_buffer += 1;
        }
        RingError::NoError
    }
}

} // verus!
