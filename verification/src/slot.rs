use crate::model::SlotView;
use vstd::prelude::*;

verus! {

/// One slot of a ring buffer: a payload with its size in bytes and the size
/// of one of its elements.
pub struct RingBufferData<T> {
    bytes: u128,
    dtype: usize,
    payload: Vec<T>,
}

impl<T> View for RingBufferData<T> {
    type V = SlotView<T>;

    closed spec fn view(&self) -> SlotView<T> {
        SlotView {
            byte_length: self.bytes as nat,
            element_size: self.dtype as nat,
            payload: self.payload@,
        }
    }
}

impl<T> RingBufferData<T> {
    #[verifier::type_invariant]
    spec fn sized(self) -> bool {
        self.bytes == self.payload@.len() * self.dtype
    }

    /// The slot that stands in a buffer before anything is written there.
    pub(crate) fn placeholder() -> (slot: Self)
        ensures
            slot@ == SlotView::<T>::placeholder(),
    {
        RingBufferData { bytes: 0, dtype: 0, payload: Vec::new() }
    }

    /// The slot that holds `payload`, whose elements take `dtype` bytes each.
    /// The byte length is kept in 128 bits, where the product of two `usize`
    /// values always fits.
    pub(crate) fn holding(payload: Vec<T>, dtype: usize) -> (slot: Self)
        ensures
            slot@ == SlotView::holding(payload@, dtype as nat),
    {
        let count: usize = payload.len();
        assert(count * dtype <= u128::MAX) by (nonlinear_arith)
            requires
                count <= u64::MAX,
                dtype <= u64::MAX,
        ;
        let bytes: u128 = (count as u128) * (dtype as u128);
        RingBufferData { bytes, dtype, payload }
    }

    /// Size of the payload in bytes: the number of elements times the size of
    /// one element.
    pub fn bytes(&self) -> (bytes: u128)
        ensures
            bytes == self@.byte_length,
            bytes == self@.payload.len() * self@.element_size,
    {
        proof {
            use_type_invariant(self);
        }
        self.bytes
    }

    /// Size in bytes of one element, as recorded when the slot was written;
    /// 0 in a slot that was never written.
    pub fn dtype(&self) -> (dtype: usize)
        ensures
            dtype == self@.element_size,
    {
        self.dtype
    }

    /// The stored elements, in the order in which they were handed in.
    pub fn payload(&self) -> (payload: &Vec<T>)
        ensures
            payload@ == self@.payload,
    {
        &self.payload
    }
}

} // verus!
