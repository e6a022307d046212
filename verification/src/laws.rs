use crate::cursor::{lemma_next_index_is_successor_mod, next_index};
use crate::model::{keep_newest, written, RingView, SlotView};
use crate::status::RingError;
use vstd::arithmetic::div_mod::{
    lemma_add_mod_noop, lemma_mod_add_multiples_vanish, lemma_small_mod,
};
use vstd::prelude::*;

verus! {

/// Below twice the modulus, reducing means taking the modulus off at most
/// once.
proof fn lemma_wrap_once(x: int, m: int)
    requires
        0 < m,
        0 <= x < 2 * m,
    ensures
        x % m == if x < m {
            x
        } else {
            x - m
        },
{
    if x < m {
        lemma_small_mod(x as nat, m as nat);
    } else {
        lemma_small_mod((x - m) as nat, m as nat);
        lemma_mod_add_multiples_vanish(x - m, m);
    }
}

/// Stepping a reduced index is reducing the stepped index.
proof fn lemma_step_after_reduce(x: nat, m: nat)
    requires
        0 < m,
    ensures
        next_index(x % m, m) == (x + 1) % m,
{
    lemma_next_index_is_successor_mod(x % m, m);
    lemma_add_mod_noop(x as int, 1, m as int);
    if m > 1 {
        lemma_small_mod(1, m);
    }
}

/// In a valid state every slot has the byte length of its payload: the
/// number of elements times the element size that the slot records. That size
/// is the buffer's own wherever the slot holds anything.
pub proof fn lemma_slots_are_sized<T>(state: RingView<T>, index: int)
    requires
        state.wf(),
        0 <= index < state.capacity,
    ensures
        state.slots[index].wf(),
        state.slots[index].payload.len() > 0 ==> state.slots[index].element_size
            == state.element_size,
{
    assert(state.slots[index].fits(state.element_size));
}

/// A write keeps a valid state valid.
pub proof fn lemma_write_keeps_wf<T>(state: RingView<T>, payload: Seq<T>)
    requires
        state.wf(),
    ensures
        state.after_write(payload).wf(),
{
}

/// A read keeps a valid state valid.
pub proof fn lemma_read_keeps_wf<T>(state: RingView<T>)
    requires
        state.wf(),
    ensures
        state.after_read().wf(),
{
}

/// One write, seen from the reader's side. In a buffer whose cursors are in
/// step the new entry queues up behind the unread ones, and where the buffer
/// was full the oldest of them is dropped to make room. The cursors stay in
/// step.
pub proof fn lemma_write_queues_behind_unread<T>(state: RingView<T>, payload: Seq<T>)
    requires
        state.wf(),
        state.in_step(),
    ensures
        state.after_write(payload).wf(),
        state.after_write(payload).in_step(),
        state.after_write(payload).unread() == keep_newest(
            state.unread().push(SlotView::holding(payload, state.element_size)),
            state.capacity,
        ),
{
    let after = state.after_write(payload);
    let c = state.capacity as int;
    let r = state.read_cursor as int;
    let n = state.occupancy as int;
    let entry = SlotView::holding(payload, state.element_size);
    let queued = keep_newest(state.unread().push(entry), state.capacity);
    lemma_wrap_once(r + n, c);
    lemma_wrap_once((after.read_cursor + after.occupancy) as int, c);
    assert forall|k: int| 0 <= k < queued.len() implies after.unread()[k] == queued[k] by {
        lemma_wrap_once(after.read_cursor + k, c);
        if state.is_full() {
            lemma_wrap_once(r + k + 1, c);
        }
    }
}

/// One read of a buffer that is not empty and whose cursors are in step: it
/// reports success, shows the oldest unread entry and leaves the others
/// unread, in their order. The cursors stay in step.
pub proof fn lemma_read_takes_oldest_unread<T>(state: RingView<T>)
    requires
        state.wf(),
        state.in_step(),
        !state.is_empty(),
    ensures
        state.read_status() == RingError::NoError,
        state.read_slot() == state.unread()[0],
        state.after_read().wf(),
        state.after_read().in_step(),
        state.after_read().unread() == state.unread().drop_first(),
{
    let after = state.after_read();
    let c = state.capacity as int;
    let r = state.read_cursor as int;
    let n = state.occupancy as int;
    lemma_wrap_once(r, c);
    lemma_wrap_once(r + n, c);
    lemma_wrap_once((after.read_cursor + after.occupancy) as int, c);
    let rest = state.unread().drop_first();
    assert forall|k: int| 0 <= k < rest.len() implies after.unread()[k] == rest[k] by {
        lemma_wrap_once(after.read_cursor + k, c);
        lemma_wrap_once(r + k + 1, c);
    }
}

/// A run of writes into a buffer whose cursors are in step. Afterwards the
/// unread entries are the former ones followed by the written ones, cut down
/// to the newest `capacity` of them, and the write cursor has gone round the
/// ring by the number of writes.
pub proof fn lemma_writes_queue_in_order<T>(state: RingView<T>, payloads: Seq<Seq<T>>)
    requires
        state.wf(),
        state.in_step(),
    ensures
        state.after_writes(payloads).wf(),
        state.after_writes(payloads).in_step(),
        state.after_writes(payloads).capacity == state.capacity,
        state.after_writes(payloads).element_size == state.element_size,
        state.after_writes(payloads).unread() == keep_newest(
            state.unread() + written(payloads, state.element_size),
            state.capacity,
        ),
        state.after_writes(payloads).occupancy == if state.occupancy + payloads.len()
            <= state.capacity {
            state.occupancy + payloads.len()
        } else {
            state.capacity
        },
        state.after_writes(payloads).write_cursor == (state.write_cursor + payloads.len())
            % state.capacity,
    decreases payloads.len(),
{
    let c = state.capacity;
    let e = state.element_size;
    if payloads.len() == 0 {
        lemma_small_mod(state.write_cursor, c);
    } else {
        let earlier = payloads.drop_last();
        let before = state.after_writes(earlier);
        lemma_writes_queue_in_order(state, earlier);
        lemma_write_queues_behind_unread(before, payloads.last());
        let entry = SlotView::holding(payloads.last(), e);
        assert((state.unread() + written(earlier, e)).push(entry) =~= state.unread() + written(
            payloads,
            e,
        ));
        lemma_step_after_reduce(state.write_cursor + earlier.len(), c);
    }
}

/// A run of reads that stays within the unread entries of a buffer whose
/// cursors are in step. Each read reports success and shows the next unread
/// entry, oldest first, and what was not read stays unread.
pub proof fn lemma_reads_drain_in_order<T>(state: RingView<T>, count: nat)
    requires
        state.wf(),
        state.in_step(),
        count <= state.occupancy,
    ensures
        state.after_reads(count).wf(),
        state.after_reads(count).in_step(),
        state.after_reads(count).unread() == state.unread().skip(count as int),
        state.after_reads(count).occupancy == state.occupancy - count,
        forall|i: nat|
            i < count ==> (#[trigger] state.after_reads(i)).read_status() == RingError::NoError
                && state.after_reads(i).read_slot() == state.unread()[i as int],
    decreases count,
{
    if count > 0 {
        let earlier = (count - 1) as nat;
        lemma_reads_drain_in_order(state, earlier);
        lemma_read_takes_oldest_unread(state.after_reads(earlier));
        assert(state.unread().skip(earlier as int).drop_first() =~= state.unread().skip(
            count as int,
        ));
    }
}

/// A new buffer is valid, its cursors are in step and nothing is unread.
pub proof fn lemma_fresh_is_valid<T>(capacity: nat, element_size: nat)
    requires
        0 < capacity,
    ensures
        RingView::<T>::fresh(capacity, element_size).wf(),
        RingView::<T>::fresh(capacity, element_size).in_step(),
        RingView::<T>::fresh(capacity, element_size).unread() == Seq::<SlotView<T>>::empty(),
{
    lemma_small_mod(0, capacity);
}

/// First in, first out. Write no more payloads into a new buffer than it has
/// slots, then read as often as was written: every read reports success and
/// shows the payloads in the order of the writes, each with a byte length of
/// its number of elements times the element size.
pub proof fn lemma_writes_within_capacity_read_back<T>(
    capacity: nat,
    element_size: nat,
    payloads: Seq<Seq<T>>,
)
    requires
        0 < capacity,
        payloads.len() <= capacity,
    ensures
        forall|i: nat|
            i < payloads.len() ==> {
                let read = #[trigger] RingView::<T>::fresh(capacity, element_size).after_writes(
                    payloads,
                ).after_reads(i);
                &&& read.read_status() == RingError::NoError
                &&& read.read_slot().payload == payloads[i as int]
                &&& read.read_slot().element_size == element_size
                &&& read.read_slot().byte_length == payloads[i as int].len() * element_size
            },
        RingView::<T>::fresh(capacity, element_size).after_writes(payloads).after_reads(
            payloads.len(),
        ).is_empty(),
{
    let fresh = RingView::<T>::fresh(capacity, element_size);
    let filled = fresh.after_writes(payloads);
    lemma_fresh_is_valid::<T>(capacity, element_size);
    lemma_writes_queue_in_order(fresh, payloads);
    lemma_reads_drain_in_order(filled, payloads.len());
}

/// Overwrite of the oldest. Write `lost` payloads more into a new buffer
/// than it has slots. The buffer is then full and the entries of the first
/// `lost` writes are gone: what is unread are the entries of the other
/// `capacity` writes, and the reads show them in the order of the writes,
/// the first read that of write number `lost + 1`.
pub proof fn lemma_overflow_drops_oldest<T>(
    capacity: nat,
    element_size: nat,
    payloads: Seq<Seq<T>>,
    lost: nat,
)
    requires
        0 < capacity,
        1 <= lost,
        payloads.len() == capacity + lost,
    ensures
        RingView::<T>::fresh(capacity, element_size).after_writes(payloads).is_full(),
        RingView::<T>::fresh(capacity, element_size).after_writes(payloads).unread() == written(
            payloads.skip(lost as int),
            element_size,
        ),
        RingView::<T>::fresh(capacity, element_size).after_writes(payloads).read_status()
            == RingError::NoError,
        RingView::<T>::fresh(capacity, element_size).after_writes(payloads).read_slot()
            == SlotView::holding(payloads[lost as int], element_size),
        forall|i: nat|
            i < capacity ==> {
                let read = #[trigger] RingView::<T>::fresh(capacity, element_size).after_writes(
                    payloads,
                ).after_reads(i);
                &&& read.read_status() == RingError::NoError
                &&& read.read_slot() == SlotView::holding(payloads[lost + i as int], element_size)
            },
{
    let fresh = RingView::<T>::fresh(capacity, element_size);
    let filled = fresh.after_writes(payloads);
    lemma_fresh_is_valid::<T>(capacity, element_size);
    lemma_writes_queue_in_order(fresh, payloads);
    lemma_reads_drain_in_order(filled, capacity);
    assert(filled.after_reads(0) == filled);
}

/// Reads of a buffer with nothing unread. Each of them reports that the buffer
/// is empty and changes nothing but the read cursor, which goes round the
/// ring by one position per read.
pub proof fn lemma_reads_of_empty_only_move_cursor<T>(state: RingView<T>, count: nat)
    requires
        state.wf(),
        state.is_empty(),
    ensures
        state.after_reads(count).wf(),
        state.after_reads(count).read_status() == RingError::RingEmptyError,
        state.after_reads(count) == (RingView {
            read_cursor: (state.read_cursor + count) % state.capacity,
            ..state
        }),
        state.after_reads(count + 1).read_cursor == next_index(
            state.after_reads(count).read_cursor,
            state.capacity,
        ),
    decreases count,
{
    if count == 0 {
        lemma_small_mod(state.read_cursor, state.capacity);
    } else {
        let earlier = (count - 1) as nat;
        lemma_reads_of_empty_only_move_cursor(state, earlier);
        lemma_step_after_reduce(state.read_cursor + earlier, state.capacity);
    }
}

/// Reads of a new buffer report that it is empty, every time, and the read
/// cursor still advances by one position with each of them.
pub proof fn lemma_reads_of_fresh_are_empty<T>(capacity: nat, element_size: nat, count: nat)
    requires
        0 < capacity,
    ensures
        RingView::<T>::fresh(capacity, element_size).after_reads(count).read_status()
            == RingError::RingEmptyError,
        RingView::<T>::fresh(capacity, element_size).after_reads(count).read_cursor == count
            % capacity,
        RingView::<T>::fresh(capacity, element_size).after_reads(count + 1).read_cursor
            == next_index(
            RingView::<T>::fresh(capacity, element_size).after_reads(count).read_cursor,
            capacity,
        ),
{
    lemma_reads_of_empty_only_move_cursor(RingView::<T>::fresh(capacity, element_size), count);
}

/// Filling up. After as many writes into a new buffer as it has slots, and no
/// read, every slot holds unread data and both cursors stand at 0 again. The
/// next write then overwrites the oldest entry: the read cursor moves on by
/// one position and the buffer stays full.
pub proof fn lemma_full_after_capacity_writes<T>(
    capacity: nat,
    element_size: nat,
    payloads: Seq<Seq<T>>,
    next: Seq<T>,
)
    requires
        0 < capacity,
        payloads.len() == capacity,
    ensures
        RingView::<T>::fresh(capacity, element_size).after_writes(payloads).occupancy == capacity,
        RingView::<T>::fresh(capacity, element_size).after_writes(payloads).is_full(),
        RingView::<T>::fresh(capacity, element_size).after_writes(payloads).write_cursor == 0,
        RingView::<T>::fresh(capacity, element_size).after_writes(payloads).read_cursor == 0,
        RingView::<T>::fresh(capacity, element_size).after_writes(payloads).after_write(
            next,
        ).read_cursor == next_index(0, capacity),
        RingView::<T>::fresh(capacity, element_size).after_writes(payloads).after_write(
            next,
        ).is_full(),
{
    let fresh = RingView::<T>::fresh(capacity, element_size);
    let filled = fresh.after_writes(payloads);
    lemma_fresh_is_valid::<T>(capacity, element_size);
    lemma_writes_queue_in_order(fresh, payloads);
    lemma_wrap_once((filled.read_cursor + capacity) as int, capacity as int);
}

/// Wraparound. A run of writes moves the write cursor round the ring by the
/// number of writes, whatever else the state holds, so `capacity` writes
/// bring it back to where it stood: to 0 in a new buffer.
pub proof fn lemma_write_cursor_wraps_around<T>(state: RingView<T>, payloads: Seq<Seq<T>>)
    requires
        state.wf(),
    ensures
        state.after_writes(payloads).wf(),
        state.after_writes(payloads).capacity == state.capacity,
        state.after_writes(payloads).write_cursor == (state.write_cursor + payloads.len())
            % state.capacity,
        payloads.len() == state.capacity ==> state.after_writes(payloads).write_cursor
            == state.write_cursor,
    decreases payloads.len(),
{
    let c = state.capacity;
    if payloads.len() == 0 {
        lemma_small_mod(state.write_cursor, c);
    } else {
        let earlier = payloads.drop_last();
        lemma_write_cursor_wraps_around(state, earlier);
        lemma_step_after_reduce(state.write_cursor + earlier.len(), c);
    }
    if payloads.len() == c {
        lemma_wrap_once((state.write_cursor + c) as int, c as int);
    }
}

} // verus!
