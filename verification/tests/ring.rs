use ring_buffer::{increment_index, RingBuffer, RingBufferData, RingError};

fn buffer_of<T>(capacity: u64, element_size: usize) -> RingBuffer<T> {
    match RingBuffer::init_ring_buffer(capacity, element_size) {
        Ok(buffer) => buffer,
        Err(error) => panic!("no buffer of {} slots: {:?}", capacity, error),
    }
}

fn assert_slot<T: PartialEq + std::fmt::Debug>(
    slot: &RingBufferData<T>,
    payload: &[T],
    element_size: usize,
) {
    assert_eq!(slot.payload().as_slice(), payload);
    assert_eq!(slot.dtype(), element_size);
    assert_eq!(slot.bytes(), payload.len() as u128 * element_size as u128);
}

#[test]
fn increment_index_steps_and_wraps() {
    assert_eq!(increment_index(0, 3), 1);
    assert_eq!(increment_index(1, 3), 2);
    assert_eq!(increment_index(2, 3), 0);
    assert_eq!(increment_index(0, 1), 0);
    assert_eq!(increment_index(6, 8), 7);
    assert_eq!(increment_index(7, 8), 0);
}

#[test]
fn increment_index_outside_the_ring_goes_to_zero() {
    assert_eq!(increment_index(3, 3), 0);
    assert_eq!(increment_index(5, 3), 0);
    assert_eq!(increment_index(0, 0), 0);
    assert_eq!(increment_index(u64::MAX, u64::MAX), 0);
    assert_eq!(increment_index(u64::MAX - 1, u64::MAX), 0);
    assert_eq!(increment_index(u64::MAX - 2, u64::MAX), u64::MAX - 1);
}

#[test]
fn new_buffer_has_its_configuration_and_nothing_unread() {
    let buffer: RingBuffer<f64> = buffer_of(3, 8);
    assert_eq!(buffer.capacity(), 3);
    assert_eq!(buffer.t_size(), 8);
    assert_eq!(buffer.get_current_head_index(), 0);
    assert_eq!(buffer.get_current_read_index(), 0);
    assert_eq!(buffer.get_items_in_buffer(), 0);
}

#[test]
fn zero_capacity_is_an_invalid_configuration() {
    let made = RingBuffer::<u8>::init_ring_buffer(0, 1);
    assert!(matches!(made, Err(RingError::InvalidConfiguration)));
    let made = RingBuffer::<f64>::init_ring_buffer(0, 0);
    assert!(matches!(made, Err(RingError::InvalidConfiguration)));
}

#[test]
fn zero_element_size_is_accepted() {
    let mut buffer: RingBuffer<()> = buffer_of(2, 0);
    assert_eq!(buffer.t_size(), 0);
    assert_eq!(buffer.add_new_data(vec![(), (), ()]), RingError::NoError);
    let read = buffer.get_data();
    assert_eq!(read.status, RingError::NoError);
    assert_eq!(read.ring_buffer_data.payload().len(), 3);
    assert_eq!(read.ring_buffer_data.bytes(), 0);
    assert_eq!(read.ring_buffer_data.dtype(), 0);
}

#[test]
fn write_reports_success_and_moves_the_head() {
    let mut buffer: RingBuffer<u32> = buffer_of(4, 4);
    assert_eq!(buffer.add_new_data(vec![7, 8]), RingError::NoError);
    assert_eq!(buffer.get_current_head_index(), 1);
    assert_eq!(buffer.get_current_read_index(), 0);
    assert_eq!(buffer.get_items_in_buffer(), 1);
}

#[test]
fn byte_length_is_element_count_times_element_size() {
    let mut buffer: RingBuffer<u16> = buffer_of(2, 2);
    buffer.add_new_data(vec![1, 2, 3, 4, 5]);
    let read = buffer.get_data();
    assert_eq!(read.status, RingError::NoError);
    assert_eq!(read.ring_buffer_data.bytes(), 10);
    assert_eq!(read.ring_buffer_data.dtype(), 2);
    assert_eq!(read.ring_buffer_data.payload(), &vec![1u16, 2, 3, 4, 5]);
}

#[test]
fn byte_length_does_not_wrap_for_a_huge_element_size() {
    let mut buffer: RingBuffer<u8> = buffer_of(1, usize::MAX);
    buffer.add_new_data(vec![1, 2, 3]);
    let read = buffer.get_data();
    assert_eq!(read.ring_buffer_data.bytes(), 3 * (usize::MAX as u128));
    assert_eq!(read.ring_buffer_data.dtype(), usize::MAX);
}

#[test]
fn empty_payload_is_stored_like_any_other() {
    let mut buffer: RingBuffer<f64> = buffer_of(2, 8);
    assert_eq!(buffer.add_new_data(Vec::new()), RingError::NoError);
    assert_eq!(buffer.get_items_in_buffer(), 1);
    let read = buffer.get_data();
    assert_eq!(read.status, RingError::NoError);
    assert_slot(read.ring_buffer_data, &[], 8);
}

#[test]
fn writes_within_capacity_are_read_back_in_order() {
    let mut buffer: RingBuffer<i32> = buffer_of(4, 4);
    let payloads = vec![vec![10, 11], vec![], vec![20], vec![30, 31, 32]];
    for payload in payloads.iter() {
        assert_eq!(buffer.add_new_data(payload.clone()), RingError::NoError);
    }
    assert_eq!(buffer.get_items_in_buffer(), 4);
    for payload in payloads.iter() {
        let read = buffer.get_data();
        assert_eq!(read.status, RingError::NoError);
        assert_slot(read.ring_buffer_data, payload, 4);
    }
    assert_eq!(buffer.get_items_in_buffer(), 0);
    assert_eq!(buffer.get_data().status, RingError::RingEmptyError);
}

#[test]
fn fewer_writes_than_slots_are_read_back_in_order() {
    let mut buffer: RingBuffer<u8> = buffer_of(5, 1);
    buffer.add_new_data(vec![1]);
    buffer.add_new_data(vec![2, 2]);
    let read = buffer.get_data();
    assert_eq!(read.status, RingError::NoError);
    assert_slot(read.ring_buffer_data, &[1], 1);
    let read = buffer.get_data();
    assert_eq!(read.status, RingError::NoError);
    assert_slot(read.ring_buffer_data, &[2, 2], 1);
    assert_eq!(buffer.get_data().status, RingError::RingEmptyError);
}

#[test]
fn overflow_by_two_loses_the_two_oldest() {
    let mut buffer: RingBuffer<u64> = buffer_of(3, 8);
    for n in 1..=5u64 {
        buffer.add_new_data(vec![n, n * 100]);
    }
    assert_eq!(buffer.get_items_in_buffer(), 3);
    assert_eq!(buffer.get_current_read_index(), 2);
    assert_eq!(buffer.get_current_head_index(), 2);
    for n in 3..=5u64 {
        let read = buffer.get_data();
        assert_eq!(read.status, RingError::NoError);
        assert_slot(read.ring_buffer_data, &[n, n * 100], 8);
    }
    assert_eq!(buffer.get_data().status, RingError::RingEmptyError);
}

#[test]
fn overflow_by_more_than_the_capacity_keeps_the_newest() {
    let mut buffer: RingBuffer<u32> = buffer_of(3, 4);
    for n in 0..7u32 {
        buffer.add_new_data(vec![n]);
    }
    let first = buffer.get_data();
    assert_eq!(first.status, RingError::NoError);
    assert_slot(first.ring_buffer_data, &[4], 4);
    let second = buffer.get_data();
    assert_slot(second.ring_buffer_data, &[5], 4);
    let third = buffer.get_data();
    assert_slot(third.ring_buffer_data, &[6], 4);
    assert_eq!(buffer.get_data().status, RingError::RingEmptyError);
}

#[test]
fn reads_of_a_new_buffer_are_empty_and_move_the_cursor() {
    let mut buffer: RingBuffer<f32> = buffer_of(3, 4);
    let expected_cursor = [1u64, 2, 0, 1, 2, 0, 1];
    for cursor in expected_cursor {
        {
            let read = buffer.get_data();
            assert_eq!(read.status, RingError::RingEmptyError);
            assert_slot(read.ring_buffer_data, &[], 0);
        }
        assert_eq!(buffer.get_current_read_index(), cursor);
        assert_eq!(buffer.get_items_in_buffer(), 0);
        assert_eq!(buffer.get_current_head_index(), 0);
    }
}

#[test]
fn full_after_capacity_writes_then_the_next_write_moves_the_read_cursor() {
    let mut buffer: RingBuffer<u8> = buffer_of(4, 1);
    for n in 0..4u8 {
        buffer.add_new_data(vec![n]);
        assert_eq!(buffer.get_items_in_buffer(), n as u64 + 1);
        assert_eq!(buffer.get_current_read_index(), 0);
    }
    assert_eq!(buffer.get_items_in_buffer(), buffer.capacity());
    assert_eq!(buffer.get_current_head_index(), 0);
    buffer.add_new_data(vec![4]);
    assert_eq!(buffer.get_items_in_buffer(), 4);
    assert_eq!(buffer.get_current_read_index(), 1);
    assert_eq!(buffer.get_current_head_index(), 1);
    let read = buffer.get_data();
    assert_eq!(read.status, RingError::NoError);
    assert_slot(read.ring_buffer_data, &[1], 1);
}

#[test]
fn write_cursor_returns_to_zero_after_capacity_writes() {
    for capacity in 1..=6u64 {
        let mut buffer: RingBuffer<u64> = buffer_of(capacity, 8);
        for n in 0..capacity {
            assert_eq!(buffer.get_current_head_index(), n);
            buffer.add_new_data(vec![n]);
        }
        assert_eq!(buffer.get_current_head_index(), 0);
    }
}

#[test]
fn write_cursor_comes_back_from_any_position() {
    let mut buffer: RingBuffer<u8> = buffer_of(5, 1);
    buffer.add_new_data(vec![0]);
    buffer.add_new_data(vec![0]);
    assert_eq!(buffer.get_current_head_index(), 2);
    for _ in 0..5 {
        buffer.add_new_data(vec![1]);
    }
    assert_eq!(buffer.get_current_head_index(), 2);
}

#[test]
fn doubles_in_three_slots_with_four_writes() {
    let mut buffer: RingBuffer<f64> = buffer_of(3, 8);
    assert_eq!(buffer.add_new_data(vec![0., 2., 4., 6.]), RingError::NoError);
    assert_eq!(buffer.add_new_data(vec![1., 3., 5., 7.]), RingError::NoError);
    assert_eq!(buffer.add_new_data(vec![2., 4., 6., 8.]), RingError::NoError);
    assert_eq!(buffer.get_items_in_buffer(), 3);
    assert_eq!(buffer.add_new_data(vec![3., 5., 7., 9.]), RingError::NoError);
    assert_eq!(buffer.get_items_in_buffer(), 3);

    let read = buffer.get_data();
    assert_eq!(read.status, RingError::NoError);
    assert_eq!(read.ring_buffer_data.payload(), &vec![1., 3., 5., 7.]);
    assert_eq!(read.ring_buffer_data.bytes(), 32);
    assert_eq!(read.ring_buffer_data.dtype(), 8);

    let read = buffer.get_data();
    assert_eq!(read.status, RingError::NoError);
    assert_eq!(read.ring_buffer_data.payload(), &vec![2., 4., 6., 8.]);

    let read = buffer.get_data();
    assert_eq!(read.status, RingError::NoError);
    assert_eq!(read.ring_buffer_data.payload(), &vec![3., 5., 7., 9.]);

    let read = buffer.get_data();
    assert_eq!(read.status, RingError::RingEmptyError);
}

#[test]
fn alternating_writes_and_reads_show_each_payload_once() {
    let mut buffer: RingBuffer<f64> = buffer_of(3, 8);
    let payloads = [
        vec![0., 2., 4., 6.],
        vec![1., 3., 5., 7.],
        vec![2., 4., 6., 8.],
        vec![3., 5., 7., 9.],
    ];
    let heads = [1u64, 2, 0, 1];
    for (payload, head) in payloads.iter().zip(heads) {
        buffer.add_new_data(payload.clone());
        assert_eq!(buffer.get_current_head_index(), head);
        let read = buffer.get_data();
        assert_eq!(read.status, RingError::NoError);
        assert_eq!(read.ring_buffer_data.bytes(), 32);
        assert_eq!(read.ring_buffer_data.dtype(), 8);
        assert_eq!(read.ring_buffer_data.payload(), payload);
    }
    assert_eq!(buffer.get_data().status, RingError::RingEmptyError);
}

#[test]
fn read_leaves_the_slot_in_place() {
    let mut buffer: RingBuffer<u8> = buffer_of(1, 1);
    buffer.add_new_data(vec![9, 9]);
    {
        let read = buffer.get_data();
        assert_eq!(read.status, RingError::NoError);
        assert_slot(read.ring_buffer_data, &[9, 9], 1);
    }
    let again = buffer.get_data();
    assert_eq!(again.status, RingError::RingEmptyError);
    assert_slot(again.ring_buffer_data, &[9, 9], 1);
}

#[test]
fn read_of_an_empty_buffer_puts_the_cursors_out_of_step() {
    let mut buffer: RingBuffer<u8> = buffer_of(3, 1);
    assert_eq!(buffer.get_data().status, RingError::RingEmptyError);
    assert_eq!(buffer.get_current_read_index(), 1);
    buffer.add_new_data(vec![5]);
    assert_eq!(buffer.get_current_head_index(), 1);
    {
        let read = buffer.get_data();
        assert_eq!(read.status, RingError::NoError);
        assert_slot(read.ring_buffer_data, &[], 0);
    }
    assert_eq!(buffer.get_current_read_index(), 2);
    assert_eq!(buffer.get_items_in_buffer(), 0);
}

#[test]
fn occupancy_goes_down_with_reads_and_stops_at_zero() {
    let mut buffer: RingBuffer<u8> = buffer_of(3, 1);
    buffer.add_new_data(vec![1]);
    buffer.add_new_data(vec![2]);
    assert_eq!(buffer.get_items_in_buffer(), 2);
    buffer.get_data();
    assert_eq!(buffer.get_items_in_buffer(), 1);
    buffer.get_data();
    assert_eq!(buffer.get_items_in_buffer(), 0);
    buffer.get_data();
    assert_eq!(buffer.get_items_in_buffer(), 0);
}

#[test]
fn status_values_compare_and_copy() {
    let status = RingError::NoError;
    let copy = status;
    assert_eq!(status, copy);
    assert_ne!(RingError::NoError, RingError::RingEmptyError);
    assert_ne!(RingError::RingEmptyError, RingError::InvalidConfiguration);
    assert_eq!(format!("{:?}", RingError::InvalidConfiguration), "InvalidConfiguration");
}
