use sampara::buffer::{Fixed, IndexError};

#[test]
fn iter() {
    let fixed = Fixed::from_offset(vec![4, 5, 6, 1, 2, 3], 3);

    let mut iter = fixed.iter();
    let mut collected = Vec::new();
    while let Some(x) = iter.next() {
        collected.push(x);
    }
    assert_eq!(collected, vec![&1, &2, &3, &4, &5, &6]);

    let mut iter_rev = fixed.iter();
    let mut collected = Vec::new();
    while let Some(x) = iter_rev.next_back() {
        collected.push(x);
    }
    assert_eq!(collected, vec![&6, &5, &4, &3, &2, &1]);

    let mut iter = fixed.iter();

    assert_eq!(iter.len(), 6);
    assert_eq!(iter.next(), Some(&1));
    assert_eq!(iter.next_back(), Some(&6));
    assert_eq!(iter.len(), 4);
    assert_eq!(iter.next(), Some(&2));
    assert_eq!(iter.next_back(), Some(&5));
    assert_eq!(iter.len(), 2);
    assert_eq!(iter.next(), Some(&3));
    assert_eq!(iter.next_back(), Some(&4));
    assert_eq!(iter.len(), 0);
    assert_eq!(iter.next(), None);
    assert_eq!(iter.next_back(), None);
}

#[test]
fn iter_nth_skips_items() {
    let fixed = Fixed::from_offset(vec![4, 5, 6, 1, 2, 3], 3);
    let mut iter = fixed.iter();
    assert_eq!(iter.nth(2), Some(&3));
    assert_eq!(iter.len(), 3);
    assert_eq!(iter.next(), Some(&4));
    assert_eq!(iter.nth(5), None);
    assert_eq!(iter.len(), 0);
    assert_eq!(iter.next(), None);
}

#[test]
fn fill_sets_every_slot_and_rewinds() {
    let mut buffer = Fixed::from(vec![1, 2, 3]);
    buffer.push(9);
    buffer.fill(0);
    assert_eq!(buffer.push(4), 0);
    assert_eq!(buffer.push(5), 0);
    assert_eq!(buffer.push(6), 0);
    assert_eq!(buffer.push(7), 4);
}

#[test]
fn fill_with_calls_the_generator_in_order() {
    let mut buffer = Fixed::from(vec![0, 0, 0]);
    let mut counter = 0;
    buffer.fill_with(|| {
        counter += 11;
        counter
    });
    assert_eq!(buffer.push(4), 11);
    assert_eq!(buffer.push(5), 22);
    assert_eq!(buffer.push(6), 33);
    assert_eq!(buffer.push(7), 4);
}

#[test]
fn capacity_is_the_number_of_slots() {
    let buffer = Fixed::from(vec![1, 2, 3, 4]);
    assert_eq!(buffer.capacity(), 4);
    let empty = Fixed::from(Vec::<u8>::new());
    assert_eq!(empty.capacity(), 0);
}

#[test]
fn push_evicts_the_oldest() {
    let mut buffer = Fixed::from(vec![1, 2, 3]);
    assert_eq!(buffer.push(4), 1);
    assert_eq!(buffer.push(5), 2);
    assert_eq!(buffer.push(6), 3);
    assert_eq!(buffer.push(7), 4);
    assert_eq!(buffer.push(8), 5);
    assert_eq!(buffer.push(9), 6);
}

#[test]
fn length_stays_at_capacity_however_many_pushes() {
    for capacity in 1..=8usize {
        let mut buffer = Fixed::from(vec![0u32; capacity]);
        for x in 0..100u32 {
            buffer.push(x);
            assert_eq!(buffer.capacity(), capacity);
            assert_eq!(buffer.iter().len(), capacity);
        }
        let mut iter = buffer.iter();
        let mut expected = 100 - capacity as u32;
        while let Some(x) = iter.next() {
            assert_eq!(*x, expected);
            expected += 1;
        }
        assert_eq!(expected, 100);
    }
}

#[test]
fn push_with_flag_reports_the_wrap() {
    let mut buffer = Fixed::from(vec![1, 2, 3]);
    assert_eq!(buffer.push_with_flag(4), (1, false));
    assert_eq!(buffer.push_with_flag(5), (2, false));
    assert_eq!(buffer.push_with_flag(6), (3, true));
    assert_eq!(buffer.push_with_flag(7), (4, false));
}

#[test]
fn push_on_zero_capacity_hands_the_item_back() {
    let mut buffer = Fixed::from(Vec::<i32>::new());
    assert_eq!(buffer.push_with_flag(7), (7, true));
    assert_eq!(buffer.push(8), 8);
    assert_eq!(buffer.capacity(), 0);
    assert_eq!(buffer.get(0), Err(IndexError));
}

#[test]
fn get_is_bounds_checked() {
    let buffer = Fixed::from(vec![0, 1, 2]);
    assert_eq!(buffer.get(0), Ok(&0));
    assert_eq!(buffer.get(1), Ok(&1));
    assert_eq!(buffer.get(2), Ok(&2));
    assert_eq!(buffer.get(3), Err(IndexError));
    assert_eq!(buffer.get(4), Err(IndexError));
    assert_eq!(buffer.get(5), Err(IndexError));
}

#[test]
fn get_counts_from_the_oldest() {
    let mut buffer = Fixed::from(vec![0, 1, 2]);
    buffer.push(3);
    assert_eq!(buffer.get(0), Ok(&1));
    assert_eq!(buffer.get(1), Ok(&2));
    assert_eq!(buffer.get(2), Ok(&3));
}

#[test]
fn get_mut_is_bounds_checked() {
    let mut buffer = Fixed::from(vec![0, 1, 2]);
    assert_eq!(buffer.get_mut(0), Ok(&mut 0));
    assert_eq!(buffer.get_mut(1), Ok(&mut 1));
    assert_eq!(buffer.get_mut(2), Ok(&mut 2));
    assert_eq!(buffer.get_mut(3), Err(IndexError));
    buffer.push(3);
    *buffer.get_mut(0).unwrap() = 10;
    assert_eq!(buffer.buffer(), &vec![3, 10, 2]);
}

#[test]
fn get_wrapped_wraps_around() {
    let buffer = Fixed::from(vec![0, 1, 2]);
    assert_eq!(buffer.get_wrapped(0), &0);
    assert_eq!(buffer.get_wrapped(1), &1);
    assert_eq!(buffer.get_wrapped(2), &2);
    assert_eq!(buffer.get_wrapped(3), &0);
    assert_eq!(buffer.get_wrapped(4), &1);
    assert_eq!(buffer.get_wrapped(5), &2);
}

#[test]
fn get_wrapped_mut_wraps_around() {
    let mut buffer = Fixed::from(vec![0, 1, 2]);
    assert_eq!(buffer.get_wrapped_mut(3), &mut 0);
    assert_eq!(buffer.get_wrapped_mut(4), &mut 1);
    assert_eq!(buffer.get_wrapped_mut(5), &mut 2);
    buffer.push(3);
    *buffer.get_wrapped_mut(5) = 9;
    assert_eq!(buffer.get(2), Ok(&9));
    assert_eq!(buffer.buffer(), &vec![9, 1, 2]);
}

#[test]
fn from_offset_takes_the_head_modulo_the_capacity() {
    let mut buffer = Fixed::from_offset(vec![0, 1, 2], 1);
    assert_eq!(buffer.push(7), 1);
    assert_eq!(buffer.push(8), 2);
    assert_eq!(buffer.push(9), 0);

    let mut buffer = Fixed::from_offset(vec![0, 1, 2], 7);
    assert_eq!(buffer.push(7), 1);
    assert_eq!(buffer.push(8), 2);
    assert_eq!(buffer.push(9), 0);

    let buffer = Fixed::from_offset(Vec::<u8>::new(), 5);
    assert_eq!(buffer.raw_parts().0, 0);
}

#[test]
fn raw_parts_show_the_storage() {
    let mut buffer = Fixed::from(vec![0, 1, 2]);
    buffer.push(6);
    buffer.push(7);

    assert_eq!(buffer.raw_parts(), (2, &vec![6, 7, 2]));
    assert_eq!(buffer.buffer(), &vec![6, 7, 2]);
    assert_eq!(buffer.into_raw_parts(), (2, vec![6, 7, 2]));

    let mut buffer = Fixed::from(vec![0, 1, 2]);
    buffer.push(6);
    buffer.push(7);
    assert_eq!(buffer.into_buffer(), vec![6, 7, 2]);
}
