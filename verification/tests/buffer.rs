use shared_reader::{BufIds, BufMut, SharedReader, SliceSource};

#[test]
fn a_new_buffer_is_zero_filled_with_both_cursors_at_zero() {
    let mut b = BufMut::new(5, &mut BufIds::new());
    assert_eq!(b.consumed(), b"");
    assert_eq!(b.available(), b"");
    assert_eq!(b.unfilled(), &[0u8; 5]);
}

#[test]
fn a_buffer_of_no_capacity_has_no_room() {
    let mut b = BufMut::new(0, &mut BufIds::new());
    assert!(b.unfilled().is_empty());
    assert!(b.available().is_empty());
}

#[test]
fn append_copies_and_advances_filled() {
    let mut b = BufMut::new(6, &mut BufIds::new());
    b.append(b"abc");
    assert_eq!(b.available(), b"abc");
    assert_eq!(b.unfilled().len(), 3);
    b.append(b"de");
    assert_eq!(b.available(), b"abcde");
    assert_eq!(b.unfilled(), &[0u8]);
    b.append(b"");
    assert_eq!(b.available(), b"abcde");
}

#[test]
fn fill_declares_written_what_was_put_in_the_room() {
    let mut b = BufMut::new(4, &mut BufIds::new());
    b.unfilled()[..3].copy_from_slice(b"xyz");
    assert_eq!(b.available(), b"");
    assert_eq!(b.fill(2), b"xy");
    assert_eq!(b.available(), b"xy");
    assert_eq!(b.unfilled(), b"z\0");
    assert_eq!(b.fill(1), b"z");
    assert_eq!(b.available(), b"xyz");
    assert_eq!(b.fill(0), b"");
}

#[test]
fn consume_hands_out_from_the_front() {
    let mut b = BufMut::new(8, &mut BufIds::new());
    b.append(b"hello");
    assert_eq!(b.consume(2), b"he");
    assert_eq!(b.consumed(), b"he");
    assert_eq!(b.available(), b"llo");
    assert_eq!(b.consume(0), b"");
    assert_eq!(b.consume(3), b"llo");
    assert_eq!(b.consumed(), b"hello");
    assert_eq!(b.available(), b"");
    assert_eq!(b.unfilled().len(), 3);
}

#[test]
fn borrow_names_the_same_buffer_each_time() {
    let mut b = BufMut::new(4, &mut BufIds::new());
    let before = b.borrow();
    b.append(b"ab");
    b.consume(1);
    assert_eq!(b.borrow(), before);
    assert_eq!(before.clone(), before);
}

#[test]
fn grow_carries_the_available_bytes_to_the_start_of_the_next_buffer() {
    let mut ids = BufIds::new();
    let mut b = BufMut::new(4, &mut ids);
    b.append(b"abcd");
    b.consume(1);
    let mut next = b.grow(6, &mut ids);
    assert_eq!(next.consumed(), b"");
    assert_eq!(next.available(), b"bcd");
    assert_eq!(next.unfilled(), &[0u8; 3]);
    assert_ne!(next.borrow(), b.borrow());
    // The old buffer is as it was.
    assert_eq!(b.consumed(), b"a");
    assert_eq!(b.available(), b"bcd");
}

#[test]
fn each_buffer_has_its_own_handle() {
    let mut ids = BufIds::new();
    let first = BufMut::new(2, &mut ids);
    let second = first.grow(2, &mut ids);
    let third = second.grow(2, &mut ids);
    assert_ne!(first.borrow(), second.borrow());
    assert_ne!(second.borrow(), third.borrow());
    assert_ne!(first.borrow(), third.borrow());
}

#[test]
fn two_buffers_with_the_same_bytes_are_not_the_same_buffer() {
    let mut ids = BufIds::new();
    let b1 = BufMut::new(4, &mut ids);
    let b2 = BufMut::new(4, &mut ids);
    assert_eq!(b1.available(), b2.available());
    assert_ne!(b1.borrow(), b2.borrow());
    assert_eq!(b1.borrow(), b1.borrow());
    assert_eq!(b1.borrow().clone(), b1.borrow());
}

#[test]
fn the_buffers_of_two_readers_are_not_the_same_buffer() {
    let mut ids = BufIds::new();
    let mut r1 = SharedReader::new(SliceSource::new(b"0123456789\n"), 4, ids.split());
    let mut r2 = SharedReader::new(SliceSource::new(b"0123456789\n"), 4, ids.split());
    let mut seen = vec![r1.buffer(), r2.buffer()];
    seen.push(r1.read_line().unwrap().buf());
    seen.push(r2.read_line().unwrap().buf());
    seen.push(BufMut::new(4, &mut ids).borrow());
    for (i, a) in seen.iter().enumerate() {
        for b in &seen[..i] {
            assert_ne!(a, b);
        }
    }
}

#[test]
fn a_split_leaves_no_number_to_both() {
    let mut ids = BufIds::new();
    let all = ids.left();
    let mut upper = ids.split();
    assert_eq!(ids.left() + upper.left(), all);
    assert!(upper.left() >= ids.left());
    let lower = BufMut::new(1, &mut ids).borrow();
    let higher = BufMut::new(1, &mut upper).borrow();
    assert_ne!(lower, higher);
    assert_eq!(ids.left() + upper.left(), all - 2);
}

#[test]
fn a_handle_does_not_show_bytes() {
    let mut b = BufMut::new(4, &mut BufIds::new());
    let empty = format!("{:?}", b.borrow());
    b.append(b"\x07\x07\x07\x07");
    let filled = format!("{:?}", b.borrow());
    assert!(empty.starts_with("Buf"));
    assert_eq!(empty, filled);
}

#[test]
fn buffers_numbered_by_two_families_are_not_the_same_buffer() {
    let b1 = BufMut::new(4, &mut BufIds::new());
    let b2 = BufMut::new(4, &mut BufIds::new());
    assert_ne!(b1.borrow(), b2.borrow());
    let r1 = SharedReader::new(SliceSource::new(b"a\n"), 4, BufIds::new());
    let r2 = SharedReader::new(SliceSource::new(b"a\n"), 4, BufIds::new());
    assert_ne!(r1.buffer(), r2.buffer());
    assert_ne!(r1.buffer(), b1.borrow());
}
