use staging_buffer::Buffer;

#[test]
fn fill_and_consume() {
    let mut b = Buffer::with_capacity(10);
    assert_eq!(b.available_data(), 0);
    assert_eq!(b.available_space(), 10);
    let res = b.write(&b"abcd"[..]);
    assert_eq!(res, 4);
    assert_eq!(b.available_data(), 4);
    assert_eq!(b.available_space(), 6);

    assert_eq!(b.data(), &b"abcd"[..]);

    b.consume(2);
    assert_eq!(b.available_data(), 2);
    assert_eq!(b.available_space(), 6);
    assert_eq!(b.data(), &b"cd"[..]);

    b.shift();
    assert_eq!(b.available_data(), 2);
    assert_eq!(b.available_space(), 8);
    assert_eq!(b.data(), &b"cd"[..]);

    assert_eq!(b.write(&b"efghijklmnop"[..]), 8);
    assert_eq!(b.available_data(), 10);
    assert_eq!(b.available_space(), 0);
    assert_eq!(b.data(), &b"cdefghijkl"[..]);
    b.shift();
    assert_eq!(b.available_data(), 10);
    assert_eq!(b.available_space(), 0);
    assert_eq!(b.data(), &b"cdefghijkl"[..]);
}

#[test]
fn delete() {
    let mut b = Buffer::with_capacity(10);
    let _ = b.write(&b"abcdefgh"[..]);
    assert_eq!(b.available_data(), 8);
    assert_eq!(b.available_space(), 2);

    assert_eq!(b.delete_slice(2, 3), Some(5));
    assert_eq!(b.available_data(), 5);
    assert_eq!(b.available_space(), 5);
    assert_eq!(b.data(), &b"abfgh"[..]);

    assert_eq!(b.delete_slice(5, 2), None);
    assert_eq!(b.delete_slice(4, 2), None);
}

#[test]
fn replace() {
    let mut b = Buffer::with_capacity(10);
    let _ = b.write(&b"abcdefgh"[..]);
    assert_eq!(b.available_data(), 8);
    assert_eq!(b.available_space(), 2);

    assert_eq!(b.replace_slice(&b"ABC"[..], 2, 3), Some(8));
    assert_eq!(b.available_data(), 8);
    assert_eq!(b.available_space(), 2);
    assert_eq!(b.data(), &b"abABCfgh"[..]);

    assert_eq!(b.replace_slice(&b"XYZ"[..], 8, 3), None);
    assert_eq!(b.replace_slice(&b"XYZ"[..], 6, 3), None);

    assert_eq!(b.replace_slice(&b"XYZ"[..], 2, 4), Some(7));
    assert_eq!(b.available_data(), 7);
    assert_eq!(b.available_space(), 3);
    assert_eq!(b.data(), &b"abXYZgh"[..]);

    assert_eq!(b.replace_slice(&b"123"[..], 2, 2), Some(8));
    assert_eq!(b.available_data(), 8);
    assert_eq!(b.available_space(), 2);
    assert_eq!(b.data(), &b"ab123Zgh"[..]);
}

#[test]
fn set_position() {
    let mut output = [0; 5];
    let mut b = Buffer::with_capacity(10);
    let _ = b.write(&b"abcdefgh"[..]);
    let _ = b.read(&mut output);
    assert_eq!(b.available_data(), 3);
    println!("{:?}", b.position());
}

#[test]
fn consume_without_shift() {
    let mut b = Buffer::with_capacity(10);
    let _ = b.write(&b"abcdefgh"[..]);
    b.consume_noshift(6);
    assert_eq!(b.position(), 6);
}

#[test]
fn read_into_short_destination() {
    let mut b = Buffer::with_capacity(10);
    let _ = b.write(&b"abcdefgh"[..]);
    let mut output = [0; 5];
    let n = b.read(&mut output);
    assert_eq!(n, 5);
    assert_eq!(&output, b"abcde");
    assert_eq!(b.available_data(), 3);
    assert_eq!(b.data(), &b"fgh"[..]);
}

#[test]
fn write_then_read_round_trip() {
    let mut b = Buffer::with_capacity(6);
    assert_eq!(b.write(&b"abcdef"[..]), 6);
    let mut output = [0; 6];
    assert_eq!(b.read(&mut output), 6);
    assert_eq!(&output, b"abcdef");
    assert_eq!(b.available_data(), 0);
    assert!(b.empty());
}

#[test]
fn grow_only_when_larger() {
    let mut b = Buffer::with_capacity(4);
    let _ = b.write(&b"abcd"[..]);
    assert!(!b.grow(3));
    assert_eq!(b.capacity(), 4);
    assert!(!b.grow(4));
    assert_eq!(b.capacity(), 4);
    assert!(b.grow(8));
    assert_eq!(b.capacity(), 8);
    assert_eq!(b.available_space(), 4);
    assert_eq!(b.data(), &b"abcd"[..]);
}

#[test]
fn from_slice_is_fully_pending() {
    let mut b = Buffer::from_slice(&b"abc"[..]);
    assert_eq!(b.capacity(), 3);
    assert_eq!(b.position(), 0);
    assert_eq!(b.available_data(), 3);
    assert_eq!(b.available_space(), 0);
    assert_eq!(b.data(), &b"abc"[..]);
    b.consume(3);
    assert!(b.empty());
}

#[test]
fn reset_discards_pending_data() {
    let mut b = Buffer::with_capacity(8);
    let _ = b.write(&b"abcd"[..]);
    b.consume(1);
    b.reset();
    assert_eq!(b.position(), 0);
    assert_eq!(b.available_data(), 0);
    assert_eq!(b.available_space(), 8);
}

#[test]
fn fill_after_writing_into_space() {
    let mut b = Buffer::with_capacity(4);
    let s = b.space();
    assert_eq!(s.len(), 4);
    s[0] = b'x';
    s[1] = b'y';
    assert_eq!(b.fill(2), 2);
    assert_eq!(b.available_data(), 2);
    assert_eq!(b.data(), &b"xy"[..]);
    assert_eq!(b.space().len(), 2);
}

#[test]
fn insert_in_place() {
    let mut b = Buffer::with_capacity(10);
    let _ = b.write(&b"abcdefgh"[..]);
    assert_eq!(b.insert_slice(&b"XY"[..], 3), Some(10));
    assert_eq!(b.data(), &b"abcXYdefgh"[..]);
    assert_eq!(b.available_space(), 0);
}

#[test]
fn insert_compacts_when_needed() {
    let mut b = Buffer::with_capacity(10);
    let _ = b.write(&b"abcdefgh"[..]);
    b.consume(2);
    assert_eq!(b.available_space(), 2);
    assert_eq!(b.insert_slice(&b"XYZ"[..], 1), Some(9));
    assert_eq!(b.position(), 0);
    assert_eq!(b.data(), &b"cXYZdefgh"[..]);
}

#[test]
fn insert_rejections() {
    let mut b = Buffer::with_capacity(10);
    let _ = b.write(&b"abcd"[..]);
    // offset outside the pending data
    assert_eq!(b.insert_slice(&b"X"[..], 4), None);
    assert_eq!(b.data(), &b"abcd"[..]);
    // more bytes than even an empty space region could absorb
    assert_eq!(b.insert_slice(&b"vwxyz"[..], 1), None);
    assert_eq!(b.data(), &b"abcd"[..]);

    // no room even after compaction
    let mut f = Buffer::with_capacity(6);
    let _ = f.write(&b"abcdef"[..]);
    assert_eq!(f.insert_slice(&b"XYZ"[..], 1), None);
    assert_eq!(f.data(), &b"abcdef"[..]);
}

#[test]
fn delete_boundary() {
    let mut b = Buffer::with_capacity(10);
    let _ = b.write(&b"abcdefgh"[..]);
    // a range ending exactly at the last pending byte is rejected
    assert_eq!(b.delete_slice(3, 5), None);
    assert_eq!(b.data(), &b"abcdefgh"[..]);
    // one byte short of it is accepted
    assert_eq!(b.delete_slice(3, 4), Some(4));
    assert_eq!(b.data(), &b"abch"[..]);
}

#[test]
fn replace_at_window_edges() {
    let mut b = Buffer::with_capacity(10);
    let _ = b.write(&b"abcdefgh"[..]);
    // a same-size window may end at the last pending byte
    assert_eq!(b.replace_slice(&b"GH"[..], 6, 2), Some(8));
    assert_eq!(b.data(), &b"abcdefGH"[..]);
    // a shrinking window may end there too
    assert_eq!(b.replace_slice(&b"X"[..], 6, 2), Some(7));
    assert_eq!(b.data(), &b"abcdefX"[..]);
    // a growing window whose result cannot be held is rejected
    let mut f = Buffer::with_capacity(6);
    let _ = f.write(&b"abcdef"[..]);
    assert_eq!(f.replace_slice(&b"XYZ"[..], 1, 1), None);
    assert_eq!(f.data(), &b"abcdef"[..]);
}

#[test]
fn shift_twice_equals_once() {
    let mut b = Buffer::with_capacity(10);
    let _ = b.write(&b"abcdefgh"[..]);
    b.consume(3);
    b.shift();
    let pos = b.position();
    let data: Vec<u8> = b.data().to_vec();
    let space = b.available_space();
    b.shift();
    assert_eq!(b.position(), pos);
    assert_eq!(b.data(), &data[..]);
    assert_eq!(b.available_space(), space);
    assert_eq!(pos, 0);
}
