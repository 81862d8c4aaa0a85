use packed::Packed;

fn round_trip_at_all_offsets<T: Packed + PartialEq + core::fmt::Debug + Copy>(v: T) {
    let size = T::size();
    let cap = size / 8 + 3;
    for off in 0..=16usize {
        let mut buf = vec![0u8; cap];
        v.pack(&mut buf, off);
        let r = T::unpack(&buf, off);
        assert_eq!(r, v);
    }
}

#[test]
fn conformance_vector_pack() {
    let my_number: u16 = 42;
    let mut buf = vec![0u8; 3];
    my_number.pack(&mut buf, 3);
    assert_eq!(buf, [0b0000_0000, 0b0000_0101, 0b0100_0000]);
}

#[test]
fn conformance_vector_unpack() {
    let buf = vec![0b0000_0000u8, 0b0000_0101, 0b0100_0000];
    let r = u16::unpack(&buf, 3);
    assert_eq!(r, 42);
}

#[test]
fn bool_single_bit() {
    let mut buf = vec![0u8; 2];
    true.pack(&mut buf, 0);
    assert_eq!(buf, [0b1000_0000, 0]);
    true.pack(&mut buf, 9);
    assert_eq!(buf, [0b1000_0000, 0b0100_0000]);
    false.pack(&mut buf, 0);
    assert_eq!(buf, [0, 0b0100_0000]);
    assert!(bool::unpack(&buf, 9));
    assert!(!bool::unpack(&buf, 0));
}

#[test]
fn non_disturbance_u8_misaligned() {
    let mut buf = vec![0xFFu8; 3];
    0u8.pack(&mut buf, 3);
    assert_eq!(buf, [0b1110_0000, 0b0001_1111, 0xFF]);
}

#[test]
fn non_disturbance_u16_in_ones() {
    let mut buf = vec![0xFFu8; 4];
    0u16.pack(&mut buf, 5);
    assert_eq!(buf, [0b1111_1000, 0b0000_0000, 0b0000_0111, 0xFF]);
}

#[test]
fn byte_aligned_is_big_endian_u32() {
    let mut buf = vec![0u8; 6];
    0xDEAD_BEEFu32.pack(&mut buf, 8);
    assert_eq!(buf, [0, 0xDE, 0xAD, 0xBE, 0xEF, 0]);
}

#[test]
fn byte_aligned_is_big_endian_u64() {
    let mut buf = vec![0u8; 8];
    0x0102_0304_0506_0708u64.pack(&mut buf, 0);
    assert_eq!(buf, [1, 2, 3, 4, 5, 6, 7, 8]);
}

#[test]
fn signed_unsigned_same_bit_pattern() {
    let mut buf_s = vec![0u8; 3];
    let mut buf_u = vec![0u8; 3];
    (-1i8).pack(&mut buf_s, 3);
    255u8.pack(&mut buf_u, 3);
    assert_eq!(buf_s, buf_u);
    assert_eq!(buf_s, [0b0001_1111, 0b1110_0000, 0]);
}

#[test]
fn signed_round_trip_values() {
    for v in [-128i8, -1, 0, 1, 127] {
        round_trip_at_all_offsets(v);
    }
    for v in [i16::MIN, -12345, 0, 1, i16::MAX] {
        round_trip_at_all_offsets(v);
    }
    for v in [i32::MIN, -1, 0, 7, i32::MAX] {
        round_trip_at_all_offsets(v);
    }
    for v in [i64::MIN, -1, 0, 42, i64::MAX] {
        round_trip_at_all_offsets(v);
    }
    for v in [i128::MIN, -1, 0, 42, i128::MAX] {
        round_trip_at_all_offsets(v);
    }
    for v in [isize::MIN, -1, 0, 42, isize::MAX] {
        round_trip_at_all_offsets(v);
    }
}

#[test]
fn unsigned_round_trip_values() {
    round_trip_at_all_offsets(true);
    round_trip_at_all_offsets(false);
    for v in [0u8, 1, 0xA5, 0xFF] {
        round_trip_at_all_offsets(v);
    }
    for v in [0u16, 42, 0xBEEF, u16::MAX] {
        round_trip_at_all_offsets(v);
    }
    for v in [0u32, 0xDEAD_BEEF, u32::MAX] {
        round_trip_at_all_offsets(v);
    }
    for v in [0u64, 0x0123_4567_89AB_CDEF, u64::MAX] {
        round_trip_at_all_offsets(v);
    }
    for v in [0u128, 1, u64::MAX as u128 + 1, u128::MAX] {
        round_trip_at_all_offsets(v);
    }
    for v in [0usize, 42, usize::MAX] {
        round_trip_at_all_offsets(v);
    }
}

#[test]
fn u128_crosses_word_halves() {
    let v: u128 = 0x0102_0304_0506_0708_090A_0B0C_0D0E_0F10;
    let mut buf = vec![0u8; 16];
    v.pack(&mut buf, 0);
    assert_eq!(
        buf,
        [1, 2, 3, 4, 5, 6, 7, 8, 9, 0xA, 0xB, 0xC, 0xD, 0xE, 0xF, 0x10]
    );
    assert_eq!(u128::unpack(&buf, 0), v);
}

#[test]
fn widths_of_primitives() {
    assert_eq!(bool::size(), 1);
    assert_eq!(u8::size(), 8);
    assert_eq!(u16::size(), 16);
    assert_eq!(u32::size(), 32);
    assert_eq!(u64::size(), 64);
    assert_eq!(u128::size(), 128);
    assert_eq!(usize::size(), usize::BITS as usize);
    assert_eq!(i8::size(), 8);
    assert_eq!(i64::size(), 64);
    assert_eq!(i128::size(), 128);
    assert_eq!(isize::size(), usize::BITS as usize);
    assert_eq!(<()>::size(), 0);
    assert_eq!(42u16.size_of_val(), 16);
    assert_eq!((-1i32).size_of_val(), 32);
}
