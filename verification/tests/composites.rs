use packed::Packed;

fn round_trip_sweep<T: Packed + PartialEq + core::fmt::Debug + Copy>(v: T) {
    let size = T::size();
    let cap = size / 8 + 3;
    for off in 0..=16usize {
        let mut buf = vec![0u8; cap];
        v.pack(&mut buf, off);
        let r = T::unpack(&buf, off);
        assert_eq!(r, v);
    }
}

#[test]
fn array_round_trip_values() {
    round_trip_sweep([0xA5u8, 0x5A, 0xFF]);
    round_trip_sweep([0xBEEFu16, 42]);
    round_trip_sweep([true, false, true, true, false]);
    round_trip_sweep([-1i8, 0, 1]);
    round_trip_sweep([[1u8, 2], [3, 4]]);
}

#[test]
fn array_layout_is_contiguous() {
    let mut buf = vec![0u8; 4];
    [0x12u8, 0x34, 0x56, 0x78].pack(&mut buf, 0);
    assert_eq!(buf, [0x12, 0x34, 0x56, 0x78]);
    let mut buf = vec![0u8; 2];
    [true, false, true, false, true, false, true, false].pack(&mut buf, 4);
    assert_eq!(buf, [0b0000_1010, 0b1010_0000]);
}

#[test]
fn empty_array_is_a_no_op() {
    let mut buf = vec![0xFFu8; 2];
    let a: [u8; 0] = [];
    a.pack(&mut buf, 16);
    assert_eq!(buf, [0xFF, 0xFF]);
    let r: [u8; 0] = <[u8; 0]>::unpack(&buf, 16);
    assert_eq!(r, a);
    assert_eq!(<[u8; 0]>::size(), 0);
}

#[test]
fn unit_is_a_no_op() {
    let mut buf = vec![0xABu8; 2];
    ().pack(&mut buf, 16);
    assert_eq!(buf, [0xAB, 0xAB]);
    <()>::unpack(&buf, 16);
}

#[test]
fn tuple_round_trip_values() {
    round_trip_sweep((42u8,));
    round_trip_sweep((true, 0xA5u8));
    round_trip_sweep((true, 0xA5u8, 0xBEEFu16));
    round_trip_sweep((1u8, 2u16, 3u32, -4i8));
    round_trip_sweep((true, false, 7u8, -7i16, 0xDEAD_BEEFu32, 1u64));
}

#[test]
fn tuple_of_twelve_members() {
    let v = (
        true,
        2u8,
        3u8,
        4u16,
        5u32,
        6u64,
        -7i8,
        -8i16,
        9u8,
        false,
        11u16,
        12u8,
    );
    let size = <(
        bool,
        u8,
        u8,
        u16,
        u32,
        u64,
        i8,
        i16,
        u8,
        bool,
        u16,
        u8,
    )>::size();
    assert_eq!(size, 1 + 8 + 8 + 16 + 32 + 64 + 8 + 16 + 8 + 1 + 16 + 8);
    let mut buf = vec![0u8; size / 8 + 3];
    v.pack(&mut buf, 5);
    let r = <(
        bool,
        u8,
        u8,
        u16,
        u32,
        u64,
        i8,
        i16,
        u8,
        bool,
        u16,
        u8,
    )>::unpack(&buf, 5);
    assert_eq!(r, v);
}

#[test]
fn tuple_width_is_sum_of_member_widths() {
    assert_eq!(<(u8, bool, u16)>::size(), 25);
    assert_eq!(<(u8, u8)>::size(), 16);
    assert_eq!(<(bool, bool, bool)>::size(), 3);
    assert_eq!(<[u16; 3]>::size(), 48);
    assert_eq!((1u8, true, 2u16).size_of_val(), 25);
}

#[test]
fn members_packed_one_by_one_match_composite() {
    let a: u8 = 0xA5;
    let b: u16 = 0xBEEF;
    let c: bool = true;
    for off in 0..=16usize {
        let mut composite = vec![0x55u8; 6];
        let mut manual = vec![0x55u8; 6];
        (a, b, c).pack(&mut composite, off);
        a.pack(&mut manual, off);
        b.pack(&mut manual, off + u8::size());
        c.pack(&mut manual, off + u8::size() + u16::size());
        assert_eq!(composite, manual);
    }
}

#[test]
fn fields_share_bytes_without_disturbance() {
    let mut buf = vec![0u8; 3];
    0b101u8.pack(&mut buf, 5);
    for off in [0usize, 1, 2, 3, 4] {
        true.pack(&mut buf, off);
    }
    assert_eq!(u8::unpack(&buf, 5), 0b101);
    for off in [0usize, 1, 2, 3, 4] {
        assert!(bool::unpack(&buf, off));
    }
}
