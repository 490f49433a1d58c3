use protobuf_iter::zigzag::ZigZag;

#[test]
fn u32_to_i32() {
    assert_eq!(0i32, 0u32.zigzag());
    assert_eq!((-1 as i32), 1u32.zigzag());
    assert_eq!(1i32, 2u32.zigzag());
    assert_eq!((-2 as i32), 3u32.zigzag());
    assert_eq!(2147483647i32, 4294967294u32.zigzag());
    assert_eq!((-2147483648 as i32), 4294967295u32.zigzag());
}

#[test]
fn i32_to_u32() {
    assert_eq!(0i32.zigzag(), 0u32);
    assert_eq!((-1 as i32).zigzag(), 1u32);
    assert_eq!(1i32.zigzag(), 2u32);
    assert_eq!((-2 as i32).zigzag(), 3u32);
    assert_eq!(2147483647i32.zigzag(), 4294967294u32);
    assert_eq!((-2147483648 as i32).zigzag(), 4294967295u32);
}

#[test]
fn u64_to_i64() {
    assert_eq!(0i64, 0u64.zigzag());
    assert_eq!((-1 as i64), 1u64.zigzag());
    assert_eq!(1i64, 2u64.zigzag());
    assert_eq!((-2 as i64), 3u64.zigzag());
    assert_eq!(2147483647i64, 4294967294u64.zigzag());
    assert_eq!((-2147483648 as i64), 4294967295u64.zigzag());
}

#[test]
fn i64_to_u64() {
    assert_eq!(0i64.zigzag(), 0u64);
    assert_eq!((-1 as i64).zigzag(), 1u64);
    assert_eq!(1i64.zigzag(), 2u64);
    assert_eq!((-2 as i64).zigzag(), 3u64);
    assert_eq!(2147483647i64.zigzag(), 4294967294u64);
    assert_eq!((-2147483648 as i64).zigzag(), 4294967295u64);
}

#[test]
fn zigzag_round_trips_32() {
    let unsigned: [u32; 7] = [0, 1, 2, 3, 1000, 4294967294, 4294967295];
    for n in unsigned {
        let signed: i32 = n.zigzag();
        let back: u32 = signed.zigzag();
        assert_eq!(back, n);
    }
    let signed: [i32; 7] = [0, -1, 1, -2, 12345, i32::MAX, i32::MIN];
    for n in signed {
        let unsigned: u32 = n.zigzag();
        let back: i32 = unsigned.zigzag();
        assert_eq!(back, n);
    }
}

#[test]
fn zigzag_round_trips_64() {
    let unsigned: [u64; 7] = [0, 1, 2, 3, 1 << 40, u64::MAX - 1, u64::MAX];
    for n in unsigned {
        let signed: i64 = n.zigzag();
        let back: u64 = signed.zigzag();
        assert_eq!(back, n);
    }
    let signed: [i64; 7] = [0, -1, 1, -2, -(1 << 50), i64::MAX, i64::MIN];
    for n in signed {
        let unsigned: u64 = n.zigzag();
        let back: i64 = unsigned.zigzag();
        assert_eq!(back, n);
    }
}

#[test]
fn zigzag_extremes_64() {
    assert_eq!(i64::MAX, (u64::MAX - 1).zigzag());
    assert_eq!(i64::MIN, u64::MAX.zigzag());
    assert_eq!(u64::MAX - 1, i64::MAX.zigzag());
    assert_eq!(u64::MAX, i64::MIN.zigzag());
}
