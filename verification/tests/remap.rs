use gb_save::{
    map_bitset, remap_fixed_len_u8_skip_zero, remap_zero_terminated_u8, Address, SaveBinary,
    SaveError, Size,
};

#[test]
fn remap_zero_terminated_stops_on_zero_and_writes() {
    let mut save = SaveBinary::new(vec![1, 2, 0, 3, 0]);
    let mut invalid: Vec<(usize, u8)> = Vec::new();

    remap_zero_terminated_u8(
        &mut save,
        Address(0),
        5,
        |v| Some(v + 10),
        |i, v| invalid.push((i, v)),
    )
    .unwrap();

    assert_eq!(save.as_bytes(), &[11, 12, 0, 3, 0]);
    assert!(invalid.is_empty());
}

#[test]
fn map_bitset_maps_set_bits_only() {
    let mut src = SaveBinary::new(vec![0u8; 2]);
    let mut dst = SaveBinary::new(vec![0u8; 2]);
    dst.clear_len(Address(0), Size(2)).unwrap();

    src.write_indexed_bit(Address(0), 0, true).unwrap();
    src.write_indexed_bit(Address(0), 9, true).unwrap();

    let mut unmapped: Vec<usize> = Vec::new();
    map_bitset(
        &src,
        Address(0),
        16,
        &mut dst,
        Address(0),
        16,
        |i| Some(i + 1),
        |i| unmapped.push(i),
    )
    .unwrap();

    assert!(unmapped.is_empty());
    assert!(dst.read_indexed_bit(Address(0), 1).unwrap());
    assert!(dst.read_indexed_bit(Address(0), 10).unwrap());
    assert!(!dst.read_indexed_bit(Address(0), 0).unwrap());
}

#[test]
fn remap_fixed_len_skip_zero_keeps_zeros_and_replaces_invalid() {
    let mut save = SaveBinary::new(vec![0, 1, 2, 3]);
    let mut invalid: Vec<(usize, u8)> = Vec::new();

    remap_fixed_len_u8_skip_zero(
        &mut save,
        Address(0),
        4,
        |v| (v != 2).then_some(v + 10),
        |i, v| {
            invalid.push((i, v));
            0
        },
    )
    .unwrap();

    assert_eq!(save.as_bytes(), &[0, 11, 0, 13]);
    assert_eq!(invalid, vec![(2, 2)]);
}

#[test]
fn remap_zero_terminated_reports_invalid_and_goes_on() {
    let mut save = SaveBinary::new(vec![9, 5, 6, 7, 0, 8]);
    let mut invalid: Vec<(usize, u8)> = Vec::new();
    remap_zero_terminated_u8(
        &mut save,
        Address(1),
        5,
        |v| if v == 6 { None } else { Some(v * 2) },
        |i, v| invalid.push((i, v)),
    )
    .unwrap();
    assert_eq!(save.as_bytes(), &[9, 10, 6, 14, 0, 8]);
    assert_eq!(invalid, vec![(1, 6)]);
}

#[test]
fn remap_zero_terminated_stops_at_max_len() {
    let mut save = SaveBinary::new(vec![1, 1, 1, 1]);
    remap_zero_terminated_u8(&mut save, Address(0), 2, |v| Some(v + 1), |_, _| {}).unwrap();
    assert_eq!(save.as_bytes(), &[2, 2, 1, 1]);
    remap_zero_terminated_u8(&mut save, Address(9), 0, |v| Some(v + 1), |_, _| {}).unwrap();
    assert_eq!(save.as_bytes(), &[2, 2, 1, 1]);
}

#[test]
fn remap_zero_terminated_may_write_zero_and_go_on() {
    let mut save = SaveBinary::new(vec![4, 5, 0]);
    remap_zero_terminated_u8(
        &mut save,
        Address(0),
        3,
        |v| if v == 4 { Some(0) } else { Some(v + 1) },
        |_, _| {},
    )
    .unwrap();
    assert_eq!(save.as_bytes(), &[0, 6, 0]);
}

#[test]
fn remap_zero_terminated_fails_where_the_list_leaves_the_buffer() {
    let mut save = SaveBinary::new(vec![1, 2, 3]);
    let result = remap_zero_terminated_u8(&mut save, Address(1), 5, |v| Some(v + 1), |_, _| {});
    match result {
        Err(SaveError::AddressOutOfBounds { address, len }) => {
            assert_eq!(address, Address(3));
            assert_eq!(len, 3);
        }
        other => panic!("unexpected result: {other:?}"),
    }
    assert_eq!(save.as_bytes(), &[1, 3, 4]);
}

#[test]
fn remap_fixed_len_maps_past_zeros_and_leaves_the_rest() {
    let mut save = SaveBinary::new(vec![7, 0, 7, 0, 7, 7]);
    let mut invalid: Vec<(usize, u8)> = Vec::new();
    remap_fixed_len_u8_skip_zero(
        &mut save,
        Address(1),
        4,
        |v| Some(v + 1),
        |i, v| {
            invalid.push((i, v));
            v
        },
    )
    .unwrap();
    assert_eq!(save.as_bytes(), &[7, 0, 8, 0, 8, 7]);
    assert!(invalid.is_empty());
}

#[test]
fn remap_fixed_len_fails_where_the_list_leaves_the_buffer() {
    let mut save = SaveBinary::new(vec![1, 2]);
    let result =
        remap_fixed_len_u8_skip_zero(&mut save, Address(0), 3, |v| Some(v + 1), |_, v| v);
    match result {
        Err(SaveError::AddressOutOfBounds { address, len }) => {
            assert_eq!(address, Address(2));
            assert_eq!(len, 2);
        }
        other => panic!("unexpected result: {other:?}"),
    }
    assert_eq!(save.as_bytes(), &[2, 3]);
}

#[test]
fn map_bitset_reports_unmapped_and_out_of_range_bits() {
    let src = SaveBinary::new(vec![0b0000_1111]);
    let mut dst = SaveBinary::new(vec![0b1000_0000, 0xFF]);
    let mut unmapped: Vec<usize> = Vec::new();
    let mut asked: Vec<usize> = Vec::new();
    map_bitset(
        &src,
        Address(0),
        8,
        &mut dst,
        Address(0),
        4,
        |i| {
            asked.push(i);
            match i {
                0 => Some(3),
                1 => None,
                2 => Some(4),
                _ => Some(3),
            }
        },
        |i| unmapped.push(i),
    )
    .unwrap();
    assert_eq!(asked, vec![0, 1, 2, 3]);
    assert_eq!(unmapped, vec![1, 2]);
    assert_eq!(dst.as_bytes(), &[0b1000_1000, 0xFF]);
}

#[test]
fn map_bitset_stops_at_the_first_failing_access() {
    let src = SaveBinary::new(vec![0b0000_0011]);
    let mut dst = SaveBinary::new(vec![0]);
    let result = map_bitset(
        &src,
        Address(0),
        16,
        &mut dst,
        Address(0),
        8,
        |i| Some(i + 2),
        |_| {},
    );
    match result {
        Err(SaveError::AddressOutOfBounds { address, len }) => {
            assert_eq!(address, Address(1));
            assert_eq!(len, 1);
        }
        other => panic!("unexpected result: {other:?}"),
    }
    assert_eq!(dst.as_bytes(), &[0b0000_1100]);

    let mut small = SaveBinary::new(vec![0]);
    let result = map_bitset(
        &src,
        Address(0),
        8,
        &mut small,
        Address(0),
        16,
        |i| Some(i * 9),
        |_| {},
    );
    match result {
        Err(SaveError::AddressOutOfBounds { address, len }) => {
            assert_eq!(address, Address(1));
            assert_eq!(len, 1);
        }
        other => panic!("unexpected result: {other:?}"),
    }
    assert_eq!(small.as_bytes(), &[0b0000_0001]);
}
