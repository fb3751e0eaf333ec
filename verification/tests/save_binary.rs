use gb_save::{Address, AddressRange, SaveBinary, SaveError, Size};

#[test]
fn read_write_u16_be_round_trip() {
    let mut save = SaveBinary::new(vec![0; 8]);
    save.write_u16_be(Address(2), 0x1234).unwrap();
    assert_eq!(save.read_u16_be(Address(2)).unwrap(), 0x1234);
    assert_eq!(save.as_bytes()[2], 0x12);
    assert_eq!(save.as_bytes()[3], 0x34);
}

#[test]
fn copy_within_handles_overlap() {
    let mut save = SaveBinary::new((0u8..=9).collect());
    save.copy_within(Address(0), Address(2), Size(8)).unwrap();
    assert_eq!(save.as_bytes(), &[0, 1, 0, 1, 2, 3, 4, 5, 6, 7]);
}

#[test]
fn out_of_bounds_errors() {
    let save = SaveBinary::new(vec![0; 4]);
    let err = save.read_u8(Address(4)).unwrap_err();
    match err {
        SaveError::AddressOutOfBounds { .. } => {}
        other => panic!("unexpected error: {other:?}"),
    }
}

#[test]
fn write_u8_then_read_u8_returns_the_value() {
    let mut save = SaveBinary::new(vec![0u8; 16]);
    save.write_u8(Address(3), 0x42).unwrap();
    assert_eq!(save.read_u8(Address(3)).unwrap(), 0x42);
    assert_eq!(save.read_u8(Address(2)).unwrap(), 0);
    assert_eq!(save.read_u8(Address(4)).unwrap(), 0);
}

#[test]
fn out_of_range_write_fails_and_changes_nothing() {
    let mut save = SaveBinary::new(vec![1, 2, 3, 4]);
    match save.write_u8(Address(4), 9) {
        Err(SaveError::AddressOutOfBounds { address, len }) => {
            assert_eq!(address, Address(4));
            assert_eq!(len, 4);
        }
        other => panic!("unexpected result: {other:?}"),
    }
    match save.read_u8(Address(u32::MAX)) {
        Err(SaveError::AddressOutOfBounds { address, len }) => {
            assert_eq!(address, Address(u32::MAX));
            assert_eq!(len, 4);
        }
        other => panic!("unexpected result: {other:?}"),
    }
    assert_eq!(save.as_bytes(), &[1, 2, 3, 4]);
}

#[test]
fn u16_le_round_trip_and_byte_order() {
    let mut save = SaveBinary::new(vec![0; 4]);
    save.write_u16_le(Address(1), 0xBEEF).unwrap();
    assert_eq!(save.as_bytes(), &[0, 0xEF, 0xBE, 0]);
    assert_eq!(save.read_u16_le(Address(1)).unwrap(), 0xBEEF);
    assert_eq!(save.read_u16_be(Address(1)).unwrap(), 0xEFBE);
}

#[test]
fn endianness_differs_unless_both_bytes_are_equal() {
    let mut le = SaveBinary::new(vec![0; 2]);
    let mut be = SaveBinary::new(vec![0; 2]);
    le.write_u16_le(Address(0), 0x1234).unwrap();
    be.write_u16_be(Address(0), 0x1234).unwrap();
    assert_ne!(le.as_bytes(), be.as_bytes());
    le.write_u16_le(Address(0), 0x7777).unwrap();
    be.write_u16_be(Address(0), 0x7777).unwrap();
    assert_eq!(le.as_bytes(), be.as_bytes());
}

#[test]
fn u16_write_across_the_end_writes_neither_byte() {
    let mut save = SaveBinary::new(vec![0xAA; 4]);
    match save.write_u16_le(Address(3), 0x1234) {
        Err(SaveError::AddressOutOfBounds { address, len }) => {
            assert_eq!(address, Address(4));
            assert_eq!(len, 4);
        }
        other => panic!("unexpected result: {other:?}"),
    }
    assert_eq!(save.as_bytes(), &[0xAA; 4]);
    assert!(matches!(
        save.write_u16_be(Address(3), 0x1234),
        Err(SaveError::AddressOutOfBounds { address: Address(4), len: 4 })
    ));
    assert_eq!(save.as_bytes(), &[0xAA; 4]);
    assert!(matches!(
        save.read_u16_le(Address(7)),
        Err(SaveError::AddressOutOfBounds { address: Address(7), len: 4 })
    ));
    assert!(matches!(
        save.read_u16_be(Address(3)),
        Err(SaveError::AddressOutOfBounds { address: Address(4), len: 4 })
    ));
    assert!(matches!(
        save.read_u16_le(Address(u32::MAX)),
        Err(SaveError::AddressOutOfBounds { address: Address(u32::MAX), len: 4 })
    ));
}

#[test]
fn copy_within_backwards_overlap() {
    let mut save = SaveBinary::new((0u8..=9).collect());
    save.copy_within(Address(2), Address(0), Size(8)).unwrap();
    assert_eq!(save.as_bytes(), &[2, 3, 4, 5, 6, 7, 8, 9, 8, 9]);
}

#[test]
fn copy_within_zero_length_is_a_no_op_anywhere() {
    let mut save = SaveBinary::new(vec![1, 2, 3]);
    save.copy_within(Address(100), Address(200), Size(0)).unwrap();
    assert_eq!(save.as_bytes(), &[1, 2, 3]);
}

#[test]
fn copy_within_checks_source_before_destination() {
    let mut save = SaveBinary::new(vec![1, 2, 3, 4]);
    match save.copy_within(Address(3), Address(9), Size(2)) {
        Err(SaveError::RangeOutOfBounds { range, len }) => {
            assert_eq!(range, AddressRange::new(Address(3), Address(5)));
            assert_eq!(len, 4);
        }
        other => panic!("unexpected result: {other:?}"),
    }
    match save.copy_within(Address(0), Address(3), Size(2)) {
        Err(SaveError::RangeOutOfBounds { range, len }) => {
            assert_eq!(range, AddressRange::new(Address(3), Address(5)));
            assert_eq!(len, 4);
        }
        other => panic!("unexpected result: {other:?}"),
    }
    assert_eq!(save.as_bytes(), &[1, 2, 3, 4]);
}

#[test]
fn copy_from_other_copies_and_checks_both_buffers() {
    let src = SaveBinary::new(vec![10, 11, 12, 13]);
    let mut dst = SaveBinary::new(vec![0; 6]);
    dst.copy_from_other(&src, Address(1), Address(2), Size(3)).unwrap();
    assert_eq!(dst.as_bytes(), &[0, 0, 11, 12, 13, 0]);
    dst.copy_from_other(&src, Address(50), Address(50), Size(0)).unwrap();
    match dst.copy_from_other(&src, Address(2), Address(0), Size(3)) {
        Err(SaveError::RangeOutOfBounds { range, len }) => {
            assert_eq!(range, AddressRange::new(Address(2), Address(5)));
            assert_eq!(len, 4);
        }
        other => panic!("unexpected result: {other:?}"),
    }
    match dst.copy_from_other(&src, Address(0), Address(4), Size(3)) {
        Err(SaveError::RangeOutOfBounds { range, len }) => {
            assert_eq!(range, AddressRange::new(Address(4), Address(7)));
            assert_eq!(len, 6);
        }
        other => panic!("unexpected result: {other:?}"),
    }
    assert_eq!(dst.as_bytes(), &[0, 0, 11, 12, 13, 0]);
}

#[test]
fn read_bytes_and_slice_give_the_range() {
    let save = SaveBinary::new(vec![5, 6, 7, 8, 9]);
    let range = AddressRange::new(Address(1), Address(4));
    assert_eq!(save.read_bytes(range).unwrap(), vec![6, 7, 8]);
    assert_eq!(save.slice(range).unwrap(), &[6, 7, 8]);
    let empty = AddressRange::new(Address(5), Address(5));
    assert_eq!(save.read_bytes(empty).unwrap(), Vec::<u8>::new());
    let backwards = AddressRange::new(Address(3), Address(2));
    assert!(matches!(
        save.read_bytes(backwards),
        Err(SaveError::RangeOutOfBounds { len: 5, .. })
    ));
    let beyond = AddressRange::new(Address(2), Address(6));
    match save.slice(beyond) {
        Err(SaveError::RangeOutOfBounds { range, len }) => {
            assert_eq!(range, beyond);
            assert_eq!(len, 5);
        }
        other => panic!("unexpected result: {other:?}"),
    }
}

#[test]
fn slice_mut_writes_through_to_the_buffer() {
    let mut save = SaveBinary::new(vec![0; 5]);
    {
        let part = save.slice_mut(AddressRange::new(Address(1), Address(3))).unwrap();
        assert_eq!(part.len(), 2);
        part[0] = 7;
        part[1] = 8;
    }
    assert_eq!(save.as_bytes(), &[0, 7, 8, 0, 0]);
    assert!(save.slice_mut(AddressRange::new(Address(4), Address(6))).is_err());
    save.as_bytes_mut()[4] = 9;
    assert_eq!(save.as_bytes(), &[0, 7, 8, 0, 9]);
}

#[test]
fn write_bytes_derives_its_range_from_the_data() {
    let mut save = SaveBinary::new(vec![0; 5]);
    save.write_bytes(Address(2), &[1, 2, 3]).unwrap();
    assert_eq!(save.as_bytes(), &[0, 0, 1, 2, 3]);
    save.write_bytes(Address(5), &[]).unwrap();
    match save.write_bytes(Address(3), &[9, 9, 9]) {
        Err(SaveError::RangeOutOfBounds { range, len }) => {
            assert_eq!(range, AddressRange::new(Address(3), Address(6)));
            assert_eq!(len, 5);
        }
        other => panic!("unexpected result: {other:?}"),
    }
    match save.write_bytes(Address(u32::MAX), &[9, 9]) {
        Err(SaveError::RangeOutOfBounds { range, len }) => {
            assert_eq!(range, AddressRange::new(Address(u32::MAX), Address(u32::MAX)));
            assert_eq!(len, 5);
        }
        other => panic!("unexpected result: {other:?}"),
    }
    assert_eq!(save.as_bytes(), &[0, 0, 1, 2, 3]);
}

#[test]
fn fill_and_clear() {
    let mut save = SaveBinary::new(vec![1; 6]);
    save.fill(AddressRange::new(Address(1), Address(3)), 0xFF).unwrap();
    assert_eq!(save.as_bytes(), &[1, 0xFF, 0xFF, 1, 1, 1]);
    save.fill(AddressRange::new(Address(6), Address(6)), 0xEE).unwrap();
    save.fill_len(Address(4), Size(2), 7).unwrap();
    assert_eq!(save.as_bytes(), &[1, 0xFF, 0xFF, 1, 7, 7]);
    save.fill_len(Address(1000), Size(0), 7).unwrap();
    save.clear_len(Address(0), Size(2)).unwrap();
    assert_eq!(save.as_bytes(), &[0, 0, 0xFF, 1, 7, 7]);
    save.clear_len(Address(1000), Size(0)).unwrap();
    match save.fill_len(Address(5), Size(2), 0) {
        Err(SaveError::RangeOutOfBounds { range, len }) => {
            assert_eq!(range, AddressRange::new(Address(5), Address(7)));
            assert_eq!(len, 6);
        }
        other => panic!("unexpected result: {other:?}"),
    }
    assert!(save.fill(AddressRange::new(Address(3), Address(2)), 0).is_err());
    assert!(save.clear_len(Address(6), Size(1)).is_err());
    assert_eq!(save.as_bytes(), &[0, 0, 0xFF, 1, 7, 7]);
}

#[test]
fn bits_within_a_byte() {
    let mut save = SaveBinary::new(vec![0b0000_0101, 0]);
    assert!(save.read_bit(Address(0), 0).unwrap());
    assert!(!save.read_bit(Address(0), 1).unwrap());
    assert!(save.read_bit(Address(0), 2).unwrap());
    save.write_bit(Address(0), 7, true).unwrap();
    save.write_bit(Address(0), 0, false).unwrap();
    assert_eq!(save.as_bytes(), &[0b1000_0100, 0]);
    save.write_bit(Address(0), 7, true).unwrap();
    assert_eq!(save.as_bytes(), &[0b1000_0100, 0]);
    match save.read_bit(Address(0), 8) {
        Err(SaveError::InvalidBitIndex { bit }) => assert_eq!(bit, 8),
        other => panic!("unexpected result: {other:?}"),
    }
    match save.write_bit(Address(9), 8, true) {
        Err(SaveError::InvalidBitIndex { bit }) => assert_eq!(bit, 8),
        other => panic!("unexpected result: {other:?}"),
    }
    assert!(matches!(
        save.write_bit(Address(2), 1, true),
        Err(SaveError::AddressOutOfBounds { address: Address(2), len: 2 })
    ));
    assert!(matches!(
        save.read_bit(Address(2), 1),
        Err(SaveError::AddressOutOfBounds { address: Address(2), len: 2 })
    ));
    assert_eq!(save.as_bytes(), &[0b1000_0100, 0]);
}

#[test]
fn indexed_bits_address_a_flat_bit_array() {
    let mut save = SaveBinary::new(vec![0; 4]);
    save.write_indexed_bit(Address(1), 0, true).unwrap();
    save.write_indexed_bit(Address(1), 9, true).unwrap();
    save.write_indexed_bit(Address(1), 23, true).unwrap();
    assert_eq!(save.as_bytes(), &[0, 0b0000_0001, 0b0000_0010, 0b1000_0000]);
    assert!(save.read_indexed_bit(Address(1), 9).unwrap());
    assert!(!save.read_indexed_bit(Address(1), 8).unwrap());
    save.write_indexed_bit(Address(1), 9, false).unwrap();
    assert!(!save.read_indexed_bit(Address(1), 9).unwrap());
    assert!(matches!(
        save.read_indexed_bit(Address(1), 24),
        Err(SaveError::AddressOutOfBounds { address: Address(4), len: 4 })
    ));
    assert!(matches!(
        save.write_indexed_bit(Address(u32::MAX), 8, true),
        Err(SaveError::AddressOutOfBounds { address: Address(u32::MAX), len: 4 })
    ));
}

#[test]
fn require_min_size_reports_both_sizes() {
    let save = SaveBinary::new(vec![0; 3]);
    save.require_min_size(3).unwrap();
    save.require_min_size(0).unwrap();
    match save.require_min_size(4) {
        Err(SaveError::SaveTooSmall { min, actual }) => {
            assert_eq!(min, 4);
            assert_eq!(actual, 3);
        }
        other => panic!("unexpected result: {other:?}"),
    }
}

#[test]
fn length_and_ownership() {
    let save = SaveBinary::new(vec![1, 2, 3]);
    assert_eq!(save.len(), 3);
    assert!(!save.is_empty());
    assert_eq!(save.into_bytes(), vec![1, 2, 3]);
    assert!(SaveBinary::new(Vec::new()).is_empty());
}

#[test]
fn clones_are_equal_and_independent() {
    let save = SaveBinary::new(vec![1, 2, 3]);
    let mut copy = save.clone();
    assert!(save == copy);
    copy.write_u8(Address(0), 9).unwrap();
    assert!(save != copy);
    assert_eq!(save.as_bytes(), &[1, 2, 3]);
    assert!(SaveBinary::new(vec![1, 2]) != SaveBinary::new(vec![1, 2, 3]));
    assert!(SaveBinary::new(Vec::new()) == SaveBinary::new(Vec::new()));
}
