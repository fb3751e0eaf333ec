use gb_save::{calculate_additive_u16_checksum, Address, AddressRange, SaveBinary, SaveError};

#[test]
fn wraps_like_u16() {
    let save = SaveBinary::new(vec![0xFF; 4]);
    let checksum =
        calculate_additive_u16_checksum(&save, AddressRange::new(Address(0), Address(4)))
            .unwrap();
    assert_eq!(checksum, 0x03FC);
}

#[test]
fn checksum_wraps_past_sixteen_bits() {
    let save = SaveBinary::new(vec![0xFF; 258]);
    let checksum =
        calculate_additive_u16_checksum(&save, AddressRange::new(Address(0), Address(258)))
            .unwrap();
    assert_eq!(checksum, ((258u32 * 255) % 65536) as u16);
    assert_eq!(checksum, 0x00FE);
}

#[test]
fn checksum_covers_the_range_only() {
    let save = SaveBinary::new(vec![100, 1, 2, 3, 100]);
    let checksum =
        calculate_additive_u16_checksum(&save, AddressRange::new(Address(1), Address(4)))
            .unwrap();
    assert_eq!(checksum, 6);
}

#[test]
fn checksum_rejects_an_empty_or_backward_range() {
    let save = SaveBinary::new(vec![1, 2, 3]);
    let empty = AddressRange::new(Address(1), Address(1));
    match calculate_additive_u16_checksum(&save, empty) {
        Err(SaveError::InvalidAddressRange { range }) => assert_eq!(range, empty),
        other => panic!("unexpected result: {other:?}"),
    }
    let backward = AddressRange::new(Address(9), Address(1));
    match calculate_additive_u16_checksum(&save, backward) {
        Err(SaveError::InvalidAddressRange { range }) => assert_eq!(range, backward),
        other => panic!("unexpected result: {other:?}"),
    }
}

#[test]
fn checksum_passes_on_the_range_error() {
    let save = SaveBinary::new(vec![1, 2, 3]);
    let beyond = AddressRange::new(Address(1), Address(4));
    match calculate_additive_u16_checksum(&save, beyond) {
        Err(SaveError::RangeOutOfBounds { range, len }) => {
            assert_eq!(range, beyond);
            assert_eq!(len, 3);
        }
        other => panic!("unexpected result: {other:?}"),
    }
}
