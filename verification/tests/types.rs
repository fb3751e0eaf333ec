use gb_save::{bits_to_bytes, Address, AddressRange, Size};

#[test]
fn bits_to_bytes_rounds_up() {
    assert_eq!(bits_to_bytes(0), 0);
    assert_eq!(bits_to_bytes(1), 1);
    assert_eq!(bits_to_bytes(8), 1);
    assert_eq!(bits_to_bytes(9), 2);
    assert_eq!(bits_to_bytes(usize::MAX), usize::MAX / 8 + 1);
}

#[test]
fn address_and_size_convert_to_usize() {
    assert_eq!(Address(0x1234).as_usize(), 0x1234);
    assert_eq!(Size(7).as_usize(), 7);
    assert!(Address(1) < Address(2));
    assert!(Size(3) > Size(2));
}

#[test]
fn checked_offset_stops_at_the_last_address() {
    assert_eq!(Address(10).checked_offset(5), Some(Address(15)));
    assert_eq!(Address(u32::MAX - 1).checked_offset(1), Some(Address(u32::MAX)));
    assert_eq!(Address(u32::MAX).checked_offset(1), None);
    assert_eq!(Address(u32::MAX).checked_offset(0), Some(Address(u32::MAX)));
}

#[test]
fn range_length_saturates_at_zero() {
    assert_eq!(AddressRange::new(Address(2), Address(7)).len(), Size(5));
    assert_eq!(AddressRange::new(Address(7), Address(7)).len(), Size(0));
    assert_eq!(AddressRange::new(Address(7), Address(2)).len(), Size(0));
    let range = AddressRange::new(Address(2), Address(7));
    assert_eq!(range.start, Address(2));
    assert_eq!(range.end, Address(7));
    assert_eq!(range.to_usize_range(), 2..7);
}

#[test]
fn addresses_are_written_in_hexadecimal() {
    assert_eq!(Address(0).to_text(), "0x0");
    assert_eq!(Address(0xABE2).to_text(), "0xABE2");
    assert_eq!(Address(u32::MAX).to_text(), "0xFFFFFFFF");
    assert_eq!(Address(0x10).to_text(), "0x10");
}

#[test]
fn sizes_are_written_in_decimal() {
    assert_eq!(Size(0).to_text(), "0");
    assert_eq!(Size(9).to_text(), "9");
    assert_eq!(Size(10).to_text(), "10");
    assert_eq!(Size(u32::MAX).to_text(), "4294967295");
}

#[test]
fn ranges_are_written_half_open() {
    assert_eq!(AddressRange::new(Address(0x10), Address(0x2F)).to_text(), "[0x10, 0x2F)");
}
