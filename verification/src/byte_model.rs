//! What the operations of a save buffer mean, stated over a sequence of bytes.
//!
//! Every operation either succeeds, and then says which bytes come out, or
//! fails with one error and changes nothing. The executable buffer promises
//! exactly these results.

use crate::error::{SaveError, SaveResult};
use crate::types::{Address, AddressRange, Size};
use vstd::prelude::*;

verus! {

/// Whether `address` names a byte of `bytes`.
pub open spec fn in_bounds(bytes: Seq<u8>, address: Address) -> bool {
    address.0 < bytes.len()
}

/// The error for an access at `address`.
pub open spec fn address_error(bytes: Seq<u8>, address: Address) -> SaveError {
    SaveError::AddressOutOfBounds { address, len: bytes.len() as usize }
}

/// Whether `range` runs forward and ends inside `bytes`.
pub open spec fn range_in_bounds(bytes: Seq<u8>, range: AddressRange) -> bool {
    range.start.0 <= range.end.0 <= bytes.len()
}

/// The error for an access to `range`.
pub open spec fn range_error(bytes: Seq<u8>, range: AddressRange) -> SaveError {
    SaveError::RangeOutOfBounds { range, len: bytes.len() as usize }
}

/// Whether the `count` bytes from `start` on all have an address and lie in `bytes`.
pub open spec fn span_in_bounds(bytes: Seq<u8>, start: Address, count: nat) -> bool {
    start.can_offset(count) && start.0 + count <= bytes.len()
}

/// `bytes` with `data` laid over it from index `at` on.
pub open spec fn overwrite(bytes: Seq<u8>, at: int, data: Seq<u8>) -> Seq<u8> {
    Seq::new(
        bytes.len(),
        |i: int|
            if at <= i < at + data.len() {
                data[i - at]
            } else {
                bytes[i]
            },
    )
}

/// The low byte of a 16-bit value.
pub open spec fn low_byte(value: u16) -> u8 {
    (value % 256) as u8
}

/// The high byte of a 16-bit value.
pub open spec fn high_byte(value: u16) -> u8 {
    (value / 256) as u8
}

/// The 16-bit value with the given high and low bytes.
pub open spec fn join_bytes(high: u8, low: u8) -> u16 {
    (high as int * 256 + low as int) as u16
}

/// Whether bit `bit` (0 is the least significant) of `byte` is set.
pub open spec fn bit_is_set(byte: u8, bit: u8) -> bool {
    byte & (1u8 << bit) != 0
}

/// `byte` with bit `bit` set or cleared.
pub open spec fn with_bit(byte: u8, bit: u8, set: bool) -> u8 {
    if set {
        byte | (1u8 << bit)
    } else {
        byte & !(1u8 << bit)
    }
}

/// The byte in which bit `bit_index` of a flat bit array at `base` lies. A
/// byte whose offset does not fit in 32 bits has no address; the last address
/// there is stands for it, and the access fails.
pub open spec fn bit_byte_address(base: Address, bit_index: nat) -> Address {
    base.spec_offset(bit_index / 8)
}

/// Whether bit `bit_index` of the flat bit array at `base` lies in `bytes`.
pub open spec fn indexed_bit_in_bounds(bytes: Seq<u8>, base: Address, bit_index: nat) -> bool {
    base.can_offset(bit_index / 8) && in_bounds(bytes, bit_byte_address(base, bit_index))
}

/// Whether `bytes` holds at least `min` bytes: the too-small error, with both
/// numbers, where it does not.
pub open spec fn spec_require_min_size(bytes: Seq<u8>, min: usize) -> SaveResult<()> {
    if bytes.len() < min {
        Err(SaveError::SaveTooSmall { min, actual: bytes.len() as usize })
    } else {
        Ok(())
    }
}

/// The byte at `address`.
pub open spec fn spec_read_u8(bytes: Seq<u8>, address: Address) -> SaveResult<u8> {
    if in_bounds(bytes, address) {
        Ok(bytes[address.0 as int])
    } else {
        Err(address_error(bytes, address))
    }
}

/// `bytes` with `value` at `address`.
pub open spec fn spec_write_u8(bytes: Seq<u8>, address: Address, value: u8) -> SaveResult<Seq<u8>> {
    if in_bounds(bytes, address) {
        Ok(bytes.update(address.0 as int, value))
    } else {
        Err(address_error(bytes, address))
    }
}

/// The error of a two-byte access at `address`, if there is one: that of the
/// first byte where it is out of bounds, else that of the second.
pub open spec fn pair_error(bytes: Seq<u8>, address: Address) -> Option<SaveError> {
    if !in_bounds(bytes, address) {
        Some(address_error(bytes, address))
    } else if !address.can_offset(1) || !in_bounds(bytes, address.spec_offset(1)) {
        Some(address_error(bytes, address.spec_offset(1)))
    } else {
        None
    }
}

/// The 16-bit value whose low byte stands at `address` and whose high byte
/// stands behind it.
pub open spec fn spec_read_u16_le(bytes: Seq<u8>, address: Address) -> SaveResult<u16> {
    match pair_error(bytes, address) {
        Some(e) => Err(e),
        None => Ok(join_bytes(bytes[address.0 + 1], bytes[address.0 as int])),
    }
}

/// The 16-bit value whose high byte stands at `address` and whose low byte
/// stands behind it.
pub open spec fn spec_read_u16_be(bytes: Seq<u8>, address: Address) -> SaveResult<u16> {
    match pair_error(bytes, address) {
        Some(e) => Err(e),
        None => Ok(join_bytes(bytes[address.0 as int], bytes[address.0 + 1])),
    }
}

/// `bytes` with the low byte of `value` at `address` and its high byte behind
/// it. Both bytes are checked before either is written.
pub open spec fn spec_write_u16_le(bytes: Seq<u8>, address: Address, value: u16) -> SaveResult<
    Seq<u8>,
> {
    match pair_error(bytes, address) {
        Some(e) => Err(e),
        None => Ok(
            bytes.update(address.0 as int, low_byte(value)).update(
                address.0 + 1,
                high_byte(value),
            ),
        ),
    }
}

/// `bytes` with the high byte of `value` at `address` and its low byte behind
/// it. Both bytes are checked before either is written.
pub open spec fn spec_write_u16_be(bytes: Seq<u8>, address: Address, value: u16) -> SaveResult<
    Seq<u8>,
> {
    match pair_error(bytes, address) {
        Some(e) => Err(e),
        None => Ok(
            bytes.update(address.0 as int, high_byte(value)).update(
                address.0 + 1,
                low_byte(value),
            ),
        ),
    }
}

/// The bytes of `range`.
pub open spec fn spec_read_bytes(bytes: Seq<u8>, range: AddressRange) -> SaveResult<Seq<u8>> {
    if range_in_bounds(bytes, range) {
        Ok(bytes.subrange(range.start.0 as int, range.end.0 as int))
    } else {
        Err(range_error(bytes, range))
    }
}

/// `bytes` with `data` from `start` on. The range that is checked starts at
/// `start` and is as long as `data`.
pub open spec fn spec_write_bytes(bytes: Seq<u8>, start: Address, data: Seq<u8>) -> SaveResult<
    Seq<u8>,
> {
    if span_in_bounds(bytes, start, data.len()) {
        Ok(overwrite(bytes, start.0 as int, data))
    } else {
        Err(range_error(bytes, AddressRange::spanning(start, data.len())))
    }
}

/// `bytes` with every byte of `range` set to `value`. An empty range inside
/// the buffer changes nothing.
pub open spec fn spec_fill(bytes: Seq<u8>, range: AddressRange, value: u8) -> SaveResult<Seq<u8>> {
    if range_in_bounds(bytes, range) {
        Ok(overwrite(bytes, range.start.0 as int, Seq::new(range.spec_len(), |i: int| value)))
    } else {
        Err(range_error(bytes, range))
    }
}

/// `bytes` with the `len` bytes from `start` on set to `value`. With a length
/// of zero nothing is checked and nothing changes.
pub open spec fn spec_fill_len(bytes: Seq<u8>, start: Address, len: Size, value: u8) -> SaveResult<
    Seq<u8>,
> {
    if len.0 == 0 {
        Ok(bytes)
    } else if span_in_bounds(bytes, start, len.0 as nat) {
        Ok(overwrite(bytes, start.0 as int, Seq::new(len.0 as nat, |i: int| value)))
    } else {
        Err(range_error(bytes, AddressRange::spanning(start, len.0 as nat)))
    }
}

/// `bytes` with the `len` bytes of `source` from `src_start` on, laid down
/// from `dst_start` on. With a length of zero nothing is checked and nothing
/// changes; else the source range is checked before the destination range.
pub open spec fn spec_copy_from_other(
    bytes: Seq<u8>,
    source: Seq<u8>,
    src_start: Address,
    dst_start: Address,
    len: Size,
) -> SaveResult<Seq<u8>> {
    if len.0 == 0 {
        Ok(bytes)
    } else if !span_in_bounds(source, src_start, len.0 as nat) {
        Err(range_error(source, AddressRange::spanning(src_start, len.0 as nat)))
    } else if !span_in_bounds(bytes, dst_start, len.0 as nat) {
        Err(range_error(bytes, AddressRange::spanning(dst_start, len.0 as nat)))
    } else {
        Ok(
            overwrite(
                bytes,
                dst_start.0 as int,
                source.subrange(src_start.0 as int, src_start.0 + len.0),
            ),
        )
    }
}

/// Copying within one buffer reads every source byte as it was before the
/// call, whether or not the two ranges overlap.
pub open spec fn spec_copy_within(bytes: Seq<u8>, src: Address, dst: Address, len: Size) -> SaveResult<
    Seq<u8>,
> {
    spec_copy_from_other(bytes, bytes, src, dst, len)
}

/// Bit `bit` of the byte at `address`. A bit index above 7 is refused before
/// the address is looked at.
pub open spec fn spec_read_bit(bytes: Seq<u8>, address: Address, bit: u8) -> SaveResult<bool> {
    if bit > 7 {
        Err(SaveError::InvalidBitIndex { bit })
    } else if in_bounds(bytes, address) {
        Ok(bit_is_set(bytes[address.0 as int], bit))
    } else {
        Err(address_error(bytes, address))
    }
}

/// `bytes` with bit `bit` of the byte at `address` set or cleared. A bit index
/// above 7 is refused before the address is looked at.
pub open spec fn spec_write_bit(bytes: Seq<u8>, address: Address, bit: u8, set: bool) -> SaveResult<
    Seq<u8>,
> {
    if bit > 7 {
        Err(SaveError::InvalidBitIndex { bit })
    } else if in_bounds(bytes, address) {
        Ok(bytes.update(address.0 as int, with_bit(bytes[address.0 as int], bit, set)))
    } else {
        Err(address_error(bytes, address))
    }
}

/// Bit `bit_index` of the flat bit array at `base`: bit `bit_index % 8` of the
/// byte `bit_index / 8` bytes behind `base`.
pub open spec fn spec_read_indexed_bit(bytes: Seq<u8>, base: Address, bit_index: nat) -> SaveResult<
    bool,
> {
    if indexed_bit_in_bounds(bytes, base, bit_index) {
        Ok(bit_is_set(bytes[bit_byte_address(base, bit_index).0 as int], (bit_index % 8) as u8))
    } else {
        Err(address_error(bytes, bit_byte_address(base, bit_index)))
    }
}

/// `bytes` with bit `bit_index` of the flat bit array at `base` set or cleared.
pub open spec fn spec_write_indexed_bit(
    bytes: Seq<u8>,
    base: Address,
    bit_index: nat,
    set: bool,
) -> SaveResult<Seq<u8>> {
    if indexed_bit_in_bounds(bytes, base, bit_index) {
        let at = bit_byte_address(base, bit_index).0 as int;
        Ok(bytes.update(at, with_bit(bytes[at], (bit_index % 8) as u8, set)))
    } else {
        Err(address_error(bytes, bit_byte_address(base, bit_index)))
    }
}

/// What a mutating operation leaves behind: on success the bytes that the
/// model gives, on failure the model's error and the bytes as they were.
pub open spec fn write_outcome(
    before: Seq<u8>,
    model: SaveResult<Seq<u8>>,
    after: Seq<u8>,
    result: SaveResult<()>,
) -> bool {
    match model {
        Ok(bytes) => result is Ok && after == bytes,
        Err(e) => result == Err::<(), SaveError>(e) && after == before,
    }
}

} // verus!
