//! Laws of the byte model: what one operation guarantees to the next.

use crate::byte_model::{
    address_error, bit_is_set, high_byte, in_bounds, join_bytes, low_byte, overwrite, pair_error,
    span_in_bounds, spec_copy_within, spec_read_bit, spec_read_indexed_bit, spec_read_u16_be,
    spec_read_u16_le, spec_read_u8, spec_write_bit, spec_write_indexed_bit, spec_write_u16_be,
    spec_write_u16_le, spec_write_u8, with_bit,
};
use crate::error::SaveError;
use crate::types::{Address, Size};
use vstd::prelude::*;

verus! {

/// A byte written at an address inside the buffer is the byte read back from
/// it, and every other byte is as it was. At an address outside the buffer
/// both the read and the write fail with the same out-of-bounds error.
pub proof fn lemma_write_then_read_u8(bytes: Seq<u8>, address: Address, value: u8)
    ensures
        in_bounds(bytes, address) ==> spec_write_u8(bytes, address, value) is Ok && spec_read_u8(
            spec_write_u8(bytes, address, value)->Ok_0,
            address,
        ) == Ok::<u8, SaveError>(value),
        in_bounds(bytes, address) ==> forall|other: Address|
            other != address ==> #[trigger] spec_read_u8(
                spec_write_u8(bytes, address, value)->Ok_0,
                other,
            ) == spec_read_u8(bytes, other),
        !in_bounds(bytes, address) ==> spec_read_u8(bytes, address) == Err::<u8, SaveError>(
            address_error(bytes, address),
        ) && spec_write_u8(bytes, address, value) == Err::<Seq<u8>, SaveError>(
            address_error(bytes, address),
        ),
{
}

/// A 16-bit value is made of its two bytes.
pub proof fn lemma_join_split(value: u16)
    ensures
        join_bytes(high_byte(value), low_byte(value)) == value,
{
}

/// The two bytes of a joined value are the bytes it was joined from.
pub proof fn lemma_split_join(high: u8, low: u8)
    ensures
        high_byte(join_bytes(high, low)) == high,
        low_byte(join_bytes(high, low)) == low,
{
}

/// A 16-bit value written little-endian is read back little-endian, wherever
/// both of its bytes lie inside the buffer.
pub proof fn lemma_u16_le_round_trip(bytes: Seq<u8>, address: Address, value: u16)
    requires
        pair_error(bytes, address) is None,
    ensures
        spec_write_u16_le(bytes, address, value) is Ok,
        spec_read_u16_le(spec_write_u16_le(bytes, address, value)->Ok_0, address) == Ok::<
            u16,
            SaveError,
        >(value),
{
    lemma_join_split(value);
}

/// A 16-bit value written big-endian is read back big-endian, wherever both of
/// its bytes lie inside the buffer.
pub proof fn lemma_u16_be_round_trip(bytes: Seq<u8>, address: Address, value: u16)
    requires
        pair_error(bytes, address) is None,
    ensures
        spec_write_u16_be(bytes, address, value) is Ok,
        spec_read_u16_be(spec_write_u16_be(bytes, address, value)->Ok_0, address) == Ok::<
            u16,
            SaveError,
        >(value),
{
    lemma_join_split(value);
}

/// Written at the same address, the little-endian and the big-endian encoding
/// of a value leave the same bytes exactly when its two bytes are equal.
pub proof fn lemma_u16_endianness_differs(bytes: Seq<u8>, address: Address, value: u16)
    requires
        pair_error(bytes, address) is None,
    ensures
        (spec_write_u16_le(bytes, address, value)->Ok_0 == spec_write_u16_be(
            bytes,
            address,
            value,
        )->Ok_0) <==> low_byte(value) == high_byte(value),
{
    let le = spec_write_u16_le(bytes, address, value)->Ok_0;
    let be = spec_write_u16_be(bytes, address, value)->Ok_0;
    let at = address.0 as int;
    assert(le[at] == low_byte(value));
    assert(be[at] == high_byte(value));
    if low_byte(value) == high_byte(value) {
        assert(le =~= be);
    }
}

/// Copies `count` bytes one at a time, lowest index first, each read seeing
/// the writes before it.
pub open spec fn copy_ascending(bytes: Seq<u8>, src: int, dst: int, count: nat) -> Seq<u8>
    decreases count,
{
    if count == 0 {
        bytes
    } else {
        let before = copy_ascending(bytes, src, dst, (count - 1) as nat);
        before.update(dst + count - 1, before[src + count - 1])
    }
}

/// Copies the last `done` of `count` bytes one at a time, highest index first,
/// each read seeing the writes before it.
pub open spec fn copy_descending(bytes: Seq<u8>, src: int, dst: int, count: nat, done: nat) -> Seq<
    u8,
>
    decreases done,
{
    if done == 0 {
        bytes
    } else {
        let before = copy_descending(bytes, src, dst, count, (done - 1) as nat);
        before.update(dst + count - done, before[src + count - done])
    }
}

proof fn lemma_copy_ascending_prefix(bytes: Seq<u8>, src: int, dst: int, count: nat)
    requires
        0 <= dst <= src,
        src + count <= bytes.len(),
    ensures
        copy_ascending(bytes, src, dst, count) =~= overwrite(
            bytes,
            dst,
            bytes.subrange(src, src + count),
        ),
    decreases count,
{
    if count > 0 {
        lemma_copy_ascending_prefix(bytes, src, dst, (count - 1) as nat);
    }
}

proof fn lemma_copy_descending_suffix(bytes: Seq<u8>, src: int, dst: int, count: nat, done: nat)
    requires
        0 <= src <= dst,
        dst + count <= bytes.len(),
        done <= count,
    ensures
        copy_descending(bytes, src, dst, count, done) =~= overwrite(
            bytes,
            dst + count - done,
            bytes.subrange(src + count - done, src + count),
        ),
    decreases done,
{
    if done > 0 {
        lemma_copy_descending_suffix(bytes, src, dst, count, (done - 1) as nat);
    }
}

/// Copying within a buffer gives what a byte-by-byte copy gives that runs
/// upwards where the destination lies at or before the source, and downwards
/// where it lies at or after it, however the two ranges overlap.
pub proof fn lemma_copy_within_is_bytewise(bytes: Seq<u8>, src: Address, dst: Address, len: Size)
    requires
        span_in_bounds(bytes, src, len.0 as nat),
        span_in_bounds(bytes, dst, len.0 as nat),
    ensures
        spec_copy_within(bytes, src, dst, len) is Ok,
        dst.0 <= src.0 ==> spec_copy_within(bytes, src, dst, len)->Ok_0 == copy_ascending(
            bytes,
            src.0 as int,
            dst.0 as int,
            len.0 as nat,
        ),
        dst.0 >= src.0 ==> spec_copy_within(bytes, src, dst, len)->Ok_0 == copy_descending(
            bytes,
            src.0 as int,
            dst.0 as int,
            len.0 as nat,
            len.0 as nat,
        ),
{
    let n = len.0 as nat;
    if len.0 == 0 {
        assert(copy_ascending(bytes, src.0 as int, dst.0 as int, 0) == bytes);
        assert(copy_descending(bytes, src.0 as int, dst.0 as int, 0, 0) == bytes);
    } else {
        if dst.0 <= src.0 {
            lemma_copy_ascending_prefix(bytes, src.0 as int, dst.0 as int, n);
        }
        if dst.0 >= src.0 {
            lemma_copy_descending_suffix(bytes, src.0 as int, dst.0 as int, n, n);
        }
    }
}

/// Setting or clearing one bit of a byte gives that bit the new state and
/// leaves the other seven as they were.
pub proof fn lemma_with_bit(byte: u8, bit: u8, set: bool, other: u8)
    requires
        bit <= 7,
        other <= 7,
    ensures
        bit_is_set(with_bit(byte, bit, set), other) == if other == bit {
            set
        } else {
            bit_is_set(byte, other)
        },
{
    assert(bit <= 7 && other <= 7 ==> ((byte | (1u8 << bit)) & (1u8 << other) != 0) == (other
        == bit || byte & (1u8 << other) != 0)) by (bit_vector);
    assert(bit <= 7 && other <= 7 ==> ((byte & !(1u8 << bit)) & (1u8 << other) != 0) == (other
        != bit && byte & (1u8 << other) != 0)) by (bit_vector);
}

/// A bit written is the bit read back from the same place.
pub proof fn lemma_write_then_read_bit(bytes: Seq<u8>, address: Address, bit: u8, set: bool)
    requires
        bit <= 7,
        in_bounds(bytes, address),
    ensures
        spec_write_bit(bytes, address, bit, set) is Ok,
        spec_read_bit(spec_write_bit(bytes, address, bit, set)->Ok_0, address, bit) == Ok::<
            bool,
            SaveError,
        >(set),
{
    lemma_with_bit(bytes[address.0 as int], bit, set, bit);
}

/// In a flat bit array, a bit written is the bit read back at its index, and
/// a bit at any other index reads as before.
pub proof fn lemma_write_then_read_indexed_bit(
    bytes: Seq<u8>,
    base: Address,
    bit_index: nat,
    set: bool,
    other_index: nat,
)
    requires
        spec_write_indexed_bit(bytes, base, bit_index, set) is Ok,
    ensures
        spec_read_indexed_bit(
            spec_write_indexed_bit(bytes, base, bit_index, set)->Ok_0,
            base,
            other_index,
        ) == if other_index == bit_index {
            Ok::<bool, SaveError>(set)
        } else {
            spec_read_indexed_bit(bytes, base, other_index)
        },
{
    let after = spec_write_indexed_bit(bytes, base, bit_index, set)->Ok_0;
    let at = base.spec_offset(bit_index / 8).0 as int;
    let bit = (bit_index % 8) as u8;
    let other_bit = (other_index % 8) as u8;
    assert(after.len() == bytes.len());
    if base.can_offset(other_index / 8) && in_bounds(bytes, base.spec_offset(other_index / 8)) {
        let other_at = base.spec_offset(other_index / 8).0 as int;
        if other_at == at {
            assert(other_index / 8 == bit_index / 8);
            lemma_with_bit(bytes[at], bit, set, other_bit);
            if other_bit == bit {
                assert(other_index == bit_index);
            }
        } else {
            assert(after[other_at] == bytes[other_at]);
        }
    }
}

} // verus!
