use crate::byte_model::{range_error, range_in_bounds};
use crate::error::{SaveError, SaveResult};
use crate::save_binary::SaveBinary;
use crate::types::AddressRange;
use vstd::prelude::*;

verus! {

/// The sum of all bytes of `bytes`, as a natural number.
pub open spec fn byte_sum(bytes: Seq<u8>) -> nat
    decreases bytes.len(),
{
    if bytes.len() == 0 {
        0
    } else {
        byte_sum(bytes.drop_last()) + bytes.last() as nat
    }
}

/// The additive checksum of the bytes in `range`: their sum modulo 65536. A
/// range that is empty or runs backwards is rejected before its bounds are
/// looked at.
pub open spec fn spec_additive_u16_checksum(bytes: Seq<u8>, range: AddressRange) -> SaveResult<
    u16,
> {
    if range.start.0 >= range.end.0 {
        Err(SaveError::InvalidAddressRange { range })
    } else if !range_in_bounds(bytes, range) {
        Err(range_error(bytes, range))
    } else {
        Ok((byte_sum(bytes.subrange(range.start.0 as int, range.end.0 as int)) % 0x1_0000) as u16)
    }
}

/// The sum of two runs of bytes laid end to end is the sum of their sums.
pub proof fn lemma_byte_sum_concat(first: Seq<u8>, second: Seq<u8>)
    ensures
        byte_sum(first + second) == byte_sum(first) + byte_sum(second),
    decreases second.len(),
{
    if second.len() == 0 {
        assert(first + second =~= first);
    } else {
        assert((first + second).drop_last() =~= first + second.drop_last());
        lemma_byte_sum_concat(first, second.drop_last());
    }
}

/// Calculates the additive checksum of a save byte range.
///
/// This matches the common "sum of bytes (wrapping u16)" scheme used by many saves.
pub fn calculate_additive_u16_checksum(save: &SaveBinary, range: AddressRange) -> (r: SaveResult<
    u16,
>)
    ensures
        r == spec_additive_u16_checksum(save@, range),
{
    if range.start.0 >= range.end.0 {
        return Err(SaveError::InvalidAddressRange { range });
    }
    let bytes = save.slice(range)?;
    let ghost all = save@.subrange(range.start.0 as int, range.end.0 as int);
    let mut acc: u16 = 0;
    let mut i: usize = 0;
    while i < bytes.len()
        invariant
            i <= bytes@.len(),
            bytes@ == all,
            acc == byte_sum(all.subrange(0, i as int)) % 0x1_0000,
        decreases bytes@.len() - i,
    {
        proof {
            assert(all.subrange(0, i + 1).drop_last() =~= all.subrange(0, i as int));
        }
        acc = acc.wrapping_add(bytes[i] as u16);
        i += 1;
    }
    proof {
        assert(all.subrange(0, i as int) =~= all);
    }
    Ok(acc)
}

} // verus!
