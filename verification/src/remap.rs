use crate::byte_model::{address_error, in_bounds, spec_read_indexed_bit, spec_write_indexed_bit};
use crate::error::{SaveError, SaveResult};
use crate::save_binary::SaveBinary;
use crate::types::{spec_bits_to_bytes, Address};
use vstd::prelude::*;

verus! {

/// Whether entry `index` of the list at `base` has an address and lies in `bytes`.
pub open spec fn entry_in_bounds(bytes: Seq<u8>, base: Address, index: nat) -> bool {
    base.can_offset(index) && in_bounds(bytes, base.spec_offset(index))
}

/// Entry `index` of the list at `base`.
pub open spec fn entry_at(bytes: Seq<u8>, base: Address, index: int) -> u8 {
    bytes[base.0 + index]
}

/// How far a scan of the list at `base` gets that starts at entry `from`: it
/// ends before entry `max_len`, before the first entry outside `bytes`, and,
/// where `stop_at_zero` holds, before the first entry that is zero.
pub open spec fn scanned_len(
    bytes: Seq<u8>,
    base: Address,
    max_len: nat,
    from: nat,
    stop_at_zero: bool,
) -> nat
    decreases max_len - from,
{
    if from >= max_len {
        max_len
    } else if !entry_in_bounds(bytes, base, from) {
        from
    } else if stop_at_zero && bytes[base.0 + from] == 0 {
        from
    } else {
        scanned_len(bytes, base, max_len, from + 1, stop_at_zero)
    }
}

/// What a scan returns that got as far as entry `reached`: the out-of-bounds
/// error of that entry where the scan had to read it and could not.
pub open spec fn scan_result(bytes: Seq<u8>, base: Address, max_len: nat, reached: nat) -> SaveResult<
    (),
> {
    if reached < max_len && !entry_in_bounds(bytes, base, reached) {
        Err(address_error(bytes, base.spec_offset(reached)))
    } else {
        Ok(())
    }
}

/// What processing source bit `index` does to the destination `dst`, where
/// the mapping answered `answer`: a set bit with an answer below `dst_bits`
/// sets that destination bit, anything else leaves `dst` as it is.
pub open spec fn bit_step(
    src: Seq<u8>,
    src_base: Address,
    index: nat,
    dst: Seq<u8>,
    dst_base: Address,
    dst_bits: nat,
    answer: Option<usize>,
) -> SaveResult<Seq<u8>> {
    match spec_read_indexed_bit(src, src_base, index) {
        Err(e) => Err(e),
        Ok(bit) => if bit && answer is Some && answer->0 < dst_bits {
            spec_write_indexed_bit(dst, dst_base, answer->0 as nat, true)
        } else {
            Ok(dst)
        },
    }
}

/// The destination and the result after the source bits `0..count`, taken in
/// order, where the mapping answered `answers[i]` for bit `i`. The first
/// failing access ends the run; what was set before it stays set.
pub open spec fn bits_mapped(
    src: Seq<u8>,
    src_base: Address,
    count: nat,
    dst: Seq<u8>,
    dst_base: Address,
    dst_bits: nat,
    answers: Seq<Option<usize>>,
) -> (Seq<u8>, SaveResult<()>)
    decreases count,
{
    if count == 0 {
        (dst, Ok(()))
    } else {
        let before = bits_mapped(src, src_base, (count - 1) as nat, dst, dst_base, dst_bits, answers);
        match before.1 {
            Err(e) => before,
            Ok(_) => match bit_step(
                src,
                src_base,
                (count - 1) as nat,
                before.0,
                dst_base,
                dst_bits,
                answers[count - 1],
            ) {
                Ok(next) => (next, Ok(())),
                Err(e) => (before.0, Err(e)),
            },
        }
    }
}

/// Whether the run reaches source bit `index` and finds it set, so that the
/// mapping is asked about it.
pub open spec fn bit_asked(
    src: Seq<u8>,
    src_base: Address,
    index: nat,
    dst: Seq<u8>,
    dst_base: Address,
    dst_bits: nat,
    answers: Seq<Option<usize>>,
) -> bool {
    bits_mapped(src, src_base, index, dst, dst_base, dst_bits, answers).1 is Ok
        && spec_read_indexed_bit(src, src_base, index) == Ok::<bool, SaveError>(true)
}

/// The run over the first `count` bits looks at the first `count` answers only.
pub proof fn lemma_bits_mapped_prefix(
    src: Seq<u8>,
    src_base: Address,
    count: nat,
    dst: Seq<u8>,
    dst_base: Address,
    dst_bits: nat,
    first: Seq<Option<usize>>,
    second: Seq<Option<usize>>,
)
    requires
        forall|i: int| 0 <= i < count ==> first[i] == second[i],
    ensures
        bits_mapped(src, src_base, count, dst, dst_base, dst_bits, first) == bits_mapped(
            src,
            src_base,
            count,
            dst,
            dst_base,
            dst_bits,
            second,
        ),
    decreases count,
{
    if count > 0 {
        lemma_bits_mapped_prefix(
            src,
            src_base,
            (count - 1) as nat,
            dst,
            dst_base,
            dst_bits,
            first,
            second,
        );
    }
}

/// A run that has failed stays as it is, however many more bits are asked for.
pub proof fn lemma_bits_mapped_error_stays(
    src: Seq<u8>,
    src_base: Address,
    failed: nat,
    count: nat,
    dst: Seq<u8>,
    dst_base: Address,
    dst_bits: nat,
    answers: Seq<Option<usize>>,
)
    requires
        failed <= count,
        bits_mapped(src, src_base, failed, dst, dst_base, dst_bits, answers).1 is Err,
    ensures
        bits_mapped(src, src_base, count, dst, dst_base, dst_bits, answers) == bits_mapped(
            src,
            src_base,
            failed,
            dst,
            dst_base,
            dst_bits,
            answers,
        ),
    decreases count - failed,
{
    if failed < count {
        lemma_bits_mapped_error_stays(
            src,
            src_base,
            failed,
            (count - 1) as nat,
            dst,
            dst_base,
            dst_bits,
            answers,
        );
    }
}

/// A run keeps the destination's length, changes no byte outside the
/// `dst_bits` bits at `dst_base`, and clears no bit.
pub proof fn lemma_bits_mapped_extent(
    src: Seq<u8>,
    src_base: Address,
    count: nat,
    dst: Seq<u8>,
    dst_base: Address,
    dst_bits: nat,
    answers: Seq<Option<usize>>,
)
    ensures
        bits_mapped(src, src_base, count, dst, dst_base, dst_bits, answers).0.len() == dst.len(),
        forall|j: int|
            0 <= j < dst.len() && !(dst_base.0 <= j < dst_base.0 + spec_bits_to_bytes(dst_bits))
                ==> #[trigger] bits_mapped(
                src,
                src_base,
                count,
                dst,
                dst_base,
                dst_bits,
                answers,
            ).0[j] == dst[j],
        forall|j: int|
            0 <= j < dst.len() ==> dst[j] & #[trigger] bits_mapped(
                src,
                src_base,
                count,
                dst,
                dst_base,
                dst_bits,
                answers,
            ).0[j] == dst[j],
    decreases count,
{
    if count > 0 {
        let before = bits_mapped(src, src_base, (count - 1) as nat, dst, dst_base, dst_bits, answers);
        let after = bits_mapped(src, src_base, count, dst, dst_base, dst_bits, answers);
        lemma_bits_mapped_extent(src, src_base, (count - 1) as nat, dst, dst_base, dst_bits, answers);
        assert forall|j: int| 0 <= j < dst.len() implies dst[j] & #[trigger] after.0[j]
            == dst[j] by {
            let a = dst[j];
            let b = before.0[j];
            let c = after.0[j];
            if c != b {
                let to = answers[count - 1]->0;
                let bit = (to as nat % 8) as u8;
                assert(c == b | (1u8 << bit));
                assert(a & b == a ==> a & (b | (1u8 << bit)) == a) by (bit_vector);
            }
        }
    } else {
        assert forall|j: int| 0 <= j < dst.len() implies dst[j] & dst[j] == dst[j] by {
            let a = dst[j];
            assert(a & a == a) by (bit_vector);
        }
    }
}

/// Copies set bits from one bitset to another using an index mapping.
///
/// This is useful for remapping flag arrays where the meaning of individual bits changes between
/// versions.
///
/// - `map_index` maps a source bit index to a destination bit index.
/// - `on_unmapped` is called for any source bit that cannot be mapped or would fall out of range.
///
/// The destination afterwards is what [`bits_mapped`] gives for the answers
/// that `map_index` gave, one for every set source bit that was reached.
#[allow(clippy::too_many_arguments)]
pub fn map_bitset(
    source: &SaveBinary,
    src_base: Address,
    src_bits: usize,
    dest: &mut SaveBinary,
    dst_base: Address,
    dst_bits: usize,
    mut map_index: impl FnMut(usize) -> Option<usize>,
    mut on_unmapped: impl FnMut(usize),
) -> (r: SaveResult<()>)
    requires
        forall|i: usize|
            i < src_bits && spec_read_indexed_bit(source@, src_base, i as nat) == Ok::<
                bool,
                SaveError,
            >(true) ==> call_requires(map_index, (i,)),
        forall|i: usize|
            i < src_bits && spec_read_indexed_bit(source@, src_base, i as nat) == Ok::<
                bool,
                SaveError,
            >(true) ==> call_requires(on_unmapped, (i,)),
    ensures
        exists|answers: Seq<Option<usize>>|
            {
                &&& answers.len() == src_bits
                &&& forall|i: int|
                    0 <= i < src_bits && #[trigger] bit_asked(
                        source@,
                        src_base,
                        i as nat,
                        old(dest)@,
                        dst_base,
                        dst_bits as nat,
                        answers,
                    ) ==> call_ensures(map_index, (i as usize,), answers[i])
                &&& bits_mapped(
                    source@,
                    src_base,
                    src_bits as nat,
                    old(dest)@,
                    dst_base,
                    dst_bits as nat,
                    answers,
                ) == (final(dest)@, r)
            },
        final(dest)@.len() == old(dest)@.len(),
        forall|j: int|
            0 <= j < old(dest)@.len() && !(dst_base.0 <= j < dst_base.0 + spec_bits_to_bytes(
                dst_bits as nat,
            )) ==> final(dest)@[j] == old(dest)@[j],
        forall|j: int|
            0 <= j < old(dest)@.len() ==> old(dest)@[j] & #[trigger] final(dest)@[j] == old(dest)@[j],
{
    broadcast use vstd::function::group_function_axioms;

    let ghost ask = map_index;
    let ghost report = on_unmapped;
    let ghost src = source@;
    let ghost dst = dest@;
    let ghost bits = dst_bits as nat;
    let ghost mut answers: Seq<Option<usize>> = Seq::new(src_bits as nat, |i: int| None);
    let mut failure: Option<SaveError> = None;
    let mut index: usize = 0;
    while index < src_bits && failure.is_none()
        invariant
            index <= src_bits,
            map_index == ask,
            on_unmapped == report,
            src == source@,
            bits == dst_bits,
            forall|i: usize|
                i < src_bits && spec_read_indexed_bit(src, src_base, i as nat) == Ok::<
                    bool,
                    SaveError,
                >(true) ==> call_requires(ask, (i,)),
            forall|i: usize|
                i < src_bits && spec_read_indexed_bit(src, src_base, i as nat) == Ok::<
                    bool,
                    SaveError,
                >(true) ==> call_requires(report, (i,)),
            answers.len() == src_bits,
            forall|i: int|
                0 <= i < index && #[trigger] bit_asked(
                    src,
                    src_base,
                    i as nat,
                    dst,
                    dst_base,
                    bits,
                    answers,
                ) ==> call_ensures(ask, (i as usize,), answers[i]),
            forall|i: int| index <= i < src_bits ==> answers[i] is None,
            bits_mapped(src, src_base, index as nat, dst, dst_base, bits, answers) == (
                dest@,
                match failure {
                    Some(e) => Err::<(), SaveError>(e),
                    None => Ok(()),
                },
            ),
        decreases src_bits - index + if failure is None { 1int } else { 0int },
    {
        let ghost earlier = answers;
        let ghost held = dest@;
        let mut answer: Option<usize> = None;
        let step: SaveResult<()> = match source.read_indexed_bit(src_base, index) {
            Err(e) => Err(e),
            Ok(false) => Ok(()),
            Ok(true) => {
                answer = map_index(index);
                match answer {
                    Some(to) => {
                        if to < dst_bits {
                            dest.write_indexed_bit(dst_base, to, true)
                        } else {
                            on_unmapped(index);
                            Ok(())
                        }
                    },
                    None => {
                        on_unmapped(index);
                        Ok(())
                    },
                }
            },
        };
        proof {
            answers = earlier.update(index as int, answer);
            lemma_bits_mapped_prefix(src, src_base, index as nat, dst, dst_base, bits, earlier, answers);
            assert forall|i: int|
                0 <= i < index + 1 && #[trigger] bit_asked(
                    src,
                    src_base,
                    i as nat,
                    dst,
                    dst_base,
                    bits,
                    answers,
                ) implies call_ensures(ask, (i as usize,), answers[i]) by {
                lemma_bits_mapped_prefix(src, src_base, i as nat, dst, dst_base, bits, earlier, answers);
                if i < index {
                    assert(bit_asked(src, src_base, i as nat, dst, dst_base, bits, earlier));
                }
            }
            assert(bit_step(src, src_base, index as nat, held, dst_base, bits, answer) == match step {
                Ok(_) => Ok::<Seq<u8>, SaveError>(dest@),
                Err(e) => Err(e),
            });
        }
        match step {
            Ok(_) => {},
            Err(e) => {
                failure = Some(e);
            },
        }
        index += 1;
    }
    proof {
        if failure is Some {
            lemma_bits_mapped_error_stays(
                src,
                src_base,
                index as nat,
                src_bits as nat,
                dst,
                dst_base,
                bits,
                answers,
            );
            assert forall|i: int|
                index <= i < src_bits implies !#[trigger] bit_asked(
                src,
                src_base,
                i as nat,
                dst,
                dst_base,
                bits,
                answers,
            ) by {
                lemma_bits_mapped_error_stays(
                    src,
                    src_base,
                    index as nat,
                    i as nat,
                    dst,
                    dst_base,
                    bits,
                    answers,
                );
            }
        }
        lemma_bits_mapped_extent(src, src_base, src_bits as nat, dst, dst_base, bits, answers);
    }
    match failure {
        Some(e) => Err(e),
        None => Ok(()),
    }
}

/// A scan from entry `from` ends at or after it and at or before `max_len`.
/// Every entry that it passes lies in `bytes`, and is not zero where the scan
/// stops at zero; the entry it ends at, if there is one, is out of bounds or
/// such a zero.
pub proof fn lemma_scanned_len(
    bytes: Seq<u8>,
    base: Address,
    max_len: nat,
    from: nat,
    stop_at_zero: bool,
)
    requires
        from <= max_len,
    ensures
        from <= scanned_len(bytes, base, max_len, from, stop_at_zero) <= max_len,
        forall|i: nat|
            from <= i < scanned_len(bytes, base, max_len, from, stop_at_zero)
                ==> #[trigger] entry_in_bounds(bytes, base, i),
        stop_at_zero ==> forall|i: int|
            from <= i < scanned_len(bytes, base, max_len, from, stop_at_zero) ==> #[trigger] entry_at(
                bytes,
                base,
                i,
            ) != 0,
        scanned_len(bytes, base, max_len, from, stop_at_zero) < max_len ==> !entry_in_bounds(
            bytes,
            base,
            scanned_len(bytes, base, max_len, from, stop_at_zero),
        ) || (stop_at_zero && entry_at(
            bytes,
            base,
            scanned_len(bytes, base, max_len, from, stop_at_zero) as int,
        ) == 0),
    decreases max_len - from,
{
    if from < max_len && entry_in_bounds(bytes, base, from) && !(stop_at_zero && bytes[base.0
        + from] == 0) {
        lemma_scanned_len(bytes, base, max_len, from + 1, stop_at_zero);
    }
}

/// Remaps a zero-terminated list of `u8` values in-place.
///
/// Iteration stops at the first `0` byte (or after `max_len` bytes). Values that cannot be mapped
/// are left unchanged and reported via `on_invalid`.
///
/// Every entry that the scan passes holds afterwards what `map_value` gave
/// for it, or what it held where `map_value` gave nothing; no other byte
/// changes. The result is the out-of-bounds error of the entry at which the
/// scan left the buffer, if it did.
pub fn remap_zero_terminated_u8(
    save: &mut SaveBinary,
    base: Address,
    max_len: usize,
    mut map_value: impl FnMut(u8) -> Option<u8>,
    mut on_invalid: impl FnMut(usize, u8),
) -> (r: SaveResult<()>)
    requires
        forall|j: int|
            base.0 <= j < base.0 + scanned_len(old(save)@, base, max_len as nat, 0, true)
                ==> call_requires(map_value, (#[trigger] old(save)@[j],)),
        forall|j: int|
            base.0 <= j < base.0 + scanned_len(old(save)@, base, max_len as nat, 0, true)
                ==> call_requires(on_invalid, ((j - base.0) as usize, #[trigger] old(save)@[j])),
    ensures
        final(save)@.len() == old(save)@.len(),
        forall|j: int|
            base.0 <= j < base.0 + scanned_len(old(save)@, base, max_len as nat, 0, true) ==> {
                call_ensures(map_value, (old(save)@[j],), Some(#[trigger] final(save)@[j]))
                    || (call_ensures(map_value, (old(save)@[j],), None::<u8>) && final(save)@[j]
                    == old(save)@[j])
            },
        forall|j: int|
            0 <= j < old(save)@.len() && !(base.0 <= j < base.0 + scanned_len(
                old(save)@,
                base,
                max_len as nat,
                0,
                true,
            )) ==> #[trigger] final(save)@[j] == old(save)@[j],
        r == scan_result(
            old(save)@,
            base,
            max_len as nat,
            scanned_len(old(save)@, base, max_len as nat, 0, true),
        ),
{
    broadcast use vstd::function::group_function_axioms;

    let ghost map = map_value;
    let ghost report = on_invalid;
    let ghost before = save@;
    let ghost limit = max_len as nat;
    let ghost reach = scanned_len(before, base, limit, 0, true);
    let total: usize = save.len();
    let mut failure: Option<SaveError> = None;
    let mut at_zero: bool = false;
    let mut index: usize = 0;
    proof {
        lemma_scanned_len(before, base, limit, 0, true);
    }
    while index < max_len && !at_zero && failure.is_none()
        invariant
            index <= max_len == limit,
            map_value == map,
            on_invalid == report,
            before == old(save)@,
            total == before.len() == save@.len(),
            reach == scanned_len(before, base, limit, 0, true),
            reach == scanned_len(before, base, limit, index as nat, true),
            index <= reach,
            forall|j: int|
                base.0 <= j < base.0 + reach ==> call_requires(map, (#[trigger] before[j],)),
            forall|j: int|
                base.0 <= j < base.0 + reach ==> call_requires(
                    report,
                    ((j - base.0) as usize, #[trigger] before[j]),
                ),
            at_zero || failure is Some ==> reach == index,
            !(at_zero && failure is Some),
            match failure {
                Some(e) => Err::<(), SaveError>(e),
                None => Ok(()),
            } == if at_zero || failure is Some {
                scan_result(before, base, limit, index as nat)
            } else {
                Ok(())
            },
            forall|j: int|
                base.0 <= j < base.0 + index ==> {
                    call_ensures(map, (before[j],), Some(#[trigger] save@[j])) || (call_ensures(
                        map,
                        (before[j],),
                        None::<u8>,
                    ) && save@[j] == before[j])
                },
            forall|j: int|
                0 <= j < before.len() && !(base.0 <= j < base.0 + index) ==> #[trigger] save@[j]
                    == before[j],
        decreases max_len - index + if at_zero || failure is Some { 0int } else { 1int },
    {
        let ghost held = save@;
        let read = match base.checked_offset(index) {
            Some(addr) => match save.read_u8(addr) {
                Ok(value) => Ok((addr, value)),
                Err(e) => Err(e),
            },
            None => Err(SaveError::AddressOutOfBounds { address: Address(u32::MAX), len: total }),
        };
        match read {
            Err(e) => {
                failure = Some(e);
            },
            Ok((addr, value)) => {
                if value == 0 {
                    at_zero = true;
                } else {
                    proof {
                        lemma_scanned_len(before, base, limit, (index + 1) as nat, true);
                        assert(before[base.0 + index] == value);
                    }
                    match map_value(value) {
                        Some(mapped) => {
                            if mapped != value {
                                let written = save.write_u8(addr, mapped);
                                assert(written is Ok);
                            }
                        },
                        None => {
                            on_invalid(index, value);
                        },
                    }
                    proof {
                        assert forall|j: int| base.0 <= j < base.0 + index + 1 implies call_ensures(
                            map,
                            (before[j],),
                            Some(#[trigger] save@[j]),
                        ) || (call_ensures(map, (before[j],), None::<u8>) && save@[j]
                            == before[j]) by {
                            if j < base.0 + index {
                                assert(save@[j] == held[j]);
                            }
                        }
                    }
                    index += 1;
                }
            },
        }
    }
    match failure {
        Some(e) => Err(e),
        None => Ok(()),
    }
}

/// Remaps a fixed-length list of `u8` values in-place, skipping zeros.
///
/// - If a value is `0`, it is left as-is.
/// - If `map_value` returns `None`, `on_invalid` decides a replacement value.
///
/// Every entry of the list that lies in the buffer and is not zero holds
/// afterwards what `map_value` gave for it, or what `on_invalid` gave where
/// `map_value` gave nothing; no other byte changes. The result is the
/// out-of-bounds error of the first entry outside the buffer, if there is one.
pub fn remap_fixed_len_u8_skip_zero(
    save: &mut SaveBinary,
    base: Address,
    len: usize,
    mut map_value: impl FnMut(u8) -> Option<u8>,
    mut on_invalid: impl FnMut(usize, u8) -> u8,
) -> (r: SaveResult<()>)
    requires
        forall|j: int|
            base.0 <= j < base.0 + scanned_len(old(save)@, base, len as nat, 0, false) && old(
                save,
            )@[j] != 0 ==> call_requires(map_value, (#[trigger] old(save)@[j],)),
        forall|j: int|
            base.0 <= j < base.0 + scanned_len(old(save)@, base, len as nat, 0, false) && old(
                save,
            )@[j] != 0 ==> call_requires(
                on_invalid,
                ((j - base.0) as usize, #[trigger] old(save)@[j]),
            ),
    ensures
        final(save)@.len() == old(save)@.len(),
        forall|j: int|
            base.0 <= j < base.0 + scanned_len(old(save)@, base, len as nat, 0, false) ==> {
                if old(save)@[j] == 0 {
                    #[trigger] final(save)@[j] == 0
                } else {
                    call_ensures(map_value, (old(save)@[j],), Some(final(save)@[j])) || (
                    call_ensures(map_value, (old(save)@[j],), None::<u8>) && call_ensures(
                        on_invalid,
                        ((j - base.0) as usize, old(save)@[j]),
                        final(save)@[j],
                    ))
                }
            },
        forall|j: int|
            0 <= j < old(save)@.len() && !(base.0 <= j < base.0 + scanned_len(
                old(save)@,
                base,
                len as nat,
                0,
                false,
            )) ==> #[trigger] final(save)@[j] == old(save)@[j],
        r == scan_result(
            old(save)@,
            base,
            len as nat,
            scanned_len(old(save)@, base, len as nat, 0, false),
        ),
{
    broadcast use vstd::function::group_function_axioms;

    let ghost map = map_value;
    let ghost replace = on_invalid;
    let ghost before = save@;
    let ghost limit = len as nat;
    let ghost reach = scanned_len(before, base, limit, 0, false);
    let total: usize = save.len();
    let mut failure: Option<SaveError> = None;
    let mut index: usize = 0;
    proof {
        lemma_scanned_len(before, base, limit, 0, false);
    }
    while index < len && failure.is_none()
        invariant
            index <= len == limit,
            map_value == map,
            on_invalid == replace,
            before == old(save)@,
            total == before.len() == save@.len(),
            reach == scanned_len(before, base, limit, 0, false),
            reach == scanned_len(before, base, limit, index as nat, false),
            index <= reach,
            forall|j: int|
                base.0 <= j < base.0 + reach && before[j] != 0 ==> call_requires(
                    map,
                    (#[trigger] before[j],),
                ),
            forall|j: int|
                base.0 <= j < base.0 + reach && before[j] != 0 ==> call_requires(
                    replace,
                    ((j - base.0) as usize, #[trigger] before[j]),
                ),
            failure is Some ==> reach == index,
            match failure {
                Some(e) => Err::<(), SaveError>(e),
                None => Ok(()),
            } == if failure is Some {
                scan_result(before, base, limit, index as nat)
            } else {
                Ok(())
            },
            forall|j: int|
                base.0 <= j < base.0 + index ==> {
                    if before[j] == 0 {
                        #[trigger] save@[j] == 0
                    } else {
                        call_ensures(map, (before[j],), Some(save@[j])) || (call_ensures(
                            map,
                            (before[j],),
                            None::<u8>,
                        ) && call_ensures(replace, ((j - base.0) as usize, before[j]), save@[j]))
                    }
                },
            forall|j: int|
                0 <= j < before.len() && !(base.0 <= j < base.0 + index) ==> #[trigger] save@[j]
                    == before[j],
        decreases len - index + if failure is Some { 0int } else { 1int },
    {
        let ghost held = save@;
        let read = match base.checked_offset(index) {
            Some(addr) => match save.read_u8(addr) {
                Ok(value) => Ok((addr, value)),
                Err(e) => Err(e),
            },
            None => Err(SaveError::AddressOutOfBounds { address: Address(u32::MAX), len: total }),
        };
        match read {
            Err(e) => {
                failure = Some(e);
            },
            Ok((addr, value)) => {
                proof {
                    lemma_scanned_len(before, base, limit, (index + 1) as nat, false);
                    assert(before[base.0 + index] == value);
                }
                if value != 0 {
                    let replacement = match map_value(value) {
                        Some(mapped) => mapped,
                        None => on_invalid(index, value),
                    };
                    if replacement != value {
                        let written = save.write_u8(addr, replacement);
                        assert(written is Ok);
                    }
                }
                proof {
                    assert forall|j: int| base.0 <= j < base.0 + index + 1 implies if before[j]
                        == 0 {
                        #[trigger] save@[j] == 0
                    } else {
                        call_ensures(map, (before[j],), Some(save@[j])) || (call_ensures(
                            map,
                            (before[j],),
                            None::<u8>,
                        ) && call_ensures(replace, ((j - base.0) as usize, before[j]), save@[j]))
                    } by {
                        if j < base.0 + index {
                            assert(save@[j] == held[j]);
                        }
                    }
                }
                index += 1;
            },
        }
    }
    match failure {
        Some(e) => Err(e),
        None => Ok(()),
    }
}

} // verus!
