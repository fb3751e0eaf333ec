use crate::byte_model::{
    address_error, in_bounds, overwrite, pair_error, range_error, range_in_bounds,
    span_in_bounds, spec_copy_from_other,
    spec_copy_within, spec_fill, spec_fill_len, spec_read_bit, spec_read_bytes,
    spec_read_indexed_bit, spec_read_u16_be, spec_read_u16_le, spec_read_u8,
    spec_require_min_size, spec_write_bit, spec_write_bytes, spec_write_indexed_bit,
    spec_write_u16_be, spec_write_u16_le, spec_write_u8, write_outcome,
};
use crate::error::{SaveError, SaveResult};
use crate::types::{Address, AddressRange, Size};
use vstd::prelude::*;
use vstd::std_specs::cmp::PartialEqSpecImpl;

verus! {

/// Mutable byte buffer with safe, bounds-checked helpers.
#[derive(Debug)]
pub struct SaveBinary {
    bytes: Vec<u8>,
}

impl View for SaveBinary {
    type V = Seq<u8>;

    closed spec fn view(&self) -> Seq<u8> {
        self.bytes@
    }
}

impl SaveBinary {
    /// Takes `bytes` as the buffer.
    #[must_use]
    pub fn new(bytes: Vec<u8>) -> (save: SaveBinary)
        ensures
            save@ == bytes@,
    {
        SaveBinary { bytes }
    }

    /// Gives the bytes back.
    #[must_use]
    pub fn into_bytes(self) -> (bytes: Vec<u8>)
        ensures
            bytes@ == self@,
    {
        self.bytes
    }

    /// The whole buffer.
    #[must_use]
    pub fn as_bytes(&self) -> (bytes: &[u8])
        ensures
            bytes@ == self@,
    {
        self.bytes.as_slice()
    }

    /// The whole buffer, open to writes: what the caller leaves in the slice
    /// is what the buffer holds afterwards.
    #[must_use]
    pub fn as_bytes_mut(&mut self) -> (bytes: &mut [u8])
        ensures
            bytes@ == old(self)@,
            final(self)@ == final(bytes)@,
    {
        self.bytes.as_mut_slice()
    }

    /// The number of bytes in the buffer.
    #[must_use]
    pub fn len(&self) -> (len: usize)
        ensures
            len == self@.len(),
    {
        self.bytes.len()
    }

    /// Whether the buffer holds no byte.
    #[must_use]
    pub fn is_empty(&self) -> (empty: bool)
        ensures
            empty == (self@.len() == 0),
    {
        self.bytes.len() == 0
    }

    /// Fails unless the buffer holds at least `min` bytes.
    pub fn require_min_size(&self, min: usize) -> (r: SaveResult<()>)
        ensures
            r == spec_require_min_size(self@, min),
    {
        if self.bytes.len() < min {
            return Err(SaveError::SaveTooSmall { min, actual: self.bytes.len() });
        }
        Ok(())
    }

    fn check_address(&self, address: Address) -> (r: SaveResult<usize>)
        ensures
            r == if in_bounds(self@, address) {
                Ok::<usize, SaveError>(address.0 as usize)
            } else {
                Err(address_error(self@, address))
            },
    {
        let index = address.as_usize();
        if index >= self.bytes.len() {
            return Err(SaveError::AddressOutOfBounds { address, len: self.bytes.len() });
        }
        Ok(index)
    }

    /// Checks both bytes of a two-byte access before either is touched.
    fn check_pair(&self, address: Address) -> (r: SaveResult<usize>)
        ensures
            r == match pair_error(self@, address) {
                None => Ok::<usize, SaveError>(address.0 as usize),
                Some(e) => Err(e),
            },
    {
        let index = self.check_address(address)?;
        match address.checked_offset(1) {
            Some(second) => {
                if second.as_usize() >= self.bytes.len() {
                    return Err(
                        SaveError::AddressOutOfBounds { address: second, len: self.bytes.len() },
                    );
                }
            },
            None => {
                return Err(
                    SaveError::AddressOutOfBounds {
                        address: Address(u32::MAX),
                        len: self.bytes.len(),
                    },
                );
            },
        }
        Ok(index)
    }

    fn check_range(&self, range: AddressRange) -> (r: SaveResult<(usize, usize)>)
        ensures
            r == if range_in_bounds(self@, range) {
                Ok::<(usize, usize), SaveError>((range.start.0 as usize, range.end.0 as usize))
            } else {
                Err(range_error(self@, range))
            },
    {
        let r = range.to_usize_range();
        if r.start > r.end || r.end > self.bytes.len() {
            return Err(SaveError::RangeOutOfBounds { range, len: self.bytes.len() });
        }
        Ok((r.start, r.end))
    }

    /// Checks the `count` bytes from `start` on, and gives their two indices.
    fn check_span(&self, start: Address, count: usize) -> (r: SaveResult<(usize, usize)>)
        ensures
            r == if span_in_bounds(self@, start, count as nat) {
                Ok::<(usize, usize), SaveError>((start.0 as usize, (start.0 + count) as usize))
            } else {
                Err(range_error(self@, AddressRange::spanning(start, count as nat)))
            },
    {
        match start.checked_offset(count) {
            Some(end) => self.check_range(AddressRange::new(start, end)),
            None => Err(
                SaveError::RangeOutOfBounds {
                    range: AddressRange::new(start, Address(u32::MAX)),
                    len: self.bytes.len(),
                },
            ),
        }
    }

    /// Reads the byte at `address`.
    pub fn read_u8(&self, address: Address) -> (r: SaveResult<u8>)
        ensures
            r == spec_read_u8(self@, address),
    {
        let index = self.check_address(address)?;
        Ok(self.bytes[index])
    }

    /// Writes `value` at `address`; on failure no byte changes.
    pub fn write_u8(&mut self, address: Address, value: u8) -> (r: SaveResult<()>)
        ensures
            write_outcome(old(self)@, spec_write_u8(old(self)@, address, value), final(self)@, r),
    {
        let index = self.check_address(address)?;
        self.bytes[index] = value;
        Ok(())
    }

    /// Reads a little-endian 16-bit value at `address`.
    pub fn read_u16_le(&self, address: Address) -> (r: SaveResult<u16>)
        ensures
            r == spec_read_u16_le(self@, address),
    {
        let index = self.check_pair(address)?;
        let lo = self.bytes[index];
        let hi = self.bytes[index + 1];
        Ok(hi as u16 * 256 + lo as u16)
    }

    /// Reads a big-endian 16-bit value at `address`.
    pub fn read_u16_be(&self, address: Address) -> (r: SaveResult<u16>)
        ensures
            r == spec_read_u16_be(self@, address),
    {
        let index = self.check_pair(address)?;
        let hi = self.bytes[index];
        let lo = self.bytes[index + 1];
        Ok(hi as u16 * 256 + lo as u16)
    }

    /// Writes `value` little-endian at `address`; both bytes are checked
    /// before either is written.
    pub fn write_u16_le(&mut self, address: Address, value: u16) -> (r: SaveResult<()>)
        ensures
            write_outcome(
                old(self)@,
                spec_write_u16_le(old(self)@, address, value),
                final(self)@,
                r,
            ),
    {
        let index = self.check_pair(address)?;
        self.bytes[index] = (value % 256) as u8;
        self.bytes[index + 1] = (value / 256) as u8;
        Ok(())
    }

    /// Writes `value` big-endian at `address`; both bytes are checked before
    /// either is written.
    pub fn write_u16_be(&mut self, address: Address, value: u16) -> (r: SaveResult<()>)
        ensures
            write_outcome(
                old(self)@,
                spec_write_u16_be(old(self)@, address, value),
                final(self)@,
                r,
            ),
    {
        let index = self.check_pair(address)?;
        self.bytes[index] = (value / 256) as u8;
        self.bytes[index + 1] = (value % 256) as u8;
        Ok(())
    }

    /// Copies the bytes of `range` out of the buffer.
    pub fn read_bytes(&self, range: AddressRange) -> (r: SaveResult<Vec<u8>>)
        ensures
            match spec_read_bytes(self@, range) {
                Ok(bytes) => r is Ok && r->Ok_0@ == bytes,
                Err(e) => r matches Err(got) && got == e,
            },
    {
        let (start, end) = self.check_range(range)?;
        let mut out: Vec<u8> = Vec::new();
        let mut i: usize = start;
        while i < end
            invariant
                start <= i <= end <= self.bytes@.len(),
                out@ == self.bytes@.subrange(start as int, i as int),
            decreases end - i,
        {
            out.push(self.bytes[i]);
            i += 1;
        }
        Ok(out)
    }

    /// The bytes of `range`.
    pub fn slice(&self, range: AddressRange) -> (r: SaveResult<&[u8]>)
        ensures
            match spec_read_bytes(self@, range) {
                Ok(bytes) => r is Ok && r->Ok_0@ == bytes,
                Err(e) => r matches Err(got) && got == e,
            },
    {
        let (start, end) = self.check_range(range)?;
        Ok(vstd::slice::slice_subrange(self.bytes.as_slice(), start, end))
    }

    /// The bytes of `range`, open to writes: what the caller leaves in the
    /// slice replaces them, and every byte outside the range stays.
    pub fn slice_mut(&mut self, range: AddressRange) -> (r: SaveResult<&mut [u8]>)
        ensures
            match spec_read_bytes(old(self)@, range) {
                Ok(bytes) => r matches Ok(part) && part@ == bytes && final(self)@ == old(self)@.subrange(0, range.start.0 as int) + final(part)@ + old(self)@.subrange(
                    range.end.0 as int,
                    old(self)@.len() as int,
                ),
                Err(e) => r matches Err(got) && got == e && final(self)@ == old(self)@,
            },
    {
        let (start, end) = self.check_range(range)?;
        let whole = self.bytes.as_mut_slice();
        let (_head, rest) = whole.split_at_mut(start);
        let (part, _tail) = rest.split_at_mut(end - start);
        Ok(part)
    }

    /// Writes `data` from `start` on; on failure no byte changes.
    pub fn write_bytes(&mut self, start: Address, data: &[u8]) -> (r: SaveResult<()>)
        ensures
            write_outcome(old(self)@, spec_write_bytes(old(self)@, start, data@), final(self)@, r),
    {
        let (first, _end) = self.check_span(start, data.len())?;
        self.copy_in(first, data, 0, data.len());
        assert(data@.subrange(0, data@.len() as int) =~= data@);
        Ok(())
    }

    /// Sets every byte of `range` to `value`.
    pub fn fill(&mut self, range: AddressRange, value: u8) -> (r: SaveResult<()>)
        ensures
            write_outcome(old(self)@, spec_fill(old(self)@, range, value), final(self)@, r),
    {
        let (start, end) = self.check_range(range)?;
        self.fill_indices(start, end, value);
        Ok(())
    }

    /// Sets the `len` bytes from `start` on to `value`; a length of zero
    /// succeeds wherever `start` lies.
    pub fn fill_len(&mut self, start: Address, len: Size, value: u8) -> (r: SaveResult<()>)
        ensures
            write_outcome(old(self)@, spec_fill_len(old(self)@, start, len, value), final(self)@, r),
    {
        if len.0 == 0 {
            return Ok(());
        }
        let (first, end) = self.check_span(start, len.as_usize())?;
        self.fill_indices(first, end, value);
        Ok(())
    }

    /// Sets the `len` bytes from `start` on to zero.
    pub fn clear_len(&mut self, start: Address, len: Size) -> (r: SaveResult<()>)
        ensures
            write_outcome(old(self)@, spec_fill_len(old(self)@, start, len, 0), final(self)@, r),
    {
        self.fill_len(start, len, 0)
    }

    /// Sets the bytes at the indices `start..end` to `value`.
    fn fill_indices(&mut self, start: usize, end: usize, value: u8)
        requires
            start <= end <= old(self)@.len(),
        ensures
            final(self)@ == overwrite(
                old(self)@,
                start as int,
                Seq::new((end - start) as nat, |i: int| value),
            ),
    {
        let mut i: usize = start;
        while i < end
            invariant
                start <= i <= end <= self.bytes@.len(),
                self.bytes@ == overwrite(
                    old(self)@,
                    start as int,
                    Seq::new((i - start) as nat, |k: int| value),
                ),
            decreases end - i,
        {
            self.bytes[i] = value;
            i += 1;
        }
    }

    /// Copies `data[from..from + count]` to the indices from `at` on.
    fn copy_in(&mut self, at: usize, data: &[u8], from: usize, count: usize)
        requires
            at + count <= old(self)@.len(),
            from + count <= data@.len(),
        ensures
            final(self)@ == overwrite(
                old(self)@,
                at as int,
                data@.subrange(from as int, from + count),
            ),
    {
        let total: usize = self.bytes.len();
        let available: usize = data.len();
        let mut k: usize = 0;
        while k < count
            invariant
                k <= count,
                at + count <= total == self.bytes@.len(),
                from + count <= available == data@.len(),
                self.bytes@ == overwrite(
                    old(self)@,
                    at as int,
                    data@.subrange(from as int, from + k),
                ),
            decreases count - k,
        {
            self.bytes[at + k] = data[from + k];
            k += 1;
        }
    }

    /// Copies bytes from `src` into this buffer.
    ///
    /// This is a safe, bounds-checked equivalent of `dst[dst..dst+len] = src[src..src+len]`.
    pub fn copy_from_other(
        &mut self,
        src: &SaveBinary,
        src_start: Address,
        dst_start: Address,
        len: Size,
    ) -> (r: SaveResult<()>)
        ensures
            write_outcome(
                old(self)@,
                spec_copy_from_other(old(self)@, src@, src_start, dst_start, len),
                final(self)@,
                r,
            ),
    {
        if len.0 == 0 {
            return Ok(());
        }
        let (from, _src_end) = src.check_span(src_start, len.as_usize())?;
        let (at, _dst_end) = self.check_span(dst_start, len.as_usize())?;
        self.copy_in(at, src.bytes.as_slice(), from, len.as_usize());
        Ok(())
    }

    /// Copies `len` bytes from `src` to `dst` with memmove-like overlap behavior.
    pub fn copy_within(&mut self, src: Address, dst: Address, len: Size) -> (r: SaveResult<()>)
        ensures
            write_outcome(
                old(self)@,
                spec_copy_within(old(self)@, src, dst, len),
                final(self)@,
                r,
            ),
    {
        if len.0 == 0 {
            return Ok(());
        }
        let count = len.as_usize();
        let (from, _src_end) = self.check_span(src, count)?;
        let (at, _dst_end) = self.check_span(dst, count)?;
        let total: usize = self.bytes.len();
        let ghost before = self.bytes@;
        let ghost moved = before.subrange(from as int, from + count);
        if at <= from {
            let mut k: usize = 0;
            while k < count
                invariant
                    k <= count,
                    at <= from,
                    from + count <= total == self.bytes@.len(),
                    self.bytes@.len() == before.len(),
                    moved == before.subrange(from as int, from + count),
                    forall|i: int| at <= i < at + k ==> self.bytes@[i] == moved[i - at],
                    forall|i: int|
                        0 <= i < before.len() && !(at <= i < at + k) ==> self.bytes@[i]
                            == before[i],
                decreases count - k,
            {
                let byte = self.bytes[from + k];
                self.bytes[at + k] = byte;
                k += 1;
            }
        } else {
            let mut k: usize = count;
            while k > 0
                invariant
                    k <= count,
                    at > from,
                    at + count <= total == self.bytes@.len(),
                    self.bytes@.len() == before.len(),
                    moved == before.subrange(from as int, from + count),
                    forall|i: int| at + k <= i < at + count ==> self.bytes@[i] == moved[i - at],
                    forall|i: int|
                        0 <= i < before.len() && !(at + k <= i < at + count) ==> self.bytes@[i]
                            == before[i],
                decreases k,
            {
                k -= 1;
                let byte = self.bytes[from + k];
                self.bytes[at + k] = byte;
            }
        }
        assert(self.bytes@ =~= overwrite(before, at as int, moved));
        Ok(())
    }

    /// Reads bit `bit` (0 to 7) of the byte at `address`.
    pub fn read_bit(&self, address: Address, bit: u8) -> (r: SaveResult<bool>)
        ensures
            r == spec_read_bit(self@, address, bit),
    {
        if bit > 7 {
            return Err(SaveError::InvalidBitIndex { bit });
        }
        let value = self.read_u8(address)?;
        Ok((value & (1u8 << bit)) != 0)
    }

    /// Sets or clears bit `bit` (0 to 7) of the byte at `address`.
    pub fn write_bit(&mut self, address: Address, bit: u8, set: bool) -> (r: SaveResult<()>)
        ensures
            write_outcome(
                old(self)@,
                spec_write_bit(old(self)@, address, bit, set),
                final(self)@,
                r,
            ),
    {
        if bit > 7 {
            return Err(SaveError::InvalidBitIndex { bit });
        }
        let mut value = self.read_u8(address)?;
        let mask = 1u8 << bit;
        if set {
            value |= mask;
        } else {
            value &= !mask;
        }
        self.write_u8(address, value)
    }

    /// Reads bit `bit_index` of the flat bit array that starts at `base`.
    pub fn read_indexed_bit(&self, base: Address, bit_index: usize) -> (r: SaveResult<bool>)
        ensures
            r == spec_read_indexed_bit(self@, base, bit_index as nat),
    {
        let bit = (bit_index % 8) as u8;
        match base.checked_offset(bit_index / 8) {
            Some(address) => self.read_bit(address, bit),
            None => Err(
                SaveError::AddressOutOfBounds { address: Address(u32::MAX), len: self.bytes.len() },
            ),
        }
    }

    /// Sets or clears bit `bit_index` of the flat bit array that starts at `base`.
    pub fn write_indexed_bit(&mut self, base: Address, bit_index: usize, set: bool) -> (r:
        SaveResult<()>)
        ensures
            write_outcome(
                old(self)@,
                spec_write_indexed_bit(old(self)@, base, bit_index as nat, set),
                final(self)@,
                r,
            ),
    {
        let bit = (bit_index % 8) as u8;
        match base.checked_offset(bit_index / 8) {
            Some(address) => self.write_bit(address, bit, set),
            None => Err(
                SaveError::AddressOutOfBounds { address: Address(u32::MAX), len: self.bytes.len() },
            ),
        }
    }
}

impl Clone for SaveBinary {
    /// A buffer of its own with the same bytes.
    fn clone(&self) -> (copy: SaveBinary)
        ensures
            copy@ == self@,
    {
        let mut bytes: Vec<u8> = Vec::with_capacity(self.bytes.len());
        let mut i: usize = 0;
        while i < self.bytes.len()
            invariant
                i <= self.bytes@.len(),
                bytes@ == self.bytes@.subrange(0, i as int),
            decreases self.bytes@.len() - i,
        {
            bytes.push(self.bytes[i]);
            i += 1;
        }
        assert(bytes@ =~= self.bytes@);
        SaveBinary { bytes }
    }
}

impl PartialEq for SaveBinary {
    /// Two buffers are equal where they hold the same bytes.
    fn eq(&self, other: &SaveBinary) -> (equal: bool) {
        if self.bytes.len() != other.bytes.len() {
            return false;
        }
        let mut i: usize = 0;
        while i < self.bytes.len()
            invariant
                i <= self.bytes@.len(),
                self.bytes@.len() == other.bytes@.len(),
                forall|k: int| 0 <= k < i ==> self.bytes@[k] == other.bytes@[k],
            decreases self.bytes@.len() - i,
        {
            if self.bytes[i] != other.bytes[i] {
                return false;
            }
            i += 1;
        }
        assert(self.bytes@ =~= other.bytes@);
        true
    }
}

impl PartialEqSpecImpl for SaveBinary {
    open spec fn obeys_eq_spec() -> bool {
        true
    }

    open spec fn eq_spec(&self, other: &SaveBinary) -> bool {
        self@ == other@
    }
}

impl Eq for SaveBinary {

}

} // verus!
