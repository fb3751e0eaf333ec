use crate::text::{append_number, digits};
use std::ops::Range;
use vstd::prelude::*;
use vstd::string::StringExecFns;

verus! {

/// Number of whole bytes that `bits` bits occupy.
pub open spec fn spec_bits_to_bytes(bits: nat) -> nat {
    (bits + 7) / 8
}

/// Returns the number of bytes required to store `bits` bits.
#[must_use]
pub fn bits_to_bytes(bits: usize) -> (bytes: usize)
    ensures
        bytes == spec_bits_to_bytes(bits as nat),
{
    let whole: usize = bits / 8;
    if bits % 8 == 0 {
        whole
    } else {
        whole + 1
    }
}

/// Absolute address into a save buffer.
#[derive(Debug, Clone, Copy, PartialEq, Eq, Structural, PartialOrd, Ord, Hash)]
pub struct Address(
    /// Absolute offset (in bytes) into the save buffer.
    pub u32,
);

impl Address {
    /// Converts the address to a `usize` index for use with slices.
    #[must_use]
    pub fn as_usize(self) -> (index: usize)
        ensures
            index == self.0,
    {
        self.0 as usize
    }

    /// The address as text: `0x` and its digits in capital hexadecimal.
    pub open spec fn spec_text(self) -> Seq<char> {
        "0x"@ + digits(self.0 as nat, 16)
    }

    /// Writes the address as text, in hexadecimal.
    pub fn to_text(self) -> (text: String)
        ensures
            text@ == self.spec_text(),
    {
        let mut text = String::from_str("0x");
        append_number(&mut text, self.0, 16);
        text
    }

    /// The address `count` bytes further on, or the last address there is where
    /// that one would not fit in 32 bits.
    pub open spec fn spec_offset(self, count: nat) -> Address {
        if self.0 + count <= u32::MAX {
            Address((self.0 + count) as u32)
        } else {
            Address(u32::MAX)
        }
    }

    /// Whether the address `count` bytes further on still fits in 32 bits.
    pub open spec fn can_offset(self, count: nat) -> bool {
        self.0 + count <= u32::MAX
    }

    /// Returns the address `count` bytes further on, or `None` where that
    /// address does not fit in 32 bits.
    pub fn checked_offset(self, count: usize) -> (r: Option<Address>)
        ensures
            r == if self.can_offset(count as nat) {
                Some(self.spec_offset(count as nat))
            } else {
                None::<Address>
            },
    {
        let room: u32 = u32::MAX - self.0;
        if count <= room as usize {
            Some(Address(self.0 + count as u32))
        } else {
            None
        }
    }
}

/// Size in bytes.
#[derive(Debug, Clone, Copy, PartialEq, Eq, Structural, PartialOrd, Ord, Hash)]
pub struct Size(
    /// Number of bytes.
    pub u32,
);

impl Size {
    /// The size as text: its digits in decimal.
    pub open spec fn spec_text(self) -> Seq<char> {
        digits(self.0 as nat, 10)
    }

    /// Writes the size as text, in decimal.
    pub fn to_text(self) -> (text: String)
        ensures
            text@ == self.spec_text(),
    {
        let mut text = String::new();
        append_number(&mut text, self.0, 10);
        text
    }

    /// Converts the size to `usize`.
    #[must_use]
    pub fn as_usize(self) -> (count: usize)
        ensures
            count == self.0,
    {
        self.0 as usize
    }
}

/// Half-open byte range `[start, end)` in absolute address space.
#[derive(Debug, Clone, Copy, PartialEq, Eq, Structural, Hash)]
pub struct AddressRange {
    /// Inclusive start address.
    pub start: Address,
    /// Exclusive end address.
    pub end: Address,
}

impl AddressRange {
    /// Number of bytes in the range; zero where the end lies before the start.
    pub open spec fn spec_len(self) -> nat {
        if self.end.0 >= self.start.0 {
            (self.end.0 - self.start.0) as nat
        } else {
            0
        }
    }

    /// The range of `count` bytes that starts at `start`. Where its end would
    /// not fit in 32 bits the end is the last address there is.
    pub open spec fn spanning(start: Address, count: nat) -> AddressRange {
        AddressRange { start, end: start.spec_offset(count) }
    }

    /// The range as text: `[start, end)`, with both addresses as text.
    pub open spec fn spec_text(self) -> Seq<char> {
        "["@ + self.start.spec_text() + ", "@ + self.end.spec_text() + ")"@
    }

    /// Writes the range as text.
    pub fn to_text(self) -> (text: String)
        ensures
            text@ == self.spec_text(),
    {
        let mut text = String::from_str("[");
        text.append(self.start.to_text().as_str());
        text.append(", ");
        text.append(self.end.to_text().as_str());
        text.append(")");
        text
    }

    /// Creates a new half-open range `[start, end)`.
    #[must_use]
    pub fn new(start: Address, end: Address) -> (range: AddressRange)
        ensures
            range.start == start,
            range.end == end,
    {
        AddressRange { start, end }
    }

    /// Returns the range length in bytes.
    #[must_use]
    pub fn len(self) -> (size: Size)
        ensures
            size.0 == self.spec_len(),
    {
        if self.end.0 >= self.start.0 {
            Size(self.end.0 - self.start.0)
        } else {
            Size(0)
        }
    }

    /// Converts the range to a `Range<usize>` suitable for slice indexing.
    #[must_use]
    pub fn to_usize_range(self) -> (r: Range<usize>)
        ensures
            r.start == self.start.0,
            r.end == self.end.0,
    {
        self.start.as_usize()..self.end.as_usize()
    }
}

} // verus!
