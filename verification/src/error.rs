use crate::types::{Address, AddressRange, Size};
use vstd::prelude::*;

verus! {

/// A typed result used throughout the save patching code.
pub type SaveResult<T> = Result<T, SaveError>;

/// Errors returned when reading, validating, or patching a save buffer.
#[derive(Debug)]
#[allow(inconsistent_fields)]
pub enum SaveError {
    /// The provided save buffer is smaller than the minimum size required by the operation.
    SaveTooSmall {
        /// The minimum required size in bytes.
        min: usize,
        /// The actual provided size in bytes.
        actual: usize,
    },
    /// An absolute address fell outside the save buffer.
    AddressOutOfBounds {
        /// The address that was accessed.
        address: Address,
        /// The length of the save buffer in bytes.
        len: usize,
    },
    /// An address range fell outside the save buffer.
    RangeOutOfBounds {
        /// The attempted address range.
        range: AddressRange,
        /// The length of the save buffer in bytes.
        len: usize,
    },
    /// A bit index was outside the valid range for a single byte.
    InvalidBitIndex {
        /// The invalid bit index.
        bit: u8,
    },
    /// A range was malformed (e.g. start >= end).
    InvalidAddressRange {
        /// The invalid range.
        range: AddressRange,
    },
    /// A fixed-size read/write expected a different byte length.
    SizeMismatch {
        /// The expected size.
        expected: Size,
        /// The actual size.
        actual: Size,
    },
    /// A requested symbol name was not present in the symbol database.
    SymbolNotFound {
        /// The missing symbol name.
        name: String,
    },
    /// The embedded or provided symbol data could not be decompressed.
    SymbolFileDecompressionFailed,
    /// A symbol existed but its address was not in SRAM.
    SymbolNotInSram {
        /// The symbol name.
        name: String,
        /// The raw (non-SRAM-absolute) address.
        address: u16,
    },
    /// A symbol existed but was not in the expected memory region.
    SymbolNotInExpectedRegion {
        /// The symbol name.
        name: String,
        /// The expected memory region label.
        expected: &'static str,
        /// The raw (non-SRAM-absolute) address.
        address: u16,
    },
    /// A symbol-relative address calculation went backwards (negative offset).
    SymbolBeforeBase {
        /// The symbol that resolved to an earlier address.
        symbol: String,
        /// The base symbol used as the origin.
        base: String,
    },
    /// A migration was requested from a newer version to an older version.
    UnsupportedMigrationDirection {
        /// The current save version.
        current_version: u16,
        /// The requested target save version.
        target_version: u16,
    },
    /// A migration plan could not be built because an intermediate step is missing.
    MissingMigrationStep {
        /// The version we attempted to migrate from.
        from_version: u16,
        /// The requested target save version.
        target_version: u16,
    },
    /// A fix patch was requested with a `dev_type` that is not known.
    UnknownFixPatch {
        /// The requested fix patch identifier.
        dev_type: u8,
    },
    /// The requested feature exists conceptually but has not been implemented.
    NotImplemented {
        /// A short human-readable description of the missing feature.
        feature: String,
    },
    /// A computed checksum does not match the value stored in the save.
    ChecksumMismatch {
        /// Identifies which checksum was validated (e.g. "main" or "backup").
        which: &'static str,
        /// The checksum stored in the save.
        stored: u16,
        /// The checksum computed from the save data.
        calculated: u16,
    },
    /// The save is structurally valid but in a state that prevents safe patching.
    InvalidSaveState {
        /// A human-readable explanation of why patching is unsafe.
        reason: String,
    },
}

/// What a [`SaveError`] says, with every piece of text as a sequence of characters.
#[allow(inconsistent_fields)]
pub ghost enum SaveErrorView {
    SaveTooSmall { min: usize, actual: usize },
    AddressOutOfBounds { address: Address, len: usize },
    RangeOutOfBounds { range: AddressRange, len: usize },
    InvalidBitIndex { bit: u8 },
    InvalidAddressRange { range: AddressRange },
    SizeMismatch { expected: Size, actual: Size },
    SymbolNotFound { name: Seq<char> },
    SymbolFileDecompressionFailed,
    SymbolNotInSram { name: Seq<char>, address: u16 },
    SymbolNotInExpectedRegion { name: Seq<char>, expected: Seq<char>, address: u16 },
    SymbolBeforeBase { symbol: Seq<char>, base: Seq<char> },
    UnsupportedMigrationDirection { current_version: u16, target_version: u16 },
    MissingMigrationStep { from_version: u16, target_version: u16 },
    UnknownFixPatch { dev_type: u8 },
    NotImplemented { feature: Seq<char> },
    ChecksumMismatch { which: Seq<char>, stored: u16, calculated: u16 },
    InvalidSaveState { reason: Seq<char> },
}

impl View for SaveError {
    type V = SaveErrorView;

    open spec fn view(&self) -> SaveErrorView {
        match *self {
            SaveError::SaveTooSmall { min, actual } => SaveErrorView::SaveTooSmall { min, actual },
            SaveError::AddressOutOfBounds { address, len } => SaveErrorView::AddressOutOfBounds {
                address,
                len,
            },
            SaveError::RangeOutOfBounds { range, len } => SaveErrorView::RangeOutOfBounds {
                range,
                len,
            },
            SaveError::InvalidBitIndex { bit } => SaveErrorView::InvalidBitIndex { bit },
            SaveError::InvalidAddressRange { range } => SaveErrorView::InvalidAddressRange {
                range,
            },
            SaveError::SizeMismatch { expected, actual } => SaveErrorView::SizeMismatch {
                expected,
                actual,
            },
            SaveError::SymbolNotFound { name } => SaveErrorView::SymbolNotFound { name: name@ },
            SaveError::SymbolFileDecompressionFailed => SaveErrorView::SymbolFileDecompressionFailed,
            SaveError::SymbolNotInSram { name, address } => SaveErrorView::SymbolNotInSram {
                name: name@,
                address,
            },
            SaveError::SymbolNotInExpectedRegion {
                name,
                expected,
                address,
            } => SaveErrorView::SymbolNotInExpectedRegion {
                name: name@,
                expected: expected@,
                address,
            },
            SaveError::SymbolBeforeBase { symbol, base } => SaveErrorView::SymbolBeforeBase {
                symbol: symbol@,
                base: base@,
            },
            SaveError::UnsupportedMigrationDirection {
                current_version,
                target_version,
            } => SaveErrorView::UnsupportedMigrationDirection { current_version, target_version },
            SaveError::MissingMigrationStep {
                from_version,
                target_version,
            } => SaveErrorView::MissingMigrationStep { from_version, target_version },
            SaveError::UnknownFixPatch { dev_type } => SaveErrorView::UnknownFixPatch { dev_type },
            SaveError::NotImplemented { feature } => SaveErrorView::NotImplemented {
                feature: feature@,
            },
            SaveError::ChecksumMismatch { which, stored, calculated } => {
                SaveErrorView::ChecksumMismatch { which: which@, stored, calculated }
            },
            SaveError::InvalidSaveState { reason } => SaveErrorView::InvalidSaveState {
                reason: reason@,
            },
        }
    }
}

/// A result with its error taken by its view.
pub open spec fn result_view<T>(r: SaveResult<T>) -> Result<T, SaveErrorView> {
    match r {
        Ok(value) => Ok(value),
        Err(e) => Err(e@),
    }
}

} // verus!
