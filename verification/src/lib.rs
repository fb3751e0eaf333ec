//! Editing primitives for cartridge save files: a bounds-checked byte buffer, a
//! symbol table that turns names into buffer offsets, an additive checksum,
//! in-place remapping helpers, and a framework that plans and logs patches.

pub mod byte_laws;
pub mod byte_model;
pub mod checksum;
pub mod cli;
mod error;
pub mod gzip;
pub mod patch_framework;
pub mod remap;
mod save_binary;
pub mod sym_text;
pub mod symbol_database;
pub mod text;
mod types;

pub use checksum::calculate_additive_u16_checksum;
pub use cli::{
    human_log_lines, level_class_name, level_label, outcome_record, render_level,
    render_log_line, should_color, should_print, ColorMode, GameCli, LogRecord, OutcomeRecord,
    PatchOutcome,
};
pub use error::{SaveError, SaveErrorView, SaveResult};
pub use patch_framework::{
    plan_migration_steps, resolve_migration_plan, NoopPatchLogSink, Patch, PatchKind,
    PatchLogEntry, PatchLogLevel, PatchLogSink, PatchMetadata, VecPatchLogSink,
};
pub use remap::{map_bitset, remap_fixed_len_u8_skip_zero, remap_zero_terminated_u8};
pub use save_binary::SaveBinary;
pub use sym_text::Symbol;
pub use symbol_database::SymbolDatabase;
pub use types::{bits_to_bytes, Address, AddressRange, Size};
