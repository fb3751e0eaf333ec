//! What a command-line shell decides about patch logs and outcomes, apart from
//! reading arguments and files and from printing.

use crate::patch_framework::{entry_views, PatchLogEntry, PatchLogLevel};
use vstd::prelude::*;
use vstd::string::StringExecFns;

verus! {

/// The error type of `anyhow`, in which a game reports why it failed. Nothing
/// is known of a value of it.
#[verifier::external_type_specification]
#[verifier::external_body]
pub struct ExAnyhowError(anyhow::Error);

/// Colored output policy.
#[derive(Debug, Clone, Copy, PartialEq, Eq, Structural)]
pub enum ColorMode {
    /// Color where the output is a terminal.
    Auto,
    /// Color always.
    Always,
    /// Color never.
    Never,
}

/// Whether an entry of the given level is shown: a quiet shell shows errors
/// only, and a shell that is not verbose leaves out informational entries.
pub open spec fn spec_should_print(level: PatchLogLevel, quiet: bool, verbose: u8) -> bool {
    if quiet {
        level == PatchLogLevel::Error
    } else {
        verbose > 0 || level != PatchLogLevel::Info
    }
}

/// Whether an entry of the given level is printed.
pub fn should_print(level: PatchLogLevel, quiet: bool, verbose: u8) -> (r: bool)
    ensures
        r == spec_should_print(level, quiet, verbose),
{
    if quiet {
        return level == PatchLogLevel::Error;
    }
    if verbose == 0 {
        match level {
            PatchLogLevel::Info => false,
            PatchLogLevel::Warning => true,
            PatchLogLevel::Error => true,
        }
    } else {
        true
    }
}

/// Whether output is colored: never where the environment asks for no color
/// (`no_color`), else as the mode says, and in automatic mode exactly where
/// the output is a terminal.
pub fn should_color(mode: ColorMode, no_color: bool, is_terminal: bool) -> (r: bool)
    ensures
        r == (!no_color && match mode {
            ColorMode::Always => true,
            ColorMode::Never => false,
            ColorMode::Auto => is_terminal,
        }),
{
    if no_color {
        return false;
    }
    match mode {
        ColorMode::Always => true,
        ColorMode::Never => false,
        ColorMode::Auto => is_terminal,
    }
}

/// The name of a level in structured output.
pub open spec fn spec_level_label(level: PatchLogLevel) -> Seq<char> {
    match level {
        PatchLogLevel::Info => "info"@,
        PatchLogLevel::Warning => "warn"@,
        PatchLogLevel::Error => "error"@,
    }
}

/// The name of a level in human output: its label, wrapped in the escape
/// sequences of its color where `color` holds (grey, yellow, red).
pub open spec fn spec_render_level(level: PatchLogLevel, color: bool) -> Seq<char> {
    if color {
        match level {
            PatchLogLevel::Info => "\x1b[90minfo\x1b[0m"@,
            PatchLogLevel::Warning => "\x1b[33mwarn\x1b[0m"@,
            PatchLogLevel::Error => "\x1b[31merror\x1b[0m"@,
        }
    } else {
        spec_level_label(level)
    }
}

/// The name of a level in structured output: `info`, `warn` or `error`.
pub fn level_label(level: PatchLogLevel) -> (label: &'static str)
    ensures
        label@ == spec_level_label(level),
{
    match level {
        PatchLogLevel::Info => "info",
        PatchLogLevel::Warning => "warn",
        PatchLogLevel::Error => "error",
    }
}

/// The style class of a level in a web page.
pub fn level_class_name(level: PatchLogLevel) -> (class_name: &'static str)
    ensures
        class_name@ == match level {
            PatchLogLevel::Info => "gb-save-log gb-save-log--info"@,
            PatchLogLevel::Warning => "gb-save-log gb-save-log--warn"@,
            PatchLogLevel::Error => "gb-save-log gb-save-log--error"@,
        },
{
    match level {
        PatchLogLevel::Info => "gb-save-log gb-save-log--info",
        PatchLogLevel::Warning => "gb-save-log gb-save-log--warn",
        PatchLogLevel::Error => "gb-save-log gb-save-log--error",
    }
}

/// The name of a level in human output.
pub fn render_level(level: PatchLogLevel, color: bool) -> (text: &'static str)
    ensures
        text@ == spec_render_level(level, color),
{
    match level {
        PatchLogLevel::Info => if color {
            "\x1b[90minfo\x1b[0m"
        } else {
            "info"
        },
        PatchLogLevel::Warning => if color {
            "\x1b[33mwarn\x1b[0m"
        } else {
            "warn"
        },
        PatchLogLevel::Error => if color {
            "\x1b[31merror\x1b[0m"
        } else {
            "error"
        },
    }
}

/// The line that human output shows for an entry: `[level] source: message`.
pub open spec fn spec_log_line(level: Seq<char>, source: Seq<char>, message: Seq<char>) -> Seq<
    char,
> {
    "["@ + level + "] "@ + source + ": "@ + message
}

/// The line that human output shows for `entry`.
pub fn render_log_line(entry: &PatchLogEntry, color: bool) -> (line: String)
    ensures
        line@ == spec_log_line(
            spec_render_level(entry.level, color),
            entry.source@,
            entry.message@,
        ),
{
    let mut line = String::from_str("[");
    line.append(render_level(entry.level, color));
    line.append("] ");
    line.append(entry.source);
    line.append(": ");
    line.append(entry.message.as_str());
    line
}

/// The lines of the entries of `logs` that are shown, in order.
pub open spec fn spec_human_log_lines(
    logs: Seq<PatchLogEntry>,
    quiet: bool,
    verbose: u8,
    color: bool,
) -> Seq<Seq<char>>
    decreases logs.len(),
{
    if logs.len() == 0 {
        Seq::empty()
    } else {
        let before = spec_human_log_lines(logs.drop_last(), quiet, verbose, color);
        let entry = logs.last();
        if spec_should_print(entry.level, quiet, verbose) {
            before.push(
                spec_log_line(spec_render_level(entry.level, color), entry.source@, entry.message@),
            )
        } else {
            before
        }
    }
}

/// The lines that human output shows for `logs`: one for each entry that is
/// to be printed, in order.
pub fn human_log_lines(logs: &[PatchLogEntry], quiet: bool, verbose: u8, color: bool) -> (lines:
    Vec<String>)
    ensures
        lines@.len() == spec_human_log_lines(logs@, quiet, verbose, color).len(),
        forall|k: int|
            0 <= k < lines@.len() ==> (#[trigger] lines@[k])@ == spec_human_log_lines(
                logs@,
                quiet,
                verbose,
                color,
            )[k],
{
    let mut lines: Vec<String> = Vec::new();
    let mut i: usize = 0;
    while i < logs.len()
        invariant
            i <= logs@.len(),
            lines@.len() == spec_human_log_lines(
                logs@.subrange(0, i as int),
                quiet,
                verbose,
                color,
            ).len(),
            forall|k: int|
                0 <= k < lines@.len() ==> (#[trigger] lines@[k])@ == spec_human_log_lines(
                    logs@.subrange(0, i as int),
                    quiet,
                    verbose,
                    color,
                )[k],
        decreases logs@.len() - i,
    {
        proof {
            assert(logs@.subrange(0, i + 1).drop_last() =~= logs@.subrange(0, i as int));
        }
        if should_print(logs[i].level, quiet, verbose) {
            lines.push(render_log_line(&logs[i], color));
        }
        i += 1;
    }
    proof {
        assert(logs@.subrange(0, i as int) =~= logs@);
    }
    lines
}

/// Result of a patch operation.
#[derive(Debug)]
pub struct PatchOutcome {
    /// Whether the patch succeeded.
    pub ok: bool,
    /// Patched save bytes, if patching succeeded.
    pub bytes: Option<Vec<u8>>,
    /// Human-readable error message, if patching failed.
    pub error: Option<String>,
    /// Structured logs emitted during patching.
    pub logs: Vec<PatchLogEntry>,
}

impl Clone for PatchOutcome {
    /// An outcome of its own that says the same.
    fn clone(&self) -> (copy: PatchOutcome)
        ensures
            copy.ok == self.ok,
            match self.bytes {
                Some(bytes) => copy.bytes matches Some(copied) && copied@ == bytes@,
                None => copy.bytes is None,
            },
            match self.error {
                Some(message) => copy.error matches Some(copied) && copied@ == message@,
                None => copy.error is None,
            },
            entry_views(copy.logs@) == entry_views(self.logs@),
    {
        let bytes = match &self.bytes {
            Some(bytes) => {
                let mut copied: Vec<u8> = Vec::new();
                let mut i: usize = 0;
                while i < bytes.len()
                    invariant
                        i <= bytes@.len(),
                        copied@ == bytes@.subrange(0, i as int),
                    decreases bytes@.len() - i,
                {
                    copied.push(bytes[i]);
                    i += 1;
                }
                assert(copied@ =~= bytes@);
                Some(copied)
            },
            None => None,
        };
        let error = match &self.error {
            Some(message) => Some(message.clone()),
            None => None,
        };
        let mut logs: Vec<PatchLogEntry> = Vec::new();
        let mut k: usize = 0;
        while k < self.logs.len()
            invariant
                k <= self.logs@.len(),
                logs@.len() == k,
                forall|n: int| 0 <= n < k ==> (#[trigger] logs@[n])@ == self.logs@[n]@,
            decreases self.logs@.len() - k,
        {
            logs.push(self.logs[k].clone());
            k += 1;
        }
        assert(entry_views(logs@) =~= entry_views(self.logs@));
        PatchOutcome { ok: self.ok, bytes, error, logs }
    }
}

impl PatchOutcome {
    /// The outcome of a patch that gave `bytes` and logged nothing.
    pub fn success(bytes: Vec<u8>) -> (outcome: PatchOutcome)
        ensures
            outcome.ok,
            outcome.bytes == Some(bytes),
            outcome.error is None,
            outcome.logs@.len() == 0,
    {
        PatchOutcome { ok: true, bytes: Some(bytes), error: None, logs: Vec::new() }
    }

    /// The outcome of a patch that failed with `message` and logged nothing.
    pub fn failure(message: String) -> (outcome: PatchOutcome)
        ensures
            !outcome.ok,
            outcome.bytes is None,
            outcome.error == Some(message),
            outcome.logs@.len() == 0,
    {
        PatchOutcome { ok: false, bytes: None, error: Some(message), logs: Vec::new() }
    }
}

/// One log entry as structured output shows it.
#[derive(Debug)]
pub struct LogRecord {
    /// The label of the entry's level.
    pub level: &'static str,
    /// Where the entry came from.
    pub source: &'static str,
    /// The entry's message.
    pub message: String,
}

/// A patch outcome as structured output shows it: the bytes are left out and
/// only their number is given.
#[derive(Debug)]
pub struct OutcomeRecord {
    /// Whether the patch succeeded.
    pub ok: bool,
    /// Every log entry, in order, whatever its level.
    pub logs: Vec<LogRecord>,
    /// The number of patched bytes, where there are any.
    pub bytes_len: Option<usize>,
    /// The error message, where there is one.
    pub error: Option<String>,
}

/// Whether `record` shows `entry`.
pub open spec fn shows_entry(record: LogRecord, entry: PatchLogEntry) -> bool {
    &&& record.level@ == spec_level_label(entry.level)
    &&& record.source == entry.source
    &&& record.message@ == entry.message@
}

/// What structured output shows of `outcome`.
pub fn outcome_record(outcome: &PatchOutcome) -> (record: OutcomeRecord)
    ensures
        record.ok == outcome.ok,
        record.logs@.len() == outcome.logs@.len(),
        forall|k: int|
            0 <= k < outcome.logs@.len() ==> shows_entry(#[trigger] record.logs@[k], outcome.logs@[k]),
        match outcome.bytes {
            Some(bytes) => record.bytes_len == Some(bytes@.len() as usize),
            None => record.bytes_len is None,
        },
        match outcome.error {
            Some(message) => record.error matches Some(shown) && shown@ == message@,
            None => record.error is None,
        },
{
    let mut logs: Vec<LogRecord> = Vec::new();
    let mut i: usize = 0;
    while i < outcome.logs.len()
        invariant
            i <= outcome.logs@.len(),
            logs@.len() == i,
            forall|k: int| 0 <= k < i ==> shows_entry(#[trigger] logs@[k], outcome.logs@[k]),
        decreases outcome.logs@.len() - i,
    {
        let entry = &outcome.logs[i];
        logs.push(
            LogRecord {
                level: level_label(entry.level),
                source: entry.source,
                message: entry.message.clone(),
            },
        );
        i += 1;
    }
    let bytes_len = match &outcome.bytes {
        Some(bytes) => Some(bytes.len()),
        None => None,
    };
    let error = match &outcome.error {
        Some(message) => Some(message.clone()),
        None => None,
    };
    OutcomeRecord { ok: outcome.ok, logs, bytes_len, error }
}

/// The message of an `anyhow::Error`, as `to_string` gives it through the
/// error's `Display`. Nothing is claimed of the text.
#[verifier::external_body]
fn error_message(error: &anyhow::Error) -> String {
    error.to_string()
}

/// Game-specific glue for the generic CLI.
///
/// A game crate implements this trait and hands it to the shell.
pub trait GameCli {
    /// Detects the save version from raw bytes.
    fn detect_version(bytes: &[u8]) -> Result<u16, anyhow::Error>;

    /// Applies either a migration (`dev_type == 0`) or a fix patch (`dev_type != 0`).
    fn patch(bytes: Vec<u8>, target: u16, dev_type: u8) -> Result<Vec<u8>, anyhow::Error>;

    /// Applies a patch and returns a structured outcome.
    ///
    /// The default implementation calls [`GameCli::patch`] and returns an
    /// outcome with no logs: its bytes where the patch succeeded, else the
    /// message of its error.
    fn patch_with_log(bytes: Vec<u8>, target: u16, dev_type: u8) -> (outcome: PatchOutcome)
        default_ensures
            outcome.ok <==> outcome.bytes is Some,
            outcome.ok <==> outcome.error is None,
            outcome.logs@.len() == 0,
            outcome.ok ==> call_ensures(
                Self::patch,
                (bytes, target, dev_type),
                Ok::<Vec<u8>, anyhow::Error>(outcome.bytes->0),
            ),
            !outcome.ok ==> exists|e: anyhow::Error|
                call_ensures(
                    Self::patch,
                    (bytes, target, dev_type),
                    Err::<Vec<u8>, anyhow::Error>(e),
                ),
    {
        match Self::patch(bytes, target, dev_type) {
            Ok(bytes) => PatchOutcome::success(bytes),
            Err(e) => PatchOutcome::failure(error_message(&e)),
        }
    }
}

} // verus!
