use crate::error::{result_view, SaveError, SaveErrorView, SaveResult};
use crate::save_binary::SaveBinary;
use crate::sym_text::Symbol;
use crate::symbol_database::SymbolDatabase;
use vstd::prelude::*;

verus! {

/// Severity level for patch log output.
#[derive(Debug, Clone, Copy, PartialEq, Eq, Structural, Hash)]
pub enum PatchLogLevel {
    /// Informational message.
    Info,
    /// Warning indicating a recoverable issue or unexpected state.
    Warning,
    /// Error indicating patching cannot safely proceed.
    Error,
}

/// A structured log entry emitted during patching.
#[derive(Debug, PartialEq, Eq, Hash)]
pub struct PatchLogEntry {
    /// The severity of the log entry.
    pub level: PatchLogLevel,
    /// A stable identifier for where the log came from (e.g. a patch id).
    pub source: &'static str,
    /// Human-readable log message.
    pub message: String,
}

/// What a [`PatchLogEntry`] says, with its texts as sequences of characters.
pub ghost struct PatchLogEntryView {
    pub level: PatchLogLevel,
    pub source: Seq<char>,
    pub message: Seq<char>,
}

impl View for PatchLogEntry {
    type V = PatchLogEntryView;

    open spec fn view(&self) -> PatchLogEntryView {
        PatchLogEntryView { level: self.level, source: self.source@, message: self.message@ }
    }
}

impl Clone for PatchLogEntry {
    /// An entry of its own that says the same.
    fn clone(&self) -> (copy: PatchLogEntry)
        ensures
            copy@ == self@,
    {
        PatchLogEntry { level: self.level, source: self.source, message: self.message.clone() }
    }
}

/// The views of the entries of a log, in order.
pub open spec fn entry_views(entries: Seq<PatchLogEntry>) -> Seq<PatchLogEntryView> {
    entries.map_values(|entry: PatchLogEntry| entry@)
}

impl PatchLogEntry {
    /// Creates an informational log entry.
    pub fn info<M: Into<String>>(source: &'static str, message: M) -> (entry: PatchLogEntry)
        ensures
            entry.level == PatchLogLevel::Info,
            entry.source == source,
            call_ensures(M::into, (message,), entry.message),
    {
        PatchLogEntry { level: PatchLogLevel::Info, source, message: message.into() }
    }

    /// Creates a warning log entry.
    pub fn warning<M: Into<String>>(source: &'static str, message: M) -> (entry: PatchLogEntry)
        ensures
            entry.level == PatchLogLevel::Warning,
            entry.source == source,
            call_ensures(M::into, (message,), entry.message),
    {
        PatchLogEntry { level: PatchLogLevel::Warning, source, message: message.into() }
    }

    /// Creates an error log entry.
    pub fn error<M: Into<String>>(source: &'static str, message: M) -> (entry: PatchLogEntry)
        ensures
            entry.level == PatchLogLevel::Error,
            entry.source == source,
            call_ensures(M::into, (message,), entry.message),
    {
        PatchLogEntry { level: PatchLogLevel::Error, source, message: message.into() }
    }

    /// Creates an entry whose message is a copy of `message`.
    pub fn with_text(level: PatchLogLevel, source: &'static str, message: &str) -> (entry:
        PatchLogEntry)
        ensures
            entry@ == (PatchLogEntryView { level, source: source@, message: message@ }),
    {
        PatchLogEntry { level, source, message: message.to_owned() }
    }
}

/// Collects patch log entries during patch application.
///
/// A sink says in [`PatchLogSink::recorded`] which entries it holds and in
/// [`PatchLogSink::push_effect`] what an entry does to them. A sink that says
/// neither is held to nothing.
pub trait PatchLogSink {
    /// The entries that the sink holds, in the order in which it took them.
    /// A sink that does not say holds none that anyone is told of.
    open spec fn recorded(&self) -> Seq<PatchLogEntryView> {
        Seq::empty()
    }

    /// Whether the sink, as it is, may hold `after` once it was given
    /// `entry`. A sink that does not say may do anything.
    open spec fn push_effect(
        &self,
        entry: PatchLogEntryView,
        after: Seq<PatchLogEntryView>,
    ) -> bool {
        true
    }

    /// Records a log entry.
    fn push(&mut self, entry: PatchLogEntry)
        ensures
            old(self).push_effect(entry@, final(self).recorded()),
    ;

    /// Convenience helper for emitting an info entry: the sink is given the
    /// entry of level `Info` with this source and message.
    fn info(&mut self, source: &'static str, message: &str)
        ensures
            old(self).push_effect(
                PatchLogEntryView { level: PatchLogLevel::Info, source: source@, message: message@ },
                final(self).recorded(),
            ),
    {
        self.push(PatchLogEntry::with_text(PatchLogLevel::Info, source, message));
    }

    /// Convenience helper for emitting a warning entry: the sink is given the
    /// entry of level `Warning` with this source and message.
    fn warn(&mut self, source: &'static str, message: &str)
        ensures
            old(self).push_effect(
                PatchLogEntryView {
                    level: PatchLogLevel::Warning,
                    source: source@,
                    message: message@,
                },
                final(self).recorded(),
            ),
    {
        self.push(PatchLogEntry::with_text(PatchLogLevel::Warning, source, message));
    }

    /// Convenience helper for emitting an error entry: the sink is given the
    /// entry of level `Error` with this source and message.
    fn error(&mut self, source: &'static str, message: &str)
        ensures
            old(self).push_effect(
                PatchLogEntryView {
                    level: PatchLogLevel::Error,
                    source: source@,
                    message: message@,
                },
                final(self).recorded(),
            ),
    {
        self.push(PatchLogEntry::with_text(PatchLogLevel::Error, source, message));
    }
}

/// A log sink that discards all entries.
#[derive(Debug)]
pub struct NoopPatchLogSink;

impl PatchLogSink for NoopPatchLogSink {
    /// Whatever it is given, the sink holds nothing afterwards.
    open spec fn push_effect(
        &self,
        entry: PatchLogEntryView,
        after: Seq<PatchLogEntryView>,
    ) -> bool {
        after == Seq::<PatchLogEntryView>::empty()
    }

    fn push(&mut self, _entry: PatchLogEntry) {
    }
}

impl Default for NoopPatchLogSink {
    fn default() -> NoopPatchLogSink {
        NoopPatchLogSink
    }
}

/// A log sink that stores entries in a `Vec`.
#[derive(Debug)]
pub struct VecPatchLogSink {
    entries: Vec<PatchLogEntry>,
}

impl View for VecPatchLogSink {
    type V = Seq<PatchLogEntryView>;

    closed spec fn view(&self) -> Seq<PatchLogEntryView> {
        entry_views(self.entries@)
    }
}

impl VecPatchLogSink {
    /// Creates an empty in-memory log sink.
    pub fn new() -> (sink: VecPatchLogSink)
        ensures
            sink@ == Seq::<PatchLogEntryView>::empty(),
    {
        let sink = VecPatchLogSink { entries: Vec::new() };
        assert(sink@ =~= Seq::<PatchLogEntryView>::empty());
        sink
    }

    /// Consumes the sink and returns all collected entries.
    pub fn into_entries(self) -> (entries: Vec<PatchLogEntry>)
        ensures
            entry_views(entries@) == self@,
    {
        self.entries
    }
}

impl Default for VecPatchLogSink {
    fn default() -> (sink: VecPatchLogSink)
        ensures
            sink@ == Seq::<PatchLogEntryView>::empty(),
    {
        VecPatchLogSink::new()
    }
}

impl PatchLogSink for VecPatchLogSink {
    open spec fn recorded(&self) -> Seq<PatchLogEntryView> {
        self@
    }

    /// The sink holds afterwards what it held, and `entry` behind it.
    open spec fn push_effect(
        &self,
        entry: PatchLogEntryView,
        after: Seq<PatchLogEntryView>,
    ) -> bool {
        after == self@.push(entry)
    }

    /// Appends `entry` to the entries held.
    fn push(&mut self, entry: PatchLogEntry)
        ensures
            final(self)@ == old(self)@.push(entry@),
    {
        let ghost before = self.entries@;
        self.entries.push(entry);
        assert(entry_views(self.entries@) =~= entry_views(before).push(entry@));
    }

    /// Appends an info entry with the given source and message.
    fn info(&mut self, source: &'static str, message: &str)
        ensures
            final(self)@ == old(self)@.push(
                PatchLogEntryView { level: PatchLogLevel::Info, source: source@, message: message@ },
            ),
    {
        self.push(PatchLogEntry::with_text(PatchLogLevel::Info, source, message));
    }

    /// Appends a warning entry with the given source and message.
    fn warn(&mut self, source: &'static str, message: &str)
        ensures
            final(self)@ == old(self)@.push(
                PatchLogEntryView {
                    level: PatchLogLevel::Warning,
                    source: source@,
                    message: message@,
                },
            ),
    {
        self.push(PatchLogEntry::with_text(PatchLogLevel::Warning, source, message));
    }

    /// Appends an error entry with the given source and message.
    fn error(&mut self, source: &'static str, message: &str)
        ensures
            final(self)@ == old(self)@.push(
                PatchLogEntryView {
                    level: PatchLogLevel::Error,
                    source: source@,
                    message: message@,
                },
            ),
    {
        self.push(PatchLogEntry::with_text(PatchLogLevel::Error, source, message));
    }
}

#[derive(Debug, Clone, Copy, PartialEq, Eq, Structural, Hash)]
/// Describes whether a patch is a migration or a non-migrating fix.
pub enum PatchKind {
    /// A patch that converts a save from one version to a newer one.
    Migration,
    /// A patch that repairs a save without changing its version.
    Fix,
}

#[derive(Debug, Clone, Copy, PartialEq, Eq, Hash)]
/// Metadata used to identify and plan patches.
pub struct PatchMetadata {
    /// Stable identifier for logs and debugging.
    pub id: &'static str,
    /// Whether the patch is a migration or a fix.
    pub kind: PatchKind,
    /// Source version (for migrations).
    pub from_version: Option<u16>,
    /// Destination version (for migrations).
    pub to_version: Option<u16>,
}

/// A patch that can be applied to a save buffer.
///
/// Implementations should be deterministic and only mutate the provided `SaveBinary`.
/// A patch says in [`Patch::apply_effect`] what it does to a buffer; one that
/// does not say is held to nothing.
pub trait Patch: std::fmt::Debug + Send + Sync {
    /// Whether applying the patch to the bytes `before`, with the symbols
    /// `symbols`, may leave the bytes `after` and return `result`. A patch
    /// that does not say may do anything.
    open spec fn apply_effect(
        &self,
        before: Seq<u8>,
        symbols: Map<Seq<char>, Symbol>,
        after: Seq<u8>,
        result: Result<(), SaveErrorView>,
    ) -> bool {
        true
    }

    /// Returns this patch's metadata.
    fn metadata(&self) -> PatchMetadata;

    /// Applies the patch.
    ///
    /// # Errors
    /// Returns an error if the save is invalid, too small, or cannot be patched safely.
    fn apply(&self, save: &mut SaveBinary, symbols: &SymbolDatabase) -> (r: SaveResult<()>)
        ensures
            self.apply_effect(old(save)@, symbols@, final(save)@, result_view(r)),
    ;

    /// Applies the patch, emitting structured log entries.
    ///
    /// By default, this delegates to [`Patch::apply`] and emits no logs: the
    /// buffer and the result are what `apply` may give, and the sink holds
    /// what it held.
    fn apply_with_log(
        &self,
        save: &mut SaveBinary,
        symbols: &SymbolDatabase,
        log: &mut dyn PatchLogSink,
    ) -> (r: SaveResult<()>)
        default_ensures
            self.apply_effect(old(save)@, symbols@, final(save)@, result_view(r)),
            final(log).recorded() == old(log).recorded(),
    {
        self.apply(save, symbols)
    }
}

/// Whether `meta` describes a migration that leads from `version` to a later one.
pub open spec fn is_step_from(meta: PatchMetadata, version: u16) -> bool {
    &&& meta.kind == PatchKind::Migration
    &&& meta.from_version == Some(version)
    &&& meta.to_version is Some
    &&& meta.to_version->0 > version
}

/// The first index from `from` on whose metadata is a step from `version`.
pub open spec fn first_step(metas: Seq<PatchMetadata>, version: u16, from: int) -> Option<int>
    decreases metas.len() - from,
{
    if from < 0 || from >= metas.len() {
        None
    } else if is_step_from(metas[from], version) {
        Some(from)
    } else {
        first_step(metas, version, from + 1)
    }
}

/// The indices of the steps that lead from `version` to `target`: none where
/// the two are equal, else the first step from `version` and then the steps
/// from where it leads. Where a version is reached that is not the target and
/// has no step, the plan fails and names that version.
pub open spec fn plan_from(metas: Seq<PatchMetadata>, version: u16, target: u16) -> SaveResult<
    Seq<int>,
>
    decreases 0x1_0000 - version,
{
    if version == target {
        Ok(Seq::empty())
    } else {
        match first_step(metas, version, 0) {
            None => Err(
                SaveError::MissingMigrationStep { from_version: version, target_version: target },
            ),
            Some(i) => if is_step_from(metas[i], version) {
                match plan_from(metas, metas[i].to_version->0, target) {
                    Ok(rest) => Ok(seq![i] + rest),
                    Err(e) => Err(e),
                }
            } else {
                Err(
                    SaveError::MissingMigrationStep {
                        from_version: version,
                        target_version: target,
                    },
                )
            },
        }
    }
}

/// The plan that leads from `current` to `target` over the candidates whose
/// metadata is `metas`, as indices into them. A target below the current
/// version is refused before any candidate is looked at.
pub open spec fn migration_plan(metas: Seq<PatchMetadata>, current: u16, target: u16) -> SaveResult<
    Seq<int>,
> {
    if current > target {
        Err(
            SaveError::UnsupportedMigrationDirection {
                current_version: current,
                target_version: target,
            },
        )
    } else {
        plan_from(metas, current, target)
    }
}

/// Whether `metas` holds, for each candidate in order, a metadata that the
/// candidate may give.
pub open spec fn metadata_given<P: Patch + ?Sized>(
    migrations: Seq<&'static P>,
    metas: Seq<PatchMetadata>,
) -> bool {
    &&& metas.len() == migrations.len()
    &&& forall|i: int|
        0 <= i < migrations.len() ==> call_ensures(P::metadata, (migrations[i],), #[trigger] metas[i])
}

fn is_step(meta: &PatchMetadata, version: u16) -> (r: bool)
    ensures
        r == is_step_from(*meta, version),
{
    let from_matches = match meta.from_version {
        Some(from) => from == version,
        None => false,
    };
    let leads_on = match meta.to_version {
        Some(to) => to > version,
        None => false,
    };
    meta.kind == PatchKind::Migration && from_matches && leads_on
}

fn find_step(metas: &[PatchMetadata], version: u16) -> (r: Option<usize>)
    ensures
        match first_step(metas@, version, 0) {
            Some(i) => r == Some(i as usize) && 0 <= i < metas@.len() && is_step_from(
                metas@[i],
                version,
            ),
            None => r is None,
        },
{
    let mut i: usize = 0;
    while i < metas.len()
        invariant
            i <= metas@.len(),
            first_step(metas@, version, 0) == first_step(metas@, version, i as int),
        decreases metas@.len() - i,
    {
        if is_step(&metas[i], version) {
            return Some(i);
        }
        i += 1;
    }
    None
}

/// Resolves the migration steps over the metadata of the candidates: the
/// indices of the candidates to apply, in order.
pub fn plan_migration_steps(metas: &[PatchMetadata], current_version: u16, target_version: u16) -> (r:
    SaveResult<Vec<usize>>)
    ensures
        match migration_plan(metas@, current_version, target_version) {
            Ok(steps) => r matches Ok(found) && found@.len() == steps.len() && forall|k: int|
                0 <= k < steps.len() ==> found@[k] == steps[k],
            Err(e) => r matches Err(got) && got == e,
        },
{
    if current_version == target_version {
        return Ok(Vec::new());
    }
    if current_version > target_version {
        return Err(
            SaveError::UnsupportedMigrationDirection { current_version, target_version },
        );
    }
    let ghost whole = plan_from(metas@, current_version, target_version);
    let ghost mut taken: Seq<int> = Seq::empty();
    let mut steps: Vec<usize> = Vec::new();
    let mut version: u16 = current_version;
    while version != target_version
        invariant
            whole == migration_plan(metas@, current_version, target_version),
            steps@.len() == taken.len(),
            forall|k: int| 0 <= k < taken.len() ==> steps@[k] == taken[k],
            whole == match plan_from(metas@, version, target_version) {
                Ok(rest) => Ok::<Seq<int>, SaveError>(taken + rest),
                Err(e) => Err(e),
            },
        decreases 0x1_0000 - version,
    {
        let found = match find_step(metas, version) {
            Some(found) => found,
            None => {
                return Err(
                    SaveError::MissingMigrationStep { from_version: version, target_version },
                );
            },
        };
        let next = match metas[found].to_version {
            Some(to) => to,
            None => {
                return Err(
                    SaveError::MissingMigrationStep { from_version: version, target_version },
                );
            },
        };
        proof {
            let after = plan_from(metas@, next, target_version);
            if after is Ok {
                assert(taken + (seq![found as int] + after->Ok_0) =~= taken.push(found as int)
                    + after->Ok_0);
            }
            taken = taken.push(found as int);
        }
        steps.push(found);
        version = next;
    }
    proof {
        assert(taken + Seq::<int>::empty() =~= taken);
    }
    Ok(steps)
}

/// Resolves a sequence of migration patches required to reach `target_version`.
///
/// The plan is built by repeatedly finding a migration patch whose `from_version` matches the
/// current step and whose `to_version` is greater than `from_version`.
///
/// Every candidate is asked for its metadata once; the result is the plan
/// that [`migration_plan`] gives over what they answered.
///
/// # Errors
/// Returns an error if the requested direction is unsupported or if a required step is missing.
pub fn resolve_migration_plan<P: Patch + ?Sized>(
    migrations: &[&'static P],
    current_version: u16,
    target_version: u16,
) -> (r: SaveResult<Vec<&'static P>>)
    ensures
        exists|metas: Seq<PatchMetadata>|
            metadata_given(migrations@, metas) && match migration_plan(
                metas,
                current_version,
                target_version,
            ) {
                Ok(steps) => r matches Ok(plan) && plan@.len() == steps.len() && forall|k: int|
                    0 <= k < steps.len() ==> 0 <= steps[k] < migrations@.len() && plan@[k]
                        == migrations@[steps[k]],
                Err(e) => r matches Err(got) && got == e,
            },
{
    let mut metas: Vec<PatchMetadata> = Vec::new();
    let mut i: usize = 0;
    while i < migrations.len()
        invariant
            i <= migrations@.len(),
            metas@.len() == i,
            forall|k: int|
                0 <= k < i ==> call_ensures(P::metadata, (migrations@[k],), #[trigger] metas@[k]),
        decreases migrations@.len() - i,
    {
        metas.push(migrations[i].metadata());
        i += 1;
    }
    assert(metadata_given(migrations@, metas@));
    let steps = match plan_migration_steps(metas.as_slice(), current_version, target_version) {
        Ok(steps) => steps,
        Err(e) => {
            return Err(e);
        },
    };
    let ghost indices = migration_plan(metas@, current_version, target_version)->Ok_0;
    proof {
        lemma_plan_indices_in_range(metas@, current_version, target_version);
    }
    let mut plan: Vec<&'static P> = Vec::new();
    let mut k: usize = 0;
    while k < steps.len()
        invariant
            k <= steps@.len(),
            plan@.len() == k,
            steps@.len() == indices.len(),
            forall|n: int| 0 <= n < indices.len() ==> steps@[n] == indices[n],
            forall|n: int| 0 <= n < indices.len() ==> 0 <= #[trigger] indices[n] < migrations@.len(),
            forall|n: int| 0 <= n < k ==> plan@[n] == migrations@[indices[n]],
            metas@.len() == migrations@.len(),
        decreases steps@.len() - k,
    {
        assert(0 <= indices[k as int] < migrations@.len());
        plan.push(migrations[steps[k]]);
        k += 1;
    }
    Ok(plan)
}

/// A step that is found is found at an index of the candidates, and is a step.
pub proof fn lemma_first_step(metas: Seq<PatchMetadata>, version: u16, from: int)
    requires
        0 <= from,
    ensures
        match first_step(metas, version, from) {
            Some(i) => from <= i < metas.len() && is_step_from(metas[i], version) && forall|k: int|
                from <= k < i ==> !is_step_from(#[trigger] metas[k], version),
            None => forall|k: int|
                from <= k < metas.len() ==> !is_step_from(#[trigger] metas[k], version),
        },
    decreases metas.len() - from,
{
    if from < metas.len() && !is_step_from(metas[from], version) {
        lemma_first_step(metas, version, from + 1);
    }
}

/// Every index of a plan is an index of the candidates.
pub proof fn lemma_plan_indices_in_range(metas: Seq<PatchMetadata>, current: u16, target: u16)
    ensures
        migration_plan(metas, current, target) matches Ok(steps) ==> forall|k: int|
            0 <= k < steps.len() ==> 0 <= #[trigger] steps[k] < metas.len(),
{
    if current <= target {
        lemma_plan_from_is_chain(metas, current, target);
    }
}

/// Whether `steps` leads from version `from` to version `to`: each of its
/// indices is the first candidate that is a step from the version reached so
/// far, and the last one leads to `to`.
pub open spec fn is_chain(metas: Seq<PatchMetadata>, steps: Seq<int>, from: u16, to: u16) -> bool
    decreases steps.len(),
{
    if steps.len() == 0 {
        from == to
    } else {
        &&& 0 <= steps[0] < metas.len()
        &&& is_step_from(metas[steps[0]], from)
        &&& first_step(metas, from, 0) == Some(steps[0])
        &&& is_chain(metas, steps.drop_first(), metas[steps[0]].to_version->0, to)
    }
}

/// A plan is a chain from the version it starts at to the target: every step
/// is a migration that starts at the version reached before it, and the last
/// one reaches the target. Candidates that are no migrations never stand in it.
pub proof fn lemma_plan_from_is_chain(metas: Seq<PatchMetadata>, version: u16, target: u16)
    ensures
        plan_from(metas, version, target) matches Ok(steps) ==> is_chain(
            metas,
            steps,
            version,
            target,
        ) && forall|k: int|
            0 <= k < steps.len() ==> 0 <= #[trigger] steps[k] < metas.len() && metas[steps[k]].kind
                == PatchKind::Migration,
    decreases 0x1_0000 - version,
{
    if version != target {
        lemma_first_step(metas, version, 0);
        match first_step(metas, version, 0) {
            Some(i) => {
                let next = metas[i].to_version->0;
                lemma_plan_from_is_chain(metas, next, target);
                if plan_from(metas, next, target) is Ok {
                    let rest = plan_from(metas, next, target)->Ok_0;
                    let steps = seq![i] + rest;
                    assert(steps.drop_first() =~= rest);
                    assert forall|k: int| 0 <= k < steps.len() implies 0 <= #[trigger] steps[k]
                        < metas.len() && metas[steps[k]].kind == PatchKind::Migration by {
                        if k > 0 {
                            assert(steps[k] == rest[k - 1]);
                        }
                    }
                }
            },
            None => {},
        }
    }
}

/// Between equal versions the plan is empty, whatever the candidates are.
pub proof fn lemma_plan_same_version(metas: Seq<PatchMetadata>, version: u16)
    ensures
        migration_plan(metas, version, version) == Ok::<Seq<int>, SaveError>(Seq::empty()),
{
}

/// Towards an earlier version there is no plan, whatever the candidates are.
pub proof fn lemma_plan_no_downgrade(metas: Seq<PatchMetadata>, current: u16, target: u16)
    requires
        current > target,
    ensures
        migration_plan(metas, current, target) == Err::<Seq<int>, SaveError>(
            SaveError::UnsupportedMigrationDirection {
                current_version: current,
                target_version: target,
            },
        ),
{
}

/// A plan that fails for want of a step names the target it was asked for and
/// a version that is not the target and from which no candidate leads on.
pub proof fn lemma_plan_missing_step(metas: Seq<PatchMetadata>, current: u16, target: u16)
    requires
        current <= target,
    ensures
        match migration_plan(metas, current, target) {
            Ok(_) => true,
            Err(e) => e matches SaveError::MissingMigrationStep { from_version, target_version }
                && target_version == target && from_version != target && from_version >= current
                && forall|k: int|
                0 <= k < metas.len() ==> !is_step_from(#[trigger] metas[k], from_version),
        },
{
    lemma_plan_from_missing_step(metas, current, target);
}

proof fn lemma_plan_from_missing_step(metas: Seq<PatchMetadata>, version: u16, target: u16)
    ensures
        match plan_from(metas, version, target) {
            Ok(_) => true,
            Err(e) => e matches SaveError::MissingMigrationStep { from_version, target_version }
                && target_version == target && from_version != target && from_version >= version
                && forall|k: int|
                0 <= k < metas.len() ==> !is_step_from(#[trigger] metas[k], from_version),
        },
    decreases 0x1_0000 - version,
{
    if version != target {
        lemma_first_step(metas, version, 0);
        match first_step(metas, version, 0) {
            Some(i) => {
                lemma_plan_from_missing_step(metas, metas[i].to_version->0, target);
            },
            None => {},
        }
    }
}

/// The candidates that are no step from any version on the way, fixes among
/// them, do not change the plan: a plan over the candidates with one more fix
/// at their end is the plan without it.
pub proof fn lemma_plan_ignores_fix(
    metas: Seq<PatchMetadata>,
    fix: PatchMetadata,
    current: u16,
    target: u16,
)
    requires
        fix.kind == PatchKind::Fix,
    ensures
        migration_plan(metas.push(fix), current, target) == migration_plan(metas, current, target),
{
    if current <= target {
        lemma_plan_from_ignores_fix(metas, fix, current, target);
    }
}

proof fn lemma_first_step_ignores_fix(
    metas: Seq<PatchMetadata>,
    fix: PatchMetadata,
    version: u16,
    from: int,
)
    requires
        fix.kind == PatchKind::Fix,
        0 <= from,
    ensures
        first_step(metas.push(fix), version, from) == first_step(metas, version, from),
    decreases metas.len() - from,
{
    if from < metas.len() {
        assert(metas.push(fix)[from] == metas[from]);
        if !is_step_from(metas[from], version) {
            lemma_first_step_ignores_fix(metas, fix, version, from + 1);
        }
    } else if from == metas.len() {
        assert(metas.push(fix)[from] == fix);
        assert(first_step(metas.push(fix), version, from + 1) is None);
    }
}

proof fn lemma_plan_from_ignores_fix(
    metas: Seq<PatchMetadata>,
    fix: PatchMetadata,
    version: u16,
    target: u16,
)
    requires
        fix.kind == PatchKind::Fix,
    ensures
        plan_from(metas.push(fix), version, target) == plan_from(metas, version, target),
    decreases 0x1_0000 - version,
{
    if version != target {
        lemma_first_step_ignores_fix(metas, fix, version, 0);
        lemma_first_step(metas, version, 0);
        match first_step(metas, version, 0) {
            Some(i) => {
                assert(metas.push(fix)[i] == metas[i]);
                lemma_plan_from_ignores_fix(metas, fix, metas[i].to_version->0, target);
            },
            None => {},
        }
    }
}

/// Whether `steps` is a path from version `from` to version `to`: each index
/// names a candidate that is a step from the version reached so far.
pub open spec fn is_path(metas: Seq<PatchMetadata>, steps: Seq<int>, from: u16, to: u16) -> bool
    decreases steps.len(),
{
    if steps.len() == 0 {
        from == to
    } else {
        &&& 0 <= steps[0] < metas.len()
        &&& is_step_from(metas[steps[0]], from)
        &&& is_path(metas, steps.drop_first(), metas[steps[0]].to_version->0, to)
    }
}

/// Whether no version has two candidates that are steps from it.
pub open spec fn steps_unique(metas: Seq<PatchMetadata>) -> bool {
    forall|i: int, j: int, version: u16|
        0 <= i < metas.len() && 0 <= j < metas.len() && is_step_from(metas[i], version)
            && is_step_from(metas[j], version) ==> i == j
}

/// A path leads to a later version, or is empty.
pub proof fn lemma_path_goes_up(metas: Seq<PatchMetadata>, steps: Seq<int>, from: u16, to: u16)
    requires
        is_path(metas, steps, from, to),
    ensures
        steps.len() == 0 ==> from == to,
        steps.len() > 0 ==> from < to,
    decreases steps.len(),
{
    if steps.len() > 0 {
        lemma_path_goes_up(metas, steps.drop_first(), metas[steps[0]].to_version->0, to);
    }
}

/// Where every version has at most one step, the plan is the one path there
/// is: if any path leads from the current version to the target, the plan
/// succeeds and is that path.
pub proof fn lemma_plan_is_the_path(
    metas: Seq<PatchMetadata>,
    steps: Seq<int>,
    current: u16,
    target: u16,
)
    requires
        steps_unique(metas),
        is_path(metas, steps, current, target),
    ensures
        migration_plan(metas, current, target) == Ok::<Seq<int>, SaveError>(steps),
    decreases steps.len(),
{
    lemma_path_goes_up(metas, steps, current, target);
    if steps.len() == 0 {
        assert(steps =~= Seq::<int>::empty());
    } else {
        let next = metas[steps[0]].to_version->0;
        lemma_first_step(metas, current, 0);
        assert(first_step(metas, current, 0) == Some(steps[0]));
        lemma_plan_is_the_path(metas, steps.drop_first(), next, target);
        lemma_path_goes_up(metas, steps.drop_first(), next, target);
        assert(seq![steps[0]] + steps.drop_first() =~= steps);
    }
}

} // verus!
