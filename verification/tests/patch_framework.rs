use gb_save::{
    plan_migration_steps, resolve_migration_plan, NoopPatchLogSink, Patch, PatchKind,
    PatchLogEntry, PatchLogLevel, PatchLogSink, PatchMetadata, SaveBinary, SaveError, SaveResult,
    SymbolDatabase, VecPatchLogSink,
};

#[derive(Debug)]
struct DummyPatch {
    meta: PatchMetadata,
}

impl Patch for DummyPatch {
    fn metadata(&self) -> PatchMetadata {
        self.meta
    }

    fn apply(&self, _save: &mut SaveBinary, _symbols: &SymbolDatabase) -> SaveResult<()> {
        Ok(())
    }
}

fn fix() -> &'static dyn Patch {
    &DummyPatch {
        meta: PatchMetadata { id: "fix", kind: PatchKind::Fix, from_version: None, to_version: None },
    }
}

fn migration(id: &'static str, from: u16, to: u16) -> PatchMetadata {
    PatchMetadata {
        id,
        kind: PatchKind::Migration,
        from_version: Some(from),
        to_version: Some(to),
    }
}

fn m7_to_8() -> &'static dyn Patch {
    &DummyPatch {
        meta: PatchMetadata {
            id: "m7_to_8",
            kind: PatchKind::Migration,
            from_version: Some(7),
            to_version: Some(8),
        },
    }
}

fn m8_to_9() -> &'static dyn Patch {
    &DummyPatch {
        meta: PatchMetadata {
            id: "m8_to_9",
            kind: PatchKind::Migration,
            from_version: Some(8),
            to_version: Some(9),
        },
    }
}

fn m9_to_10() -> &'static dyn Patch {
    &DummyPatch {
        meta: PatchMetadata {
            id: "m9_to_10",
            kind: PatchKind::Migration,
            from_version: Some(9),
            to_version: Some(10),
        },
    }
}

#[test]
fn resolve_plan_returns_empty_when_already_at_target() {
    let migrations: [&'static dyn Patch; 0] = [];
    let plan = resolve_migration_plan(&migrations, 9, 9).unwrap();
    assert!(plan.is_empty());
}

#[test]
fn resolve_plan_errors_when_direction_is_unsupported() {
    let migrations: [&'static dyn Patch; 0] = [];
    let err = resolve_migration_plan(&migrations, 10, 9).unwrap_err();
    match err {
        SaveError::UnsupportedMigrationDirection {
            current_version,
            target_version,
        } => {
            assert_eq!(current_version, 10);
            assert_eq!(target_version, 9);
        }
        other => panic!("unexpected error: {other:?}"),
    }
}

#[test]
fn resolve_plan_errors_when_step_is_missing() {
    let migrations: [&'static dyn Patch; 1] = [m7_to_8()];
    let err = resolve_migration_plan(&migrations, 7, 9).unwrap_err();
    match err {
        SaveError::MissingMigrationStep {
            from_version,
            target_version,
        } => {
            assert_eq!(from_version, 8);
            assert_eq!(target_version, 9);
        }
        other => panic!("unexpected error: {other:?}"),
    }
}

#[test]
fn resolve_plan_returns_sequential_chain_and_ignores_fix_patches() {
    let migrations: [&'static dyn Patch; 4] = [fix(), m7_to_8(), m8_to_9(), m9_to_10()];
    let plan = resolve_migration_plan(&migrations, 7, 10).unwrap();
    let ids: Vec<&'static str> = plan.iter().map(|p| p.metadata().id).collect();
    assert_eq!(ids, vec!["m7_to_8", "m8_to_9", "m9_to_10"]);
}

#[test]
fn plan_steps_are_indices_in_order() {
    let metas = [
        migration("c", 9, 10),
        PatchMetadata { id: "fix", kind: PatchKind::Fix, from_version: Some(7), to_version: Some(8) },
        migration("a", 7, 8),
        migration("b", 8, 9),
    ];
    assert_eq!(plan_migration_steps(&metas, 7, 10).unwrap(), vec![2, 3, 0]);
    assert_eq!(plan_migration_steps(&metas, 8, 9).unwrap(), vec![3]);
    assert_eq!(plan_migration_steps(&metas, 3, 3).unwrap(), Vec::<usize>::new());
}

#[test]
fn plan_takes_the_first_of_two_steps_from_one_version() {
    let metas = [migration("long", 1, 3), migration("short", 1, 2), migration("next", 2, 3)];
    assert_eq!(plan_migration_steps(&metas, 1, 3).unwrap(), vec![0]);
    let metas = [migration("short", 1, 2), migration("long", 1, 3), migration("next", 2, 3)];
    assert_eq!(plan_migration_steps(&metas, 1, 3).unwrap(), vec![0, 2]);
}

#[test]
fn plan_passes_over_candidates_that_are_no_step() {
    let metas = [
        migration("backwards", 5, 4),
        migration("standstill", 5, 5),
        PatchMetadata {
            id: "open",
            kind: PatchKind::Migration,
            from_version: Some(5),
            to_version: None,
        },
        PatchMetadata {
            id: "rootless",
            kind: PatchKind::Migration,
            from_version: None,
            to_version: Some(6),
        },
    ];
    match plan_migration_steps(&metas, 5, 6) {
        Err(SaveError::MissingMigrationStep { from_version, target_version }) => {
            assert_eq!(from_version, 5);
            assert_eq!(target_version, 6);
        }
        other => panic!("unexpected result: {other:?}"),
    }
}

#[test]
fn plan_that_steps_over_the_target_fails_where_it_gets_stuck() {
    let metas = [migration("jump", 7, 12), migration("on", 12, 13)];
    match plan_migration_steps(&metas, 7, 10) {
        Err(SaveError::MissingMigrationStep { from_version, target_version }) => {
            assert_eq!(from_version, 13);
            assert_eq!(target_version, 10);
        }
        other => panic!("unexpected result: {other:?}"),
    }
    match plan_migration_steps(&metas, 8, 7) {
        Err(SaveError::UnsupportedMigrationDirection { current_version, target_version }) => {
            assert_eq!(current_version, 8);
            assert_eq!(target_version, 7);
        }
        other => panic!("unexpected result: {other:?}"),
    }
}

#[test]
fn log_entry_constructors_set_the_level() {
    let entry = PatchLogEntry::info("src", "hello");
    assert_eq!(entry.level, PatchLogLevel::Info);
    assert_eq!(entry.source, "src");
    assert_eq!(entry.message, "hello");
    let entry = PatchLogEntry::warning("src", String::from("careful"));
    assert_eq!(entry.level, PatchLogLevel::Warning);
    assert_eq!(entry.message, "careful");
    let entry = PatchLogEntry::error("src", "broken");
    assert_eq!(entry.level, PatchLogLevel::Error);
    assert_eq!(entry.message, "broken");
    let entry = PatchLogEntry::with_text(PatchLogLevel::Warning, "src", "text");
    assert_eq!(
        entry,
        PatchLogEntry { level: PatchLogLevel::Warning, source: "src", message: "text".to_string() }
    );
}

#[test]
fn vec_sink_keeps_entries_in_order() {
    let mut sink = VecPatchLogSink::new();
    sink.info("a", "one");
    sink.warn("b", "two");
    sink.error("c", "three");
    sink.push(PatchLogEntry::info("d", "four"));
    let entries = sink.into_entries();
    assert_eq!(
        entries,
        vec![
            PatchLogEntry { level: PatchLogLevel::Info, source: "a", message: "one".to_string() },
            PatchLogEntry { level: PatchLogLevel::Warning, source: "b", message: "two".to_string() },
            PatchLogEntry { level: PatchLogLevel::Error, source: "c", message: "three".to_string() },
            PatchLogEntry { level: PatchLogLevel::Info, source: "d", message: "four".to_string() },
        ]
    );
    assert!(VecPatchLogSink::default().into_entries().is_empty());
}

#[test]
fn noop_sink_takes_entries_and_keeps_none() {
    let mut sink = NoopPatchLogSink;
    sink.info("a", "one");
    sink.push(PatchLogEntry::error("b", "two"));
    let mut other = NoopPatchLogSink::default();
    other.warn("c", "three");
}

#[derive(Debug)]
struct BumpVersion;

impl Patch for BumpVersion {
    fn metadata(&self) -> PatchMetadata {
        migration("bump", 1, 2)
    }

    fn apply(&self, save: &mut SaveBinary, _symbols: &SymbolDatabase) -> SaveResult<()> {
        save.write_u16_le(gb_save::Address(0), 2)
    }
}

#[test]
fn apply_with_log_defaults_to_apply_and_logs_nothing() {
    let mut save = SaveBinary::new(vec![1, 0]);
    let mut log = VecPatchLogSink::new();
    BumpVersion.apply_with_log(&mut save, &SymbolDatabase::new(), &mut log).unwrap();
    assert_eq!(save.as_bytes(), &[2, 0]);
    assert!(log.into_entries().is_empty());
    let mut short = SaveBinary::new(vec![1]);
    let mut log = VecPatchLogSink::new();
    assert!(BumpVersion.apply_with_log(&mut short, &SymbolDatabase::new(), &mut log).is_err());
    assert_eq!(short.as_bytes(), &[1]);
    assert!(log.into_entries().is_empty());
}
