use rstask_core::preferences::{BulkCommitStrategy, Preferences, SyncFrequency};

#[test]
fn record_default_is_never_and_per_task() {
    let p = Preferences::default();
    assert_eq!(p.sync_frequency, SyncFrequency::Never);
    assert_eq!(p.bulk_commit_strategy, BulkCommitStrategy::PerTask);
}

#[test]
fn field_defaults_are_never_and_single() {
    assert_eq!(SyncFrequency::default(), SyncFrequency::Never);
    assert_eq!(BulkCommitStrategy::default(), BulkCommitStrategy::Single);
}

#[test]
fn bulk_only_file_takes_field_default_for_sync() {
    let p = Preferences::from_config_text("bulk_commit_strategy: per_task");
    assert_eq!(p.sync_frequency, SyncFrequency::Never);
    assert_eq!(p.bulk_commit_strategy, BulkCommitStrategy::PerTask);
}

#[test]
fn sync_only_file_takes_field_default_for_bulk() {
    let p = Preferences::from_config_text("sync_frequency: after_every_modification\n");
    assert_eq!(p.sync_frequency, SyncFrequency::AfterEveryModification);
    assert_eq!(p.bulk_commit_strategy, BulkCommitStrategy::Single);
}

#[test]
fn both_keys_are_taken() {
    let p = Preferences::from_config_text(
        "sync_frequency: after_every_modification\nbulk_commit_strategy: single\n",
    );
    assert_eq!(p.sync_frequency, SyncFrequency::AfterEveryModification);
    assert_eq!(p.bulk_commit_strategy, BulkCommitStrategy::Single);
}

#[test]
fn empty_file_decodes_to_field_defaults() {
    let p = Preferences::from_config_text("");
    assert_eq!(p.sync_frequency, SyncFrequency::Never);
    assert_eq!(p.bulk_commit_strategy, BulkCommitStrategy::Single);
}

#[test]
fn unknown_keys_are_ignored() {
    let p = Preferences::from_config_text(
        "color: blue\nsync_frequency: after_every_modification\n",
    );
    assert_eq!(p.sync_frequency, SyncFrequency::AfterEveryModification);
    assert_eq!(p.bulk_commit_strategy, BulkCommitStrategy::Single);
}

#[test]
fn blank_lines_are_ignored() {
    let p = Preferences::from_config_text("\nsync_frequency: never\n\n");
    assert_eq!(p.sync_frequency, SyncFrequency::Never);
    assert_eq!(p.bulk_commit_strategy, BulkCommitStrategy::Single);
}

#[test]
fn malformed_line_falls_back_to_record_default() {
    let p = Preferences::from_config_text("not a key value line");
    assert_eq!(p.sync_frequency, SyncFrequency::Never);
    assert_eq!(p.bulk_commit_strategy, BulkCommitStrategy::PerTask);
}

#[test]
fn bad_value_falls_back_to_record_default() {
    let p = Preferences::from_config_text("sync_frequency: hourly\n");
    assert_eq!(p.sync_frequency, SyncFrequency::Never);
    assert_eq!(p.bulk_commit_strategy, BulkCommitStrategy::PerTask);
}

#[test]
fn duplicate_key_falls_back_to_record_default() {
    let p = Preferences::from_config_text("sync_frequency: never\nsync_frequency: never\n");
    assert_eq!(p.sync_frequency, SyncFrequency::Never);
    assert_eq!(p.bulk_commit_strategy, BulkCommitStrategy::PerTask);
}
