use gap::path::PathError;
use gap::receive::{
    entry_action, EntryAction,
    collection_stats, complete_file_count, export_root, export_step, get_step, CollectionStats,
    ExportEvent, ExportStep, GetEvent, GetStep,
};

#[test]
fn stats_of_a_collection() {
    let st = collection_stats(&vec![10, 20, 30, 40]).expect("fits");
    assert_eq!(
        st,
        CollectionStats { total_size: 100, payload_size: 70, total_files: 3 }
    );
}

#[test]
fn stats_of_small_collections() {
    assert_eq!(
        collection_stats(&vec![]),
        Some(CollectionStats { total_size: 0, payload_size: 0, total_files: 0 })
    );
    assert_eq!(
        collection_stats(&vec![5]),
        Some(CollectionStats { total_size: 5, payload_size: 0, total_files: 0 })
    );
    assert_eq!(
        collection_stats(&vec![5, 6]),
        Some(CollectionStats { total_size: 11, payload_size: 0, total_files: 1 })
    );
}

#[test]
fn stats_overflow_is_reported() {
    assert_eq!(collection_stats(&vec![u64::MAX, 0, 1]), None);
}

#[test]
fn complete_collection_file_count() {
    assert_eq!(complete_file_count(Some(4)).ok(), Some(3));
    assert_eq!(complete_file_count(Some(0)).ok(), Some(0));
    let err = complete_file_count(None).expect_err("missing");
    assert_eq!(err.message(), "complete local set missing child count");
}

#[test]
fn export_root_is_first_component() {
    assert_eq!(export_root("data/dir-0/file"), "data");
    assert_eq!(export_root("file.bin"), "file.bin");
    assert_eq!(export_root("/abs"), "");
    assert_eq!(export_root(""), "");
}

#[test]
fn get_events() {
    assert!(matches!(get_step::<u8, u8>(GetEvent::Progress(5)), GetStep::Report(5)));
    assert!(matches!(get_step::<u8, u8>(GetEvent::Done(1)), GetStep::Finished(1)));
    assert!(matches!(get_step::<u8, u8>(GetEvent::Error(2)), GetStep::Failed(2)));
}

#[test]
fn export_events() {
    assert!(matches!(export_step::<u8>(ExportEvent::Size(9)), ExportStep::SetLength(9)));
    assert!(matches!(export_step::<u8>(ExportEvent::CopyProgress(4)), ExportStep::SetPosition(4)));
    assert!(matches!(export_step::<u8>(ExportEvent::Done), ExportStep::Finish));
    assert!(matches!(export_step::<u8>(ExportEvent::Error(3)), ExportStep::Failed(3)));
}

#[test]
fn entry_is_copied_only_to_a_free_accepted_target() {
    let target = std::path::PathBuf::from("/tmp/export/a");
    assert!(matches!(entry_action(Ok(target.clone()), false), EntryAction::Copy(p) if p == target));
    assert!(matches!(entry_action(Ok(target.clone()), true), EntryAction::Occupied(p) if p == target));
    assert!(matches!(
        entry_action(Err(PathError::DotDotComponent), false),
        EntryAction::Refuse(PathError::DotDotComponent)
    ));
}
