use gap::import::{
    import_item_step, import_parallelism, order_by_name, total_size, AddEvent, ImportStep,
};

#[test]
fn size_event_records_the_size() {
    let mut size = 0u64;
    let step = import_item_step::<u8, String>(AddEvent::Size(1234), &mut size);
    assert!(matches!(step, ImportStep::SetLength(1234)));
    assert_eq!(size, 1234);
}

#[test]
fn progress_events_move_the_bar() {
    let mut size = 5u64;
    assert!(matches!(
        import_item_step::<u8, String>(AddEvent::CopyProgress(3), &mut size),
        ImportStep::SetPosition(3)
    ));
    assert!(matches!(
        import_item_step::<u8, String>(AddEvent::OutboardProgress(4), &mut size),
        ImportStep::SetPosition(4)
    ));
    assert!(matches!(
        import_item_step::<u8, String>(AddEvent::CopyDone, &mut size),
        ImportStep::ComputingOutboard
    ));
    assert_eq!(size, 5);
}

#[test]
fn done_and_error_end_the_import() {
    let mut size = 0u64;
    assert!(matches!(
        import_item_step::<u8, String>(AddEvent::Done(9), &mut size),
        ImportStep::Finished(9)
    ));
    match import_item_step::<u8, String>(AddEvent::Error("disk full".to_owned()), &mut size) {
        ImportStep::Failed(cause) => assert_eq!(cause, "disk full"),
        _ => panic!("expected a failure"),
    }
}

#[test]
fn names_are_ordered_by_text() {
    let names = vec!["b/x".to_owned(), "a".to_owned(), "b".to_owned(), "a/z".to_owned()];
    assert_eq!(order_by_name(&names), vec![1, 3, 2, 0]);
}

#[test]
fn order_is_by_code_point_and_stable() {
    let names = vec![
        "é".to_owned(),
        "z".to_owned(),
        "Z".to_owned(),
        "z".to_owned(),
        "".to_owned(),
    ];
    assert_eq!(order_by_name(&names), vec![4, 2, 1, 3, 0]);
    let empty: Vec<String> = Vec::new();
    assert!(order_by_name(&empty).is_empty());
}

#[test]
fn total_size_sums_or_overflows() {
    assert_eq!(total_size(&vec![1, 2, 3]), Some(6));
    assert_eq!(total_size(&vec![]), Some(0));
    assert_eq!(total_size(&vec![u64::MAX, 1]), None);
    assert_eq!(total_size(&vec![u64::MAX]), Some(u64::MAX));
}

#[test]
fn parallelism_defaults_to_cpus() {
    assert_eq!(import_parallelism(Some(3)), 3);
    assert!(import_parallelism(None) >= 1);
}
