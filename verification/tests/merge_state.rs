use merge_insert::action::{Action, ActionCodes};
use merge_insert::columns::UInt64Column;
use merge_insert::error::{ErrorKind, MergeError};
use merge_insert::merge_state::{
    CapturedRowIds, Count, KeyValue, MergeInsertMetrics, MergeState, RowKey, RowReply,
    SourceDedupeBehavior,
};
use merge_insert::rows::ControlRows;

const CODES: ActionCodes = ActionCodes {
    nothing: 3,
    update_all: 1,
    insert: 2,
    delete: 0,
    fail: 4,
};

fn state(stable: bool, dedupe: SourceDedupeBehavior) -> MergeState {
    MergeState::new(
        MergeInsertMetrics::new(),
        stable,
        vec!["id".to_string()],
        vec![7],
        dedupe,
    )
}

fn keyed(key: RowKey) -> RowReply {
    RowReply { key, capture_error: None }
}

fn key(byte: u8) -> RowReply {
    keyed(RowKey::Captured(KeyValue { bytes: vec![byte] }))
}

fn uncaptured(reason: &str) -> RowReply {
    RowReply { key: RowKey::Absent, capture_error: Some(reason.to_string()) }
}

fn control(rows: Vec<(u8, Option<u64>, u64)>) -> ControlRows {
    ControlRows {
        row_addrs: UInt64Column::from_options(rows.iter().map(|r| r.1).collect()),
        row_ids: UInt64Column::from_values(rows.iter().map(|r| r.2).collect()),
        actions: rows.iter().map(|r| r.0).collect(),
    }
}

fn absent(n: usize) -> Vec<RowReply> {
    (0..n).map(|_| RowReply::none()).collect()
}

#[test]
fn test_merge_state_duplicate_rowid_detection_fail() {
    let metrics = MergeInsertMetrics::new();
    let mut merge_state = MergeState::new(
        metrics,
        false,
        Vec::new(),
        Vec::new(),
        SourceDedupeBehavior::Fail,
    );

    let row_addr_array = UInt64Column::from_values(vec![1000, 2000, 3000]);
    let row_id_array = UInt64Column::from_values(vec![100, 100, 300]); // Duplicate row_id 100

    let result1 = merge_state.process_row_action(
        Action::UpdateAll,
        0,
        &row_addr_array,
        &row_id_array,
        &RowReply::none(),
    );
    assert!(result1.is_ok(), "First call should succeed");

    let result2 = merge_state.process_row_action(
        Action::UpdateAll,
        1,
        &row_addr_array,
        &row_id_array,
        &RowReply::none(),
    );
    assert!(
        result2.is_err(),
        "Second call with duplicate _rowid should fail"
    );

    let error_msg = result2.unwrap_err().message("");
    assert!(
        error_msg.contains("Ambiguous merge insert") && error_msg.contains("multiple source rows"),
        "Error message should mention ambiguous merge insert and multiple source rows, got: {}",
        error_msg
    );

    let result3 = merge_state.process_row_action(
        Action::UpdateAll,
        2,
        &row_addr_array,
        &row_id_array,
        &RowReply::none(),
    );
    assert!(
        result3.is_ok(),
        "Third call with different _rowid should succeed"
    );
}

#[test]
fn test_merge_state_duplicate_rowid_first_seen() {
    let metrics = MergeInsertMetrics::new();
    let mut merge_state = MergeState::new(
        metrics,
        false,
        Vec::new(),
        Vec::new(),
        SourceDedupeBehavior::FirstSeen,
    );

    let row_addr_array = UInt64Column::from_values(vec![1000, 2000, 3000]);
    let row_id_array = UInt64Column::from_values(vec![100, 100, 300]); // Duplicate row_id 100

    let result1 = merge_state.process_row_action(
        Action::UpdateAll,
        0,
        &row_addr_array,
        &row_id_array,
        &RowReply::none(),
    );
    assert!(result1.is_ok(), "First call should succeed");
    assert_eq!(result1.unwrap(), Some(0), "First row should be kept");

    let result2 = merge_state.process_row_action(
        Action::UpdateAll,
        1,
        &row_addr_array,
        &row_id_array,
        &RowReply::none(),
    );
    assert!(
        result2.is_ok(),
        "Second call with duplicate _rowid should succeed with FirstSeen"
    );
    assert_eq!(
        result2.unwrap(),
        None,
        "Duplicate row should be skipped (return None)"
    );

    // Verify the metric was incremented
    assert_eq!(
        merge_state.metrics.num_skipped_duplicates.value(),
        1,
        "num_skipped_duplicates should be 1"
    );

    let result3 = merge_state.process_row_action(
        Action::UpdateAll,
        2,
        &row_addr_array,
        &row_id_array,
        &RowReply::none(),
    );
    assert!(
        result3.is_ok(),
        "Third call with different _rowid should succeed"
    );
    assert_eq!(result3.unwrap(), Some(2), "Third row should be kept");
}

#[test]
fn deleted_rows_are_not_written() {
    let mut s = state(true, SourceDedupeBehavior::Fail);
    let rows = control(vec![(0, Some(11), 1), (0, None, 2)]);
    assert_eq!(s.process_rows(&CODES, &rows, &absent(2)).unwrap(), Vec::<u32>::new());
    assert_eq!(s.delete_row_addrs.iter().collect::<Vec<u64>>(), vec![11]);
    assert_eq!(s.metrics.num_deleted_rows.value(), 1);
    assert_eq!(s.metrics.num_updated_rows.value(), 0);
    assert!(s.updating_row_ids.row_ids.is_empty());
}

#[test]
fn updates_delete_the_old_row_and_capture_its_id() {
    let mut s = state(true, SourceDedupeBehavior::Fail);
    let rows = control(vec![(1, Some(30), 3), (1, Some(10), 1), (1, None, 0)]);
    assert_eq!(s.process_rows(&CODES, &rows, &absent(3)).unwrap(), vec![0, 1, 2]);
    assert_eq!(s.delete_row_addrs.iter().collect::<Vec<u64>>(), vec![10, 30]);
    assert_eq!(s.updating_row_ids.row_id_sequence(), Some(&vec![3, 1]));
    assert_eq!(s.metrics.num_updated_rows.value(), 3);
    assert_eq!(s.metrics.num_deleted_rows.value(), 0);
}

#[test]
fn unstable_row_ids_are_not_captured() {
    let mut s = state(false, SourceDedupeBehavior::Fail);
    let rows = control(vec![(1, Some(30), 3)]);
    assert_eq!(s.process_rows(&CODES, &rows, &absent(1)).unwrap(), vec![0]);
    assert!(s.updating_row_ids.row_ids.is_empty());
    assert_eq!(s.updating_row_ids.row_id_sequence(), None);
}

#[test]
fn only_inserts_record_their_keys() {
    let mut s = state(false, SourceDedupeBehavior::Fail);
    let rows = control(vec![(2, None, 0), (1, Some(5), 5), (2, None, 0)]);
    let replies = vec![key(1), key(2), RowReply::none()];
    assert_eq!(s.process_rows(&CODES, &rows, &replies).unwrap(), vec![0, 1, 2]);
    assert_eq!(s.inserted_rows_filter.field_ids, vec![7]);
    assert_eq!(s.inserted_rows_filter.keys, vec![KeyValue { bytes: vec![1] }]);
    assert_eq!(s.metrics.num_inserted_rows.value(), 2);
}

#[test]
fn rows_without_an_action_are_dropped() {
    let mut s = state(false, SourceDedupeBehavior::Fail);
    let rows = control(vec![(3, Some(5), 5), (3, None, 0)]);
    assert_eq!(s.process_rows(&CODES, &rows, &absent(2)).unwrap(), Vec::<u32>::new());
    assert_eq!(s.metrics, MergeInsertMetrics::new());
}

#[test]
fn deletes_and_updates_share_target_rows() {
    let mut s = state(false, SourceDedupeBehavior::FirstSeen);
    let rows = control(vec![(0, Some(5), 5), (1, Some(5), 5), (0, Some(5), 5)]);
    assert_eq!(s.process_rows(&CODES, &rows, &absent(3)).unwrap(), Vec::<u32>::new());
    assert_eq!(s.metrics.num_deleted_rows.value(), 1);
    assert_eq!(s.metrics.num_skipped_duplicates.value(), 2);
    assert_eq!(s.metrics.num_updated_rows.value(), 0);
}

#[test]
fn a_duplicate_delete_fails_the_merge() {
    let mut s = state(false, SourceDedupeBehavior::Fail);
    let rows = control(vec![(0, Some(5), 5), (0, Some(6), 5)]);
    let e = s.process_rows(&CODES, &rows, &absent(2)).unwrap_err();
    assert!(matches!(e, MergeError::DuplicateSourceRow { row_idx: 1 }));
    assert_eq!(e.kind(), ErrorKind::Execution);
    assert_eq!(e.row_idx(), Some(1));
    assert_eq!(
        e.message("id = 5"),
        "Ambiguous merge insert: multiple source rows match the same target row on (id = 5)"
    );
    // What the row before it did stays done.
    assert_eq!(s.metrics.num_deleted_rows.value(), 1);
    assert_eq!(s.delete_row_addrs.iter().collect::<Vec<u64>>(), vec![5]);
}

#[test]
fn a_match_can_fail_the_merge() {
    let mut s = state(false, SourceDedupeBehavior::Fail);
    let rows = control(vec![(2, None, 0), (4, Some(6), 6), (2, None, 0)]);
    let e = s.process_rows(&CODES, &rows, &absent(3)).unwrap_err();
    assert!(matches!(e, MergeError::MatchedRow { row_idx: 1 }));
    assert_eq!(e.kind(), ErrorKind::Execution);
    assert_eq!(
        e.message("id = 6"),
        "Merge insert failed: found matching row with key values: id = 6"
    );
    assert_eq!(s.metrics.num_inserted_rows.value(), 1);
}

#[test]
fn a_refused_key_fails_the_merge() {
    let mut s = state(false, SourceDedupeBehavior::Fail);
    let rows = control(vec![(2, None, 0)]);
    let replies = vec![keyed(RowKey::Rejected("too long".to_string()))];
    let e = s.process_rows(&CODES, &rows, &replies).unwrap_err();
    assert_eq!(e.kind(), ErrorKind::Outside);
    assert_eq!(e.message(""), "too long");
    assert_eq!(s.metrics.num_inserted_rows.value(), 0);
    assert!(s.inserted_rows_filter.keys.is_empty());
}

#[test]
fn an_id_that_cannot_be_captured_fails_the_merge() {
    let mut s = state(true, SourceDedupeBehavior::Fail);
    let rows = control(vec![(1, Some(10), 1), (1, Some(20), 2), (1, Some(30), 3)]);
    let replies = vec![RowReply::none(), uncaptured("full"), RowReply::none()];
    let e = s.process_rows(&CODES, &rows, &replies).unwrap_err();
    assert!(matches!(e, MergeError::CaptureRefused { .. }));
    assert_eq!(e.kind(), ErrorKind::Outside);
    assert_eq!(e.message(""), "full");
    // The row was claimed before its id was refused, but is not counted.
    assert_eq!(s.delete_row_addrs.iter().collect::<Vec<u64>>(), vec![10, 20]);
    assert!(s.processed_row_ids.contains(&2));
    assert_eq!(s.updating_row_ids.row_ids, vec![1]);
    assert_eq!(s.metrics.num_updated_rows.value(), 1);
    // Ids that are not captured cannot be refused.
    let mut s = state(false, SourceDedupeBehavior::Fail);
    assert_eq!(s.process_rows(&CODES, &rows, &replies).unwrap(), vec![0, 1, 2]);
}

#[test]
fn an_unknown_code_fails_the_merge() {
    let mut s = state(false, SourceDedupeBehavior::Fail);
    let rows = control(vec![(2, None, 0), (9, None, 0)]);
    let e = s.process_rows(&CODES, &rows, &absent(2)).unwrap_err();
    assert!(matches!(e, MergeError::InvalidActionCode { code: 9 }));
    assert_eq!(e.kind(), ErrorKind::Internal);
    assert_eq!(e.row_idx(), None);
    assert_eq!(e.message("9 is no action"), "Invalid action code 9: 9 is no action");
}

#[test]
fn codes_and_actions_go_both_ways() {
    for action in [
        Action::Nothing,
        Action::UpdateAll,
        Action::Insert,
        Action::Delete,
        Action::Fail,
    ] {
        assert_eq!(CODES.decode(CODES.encode(action)).unwrap(), action);
    }
    assert_eq!(CODES.encode(Action::UpdateAll), 1);
    assert_eq!(CODES.encode(Action::Insert), 2);
    assert_eq!(CODES.encode(Action::Delete), 0);
}

#[test]
fn split_rows_keep_their_order() {
    let mut s = state(true, SourceDedupeBehavior::FirstSeen);
    let rows = control(vec![
        (2, None, 0),
        (1, Some(20), 2),
        (0, Some(30), 3),
        (1, Some(20), 2),
        (2, None, 0),
        (1, Some(10), 1),
    ]);
    let (updates, inserts) = s
        .process_and_split_rows(&CODES, &rows, &absent(6))
        .unwrap();
    assert_eq!(updates, vec![1, 5]);
    assert_eq!(inserts, vec![0, 4]);
    // One id per update, in the order in which the updates are written.
    assert_eq!(s.updating_row_ids.row_ids, vec![2, 1]);
    assert_eq!(s.metrics.num_skipped_duplicates.value(), 1);
    // Every row is counted once.
    let m = s.metrics;
    assert_eq!(
        (
            m.num_inserted_rows.value(),
            m.num_updated_rows.value(),
            m.num_deleted_rows.value(),
            m.num_skipped_duplicates.value(),
        ),
        (2, 2, 1, 1)
    );
}

#[test]
fn batch_boundaries_do_not_matter() {
    let rows = vec![
        (1, Some(20), 2),
        (2, None, 0),
        (1, Some(20), 2),
        (0, Some(10), 1),
    ];
    let mut one = state(true, SourceDedupeBehavior::FirstSeen);
    let kept = one
        .process_rows(&CODES, &control(rows.clone()), &absent(4))
        .unwrap();
    assert_eq!(kept, vec![0, 1]);

    let mut two = state(true, SourceDedupeBehavior::FirstSeen);
    let first = two
        .process_rows(&CODES, &control(rows[..2].to_vec()), &absent(2))
        .unwrap();
    let second = two
        .process_rows(&CODES, &control(rows[2..].to_vec()), &absent(2))
        .unwrap();
    assert_eq!(first, vec![0, 1]);
    assert_eq!(second, Vec::<u32>::new());
    assert_eq!(one.metrics, two.metrics);
    assert_eq!(one.updating_row_ids, two.updating_row_ids);
    assert_eq!(one.delete_row_addrs, two.delete_row_addrs);
}

#[test]
fn captured_ids_are_unique_across_batches() {
    let mut s = state(true, SourceDedupeBehavior::FirstSeen);
    for _ in 0..3 {
        let rows = control(vec![(1, Some(20), 2), (1, Some(10), 1)]);
        s.process_rows(&CODES, &rows, &absent(2)).unwrap();
    }
    assert_eq!(s.updating_row_ids.row_ids, vec![2, 1]);
    assert_eq!(s.metrics.num_skipped_duplicates.value(), 4);
}

#[test]
fn counters_wrap_around() {
    let mut c = Count::new();
    c.add(usize::MAX);
    c.add(3);
    assert_eq!(c.value(), 2);
}

#[test]
fn columns_know_their_nulls() {
    let c = UInt64Column::from_options(vec![Some(4), None]);
    assert_eq!(c.len(), 2);
    assert!(!c.is_null(0));
    assert!(c.is_null(1));
    assert_eq!(c.value(0), 4);
    let d = UInt64Column::from_values(vec![8]);
    assert!(!d.is_null(0));
    assert_eq!(d.value(0), 8);
}

#[test]
fn captured_ids_keep_their_order() {
    let mut ids = CapturedRowIds::new(true);
    ids.capture(9);
    ids.capture(4);
    assert_eq!(ids.row_id_sequence(), Some(&vec![9, 4]));
}

#[test]
fn calls_after_an_error_are_counted_too() {
    let mut s = state(true, SourceDedupeBehavior::Fail);
    let addrs = UInt64Column::from_options(vec![Some(10), Some(10), Some(20), None, Some(30)]);
    let ids = UInt64Column::from_values(vec![1, 1, 2, 0, 3]);
    let calls = [
        (Action::UpdateAll, 0, true),
        (Action::Delete, 1, false),
        (Action::Fail, 1, false),
        (Action::Delete, 2, true),
        (Action::Insert, 3, true),
        (Action::UpdateAll, 0, false),
        (Action::UpdateAll, 3, true),
        (Action::UpdateAll, 4, true),
    ];
    for (action, row, fine) in calls {
        let r = s.process_row_action(action, row, &addrs, &ids, &RowReply::none());
        assert_eq!(r.is_ok(), fine);
    }
    let m = s.metrics;
    assert_eq!(m.num_updated_rows.value(), 3);
    assert_eq!(m.num_deleted_rows.value(), 1);
    assert_eq!(m.num_inserted_rows.value(), 1);
    assert_eq!(m.num_skipped_duplicates.value(), 0);
    assert_eq!(s.delete_row_addrs.iter().collect::<Vec<u64>>(), vec![10, 20, 30]);
    assert_eq!(s.updating_row_ids.row_ids, vec![1, 3]);
}

/// Batches of rows, with a target row that two of them match.
fn three_batches() -> Vec<Vec<(u8, Option<u64>, u64)>> {
    vec![
        vec![(2, None, 0), (1, Some(20), 2)],
        vec![(1, Some(20), 2), (0, Some(30), 3), (2, None, 0)],
        vec![(1, Some(10), 1), (3, Some(40), 4), (1, None, 0)],
    ]
}

#[test]
fn ordered_and_streamed_rows_agree() {
    let mut streaming = state(true, SourceDedupeBehavior::FirstSeen);
    let mut ordering = state(true, SourceDedupeBehavior::FirstSeen);
    let mut streamed = Vec::new();
    let mut updates = Vec::new();
    let mut inserts = Vec::new();
    for (b, rows) in three_batches().into_iter().enumerate() {
        let replies = absent(rows.len());
        let rows = control(rows);
        for row in streaming.process_rows(&CODES, &rows, &replies).unwrap() {
            streamed.push((b, row));
        }
        let (u, i) = ordering.process_and_split_rows(&CODES, &rows, &replies).unwrap();
        updates.extend(u.into_iter().map(|row| (b, row)));
        inserts.extend(i.into_iter().map(|row| (b, row)));
    }
    assert_eq!(streamed, vec![(0, 0), (0, 1), (1, 2), (2, 0), (2, 2)]);
    assert_eq!(updates, vec![(0, 1), (2, 0), (2, 2)]);
    assert_eq!(inserts, vec![(0, 0), (1, 2)]);
    let mut ordered = [updates, inserts].concat();
    ordered.sort();
    assert_eq!(ordered, streamed);
    assert_eq!(streaming.metrics, ordering.metrics);
    assert_eq!(streaming.delete_row_addrs, ordering.delete_row_addrs);
    assert_eq!(streaming.updating_row_ids, ordering.updating_row_ids);
}

#[test]
fn affected_rows_are_those_claimed() {
    let mut s = state(false, SourceDedupeBehavior::FirstSeen);
    for rows in three_batches() {
        let replies = absent(rows.len());
        s.process_rows(&CODES, &control(rows), &replies).unwrap();
    }
    assert_eq!(s.delete_row_addrs.iter().collect::<Vec<u64>>(), vec![10, 20, 30]);
}
