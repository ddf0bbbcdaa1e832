use merge_insert::error::MergeError;
use merge_insert::execute::{check_children, ExecutionStep, FullSchemaMergeInsertExec, PlanFormat};
use merge_insert::columns::UInt64Column;
use merge_insert::action::Action;
use merge_insert::merge_state::{
    CapturedRowIds, KeyValue, MergeState, RowKey, RowReply, SourceDedupeBehavior,
};
use merge_insert::params::{
    DatasetField, DatasetInfo, MergeInsertParams, WhenMatched, WhenNotMatchedBySource,
};
use merge_insert::split::{SplitCommand, SplitEvent, SplitState};
use merge_insert::transaction::{
    assign_row_ids, calculate_write_metrics, row_id_request, DataFile, Fragment,
    KeyExistenceFilter, MergeStats, UpdateMode,
};

fn fragment(id: u64, sizes: Vec<Option<u64>>, rows: usize) -> Fragment {
    Fragment {
        id,
        files: sizes
            .into_iter()
            .map(|file_size_bytes| DataFile { path: "f".to_string(), file_size_bytes })
            .collect(),
        physical_rows: Some(rows),
        row_id_meta: None,
    }
}

fn exec(primary_key: Vec<i32>) -> FullSchemaMergeInsertExec<u32> {
    let dataset = DatasetInfo {
        uri: "mem://t".to_string(),
        version: 4,
        stable_row_ids: true,
        fields: vec![
            DatasetField { path: "id".to_string(), id: 0 },
            DatasetField { path: "s".to_string(), id: 1 },
            DatasetField { path: "s.x".to_string(), id: 2 },
        ],
        primary_key,
    };
    let params = MergeInsertParams {
        on: vec!["id".to_string()],
        when_matched: WhenMatched::UpdateAll,
        insert_not_matched: true,
        delete_not_matched_by_source: WhenNotMatchedBySource::Keep,
        source_dedupe_behavior: SourceDedupeBehavior::FirstSeen,
    };
    FullSchemaMergeInsertExec::try_new(dataset, params).unwrap()
}

/// One update, one insert with a key, one delete.
fn run(state: &mut MergeState) {
    let addrs = UInt64Column::from_options(vec![Some(10), None, Some(20)]);
    let ids = UInt64Column::from_values(vec![1, 0, 2]);
    let reply = RowReply {
        key: RowKey::Captured(KeyValue { bytes: vec![9, 9] }),
        capture_error: None,
    };
    for (i, action) in [Action::UpdateAll, Action::Insert, Action::Delete].iter().enumerate() {
        state.process_row_action(*action, i, &addrs, &ids, &reply).unwrap();
    }
}

#[test]
fn a_merge_starts_empty() {
    let mut e = exec(vec![0]);
    assert!(e.is_primary_key);
    assert!(e.merge_stats().is_none());
    assert!(e.transaction().is_none());
    assert!(e.affected_rows().is_none());
    assert!(e.inserted_rows_filter().is_none());
    let s = e.start();
    assert!(s.stable_row_ids);
    assert_eq!(s.on_columns, vec!["id".to_string()]);
    assert_eq!(s.inserted_rows_filter.field_ids, vec![0]);
    assert_eq!(s.source_dedupe_behavior, SourceDedupeBehavior::FirstSeen);
    assert!(s.delete_row_addrs.is_empty());
}

#[test]
fn results_are_stored_and_taken_once() {
    let mut e = exec(vec![0]);
    let mut s = e.start();
    run(&mut s);
    let new = vec![fragment(8, vec![Some(100), None], 1), fragment(9, vec![Some(11)], 1)];
    let updated = vec![fragment(1, vec![Some(7)], 5)];
    e.store_results(s, new, updated, vec![3], vec![77]);

    let filter = KeyExistenceFilter {
        field_ids: vec![0],
        keys: vec![KeyValue { bytes: vec![9, 9] }],
    };
    let t = e.transaction().unwrap();
    assert_eq!(t.read_version, 4);
    let op = t.operation;
    assert_eq!(op.removed_fragment_ids, vec![3]);
    assert_eq!(op.updated_fragments.len(), 1);
    assert_eq!(op.new_fragments.len(), 2);
    assert!(op.fields_modified.is_empty());
    assert_eq!(op.merged_generations, vec![77]);
    assert_eq!(op.fields_for_preserving_frag_bitmap, vec![0, 1, 2]);
    assert_eq!(op.update_mode, Some(UpdateMode::RewriteRows));
    assert_eq!(op.inserted_rows_filter.as_ref(), Some(&filter));
    assert!(op.updated_fragment_offsets.is_none());
    assert!(e.transaction().is_none());

    assert_eq!(
        e.merge_stats(),
        Some(MergeStats {
            num_inserted_rows: 1,
            num_updated_rows: 1,
            num_deleted_rows: 1,
            num_skipped_duplicates: 0,
            bytes_written: 111,
            num_files_written: 3,
        })
    );
    assert_eq!(e.merge_stats(), None);

    let rows = e.affected_rows().unwrap();
    assert_eq!(rows.iter().collect::<Vec<u64>>(), vec![10, 20]);
    assert!(e.affected_rows().is_none());

    // The filter stays.
    assert_eq!(e.inserted_rows_filter().as_ref(), Some(&filter));
    assert_eq!(e.inserted_rows_filter().as_ref(), Some(&filter));
}

#[test]
fn without_a_primary_key_the_filter_is_not_committed() {
    let mut e = exec(vec![]);
    assert!(!e.is_primary_key);
    let mut s = e.start();
    run(&mut s);
    e.store_results(s, vec![], vec![], vec![], vec![]);
    // The filter is kept all the same.
    assert_eq!(
        e.inserted_rows_filter(),
        Some(KeyExistenceFilter {
            field_ids: vec![0],
            keys: vec![KeyValue { bytes: vec![9, 9] }],
        })
    );
    assert!(e.transaction().unwrap().operation.inserted_rows_filter.is_none());
    assert_eq!(e.merge_stats().unwrap().num_files_written, 0);
}

#[test]
fn a_plan_describes_itself() {
    let e = exec(vec![]);
    assert_eq!(
        e.describe(PlanFormat::Line),
        "MergeInsert: on=[id], when_matched=UpdateAll, when_not_matched=InsertAll, \
         when_not_matched_by_source=Keep"
    );
    assert_eq!(e.describe(PlanFormat::Tree), "MergeInsert[mem://t]");
}

#[test]
fn a_plan_has_one_child() {
    assert!(check_children(1).is_ok());
    assert!(matches!(check_children(0), Err(MergeError::ChildCount)));
    assert!(matches!(check_children(2), Err(MergeError::ChildCount)));
}

#[test]
fn files_of_unknown_size_count_as_files() {
    assert_eq!(calculate_write_metrics(&vec![]), (0, 0));
    let fragments = vec![
        fragment(0, vec![Some(5), None], 1),
        fragment(1, vec![], 1),
        fragment(2, vec![Some(6)], 1),
    ];
    assert_eq!(calculate_write_metrics(&fragments), (11, 3));
}

#[test]
fn write_metrics_add_up_whatever_the_order() {
    let a = || fragment(0, vec![Some(5), None], 1);
    let b = || fragment(1, vec![Some(7)], 1);
    assert_eq!(calculate_write_metrics(&vec![a()]), (5, 2));
    assert_eq!(calculate_write_metrics(&vec![b()]), (7, 1));
    assert_eq!(calculate_write_metrics(&vec![a(), b()]), (12, 3));
    assert_eq!(calculate_write_metrics(&vec![b(), a()]), (12, 3));
    // A file may move from one fragment to another.
    let c = fragment(0, vec![None], 1);
    let d = fragment(1, vec![Some(7), Some(5)], 1);
    assert_eq!(calculate_write_metrics(&vec![c, d]), (12, 3));
}

#[test]
fn row_ids_are_asked_for_where_they_are_stable() {
    let fragments = vec![fragment(0, vec![], 3), fragment(1, vec![], 2)];
    let mut ids = CapturedRowIds::new(true);
    ids.capture(9);
    let (captured, sizes) = row_id_request(&ids, &fragments).unwrap();
    assert_eq!(captured, &vec![9]);
    assert_eq!(sizes, vec![3, 2]);
    assert!(row_id_request(&CapturedRowIds::new(false), &fragments).is_none());
}

#[test]
fn row_ids_are_assigned_in_order() {
    let mut fragments = vec![fragment(0, vec![], 1), fragment(1, vec![], 1), fragment(2, vec![], 1)];
    assign_row_ids(&mut fragments, Ok(vec![vec![1], vec![2, 2]])).unwrap();
    assert_eq!(fragments[0].row_id_meta, Some(vec![1]));
    assert_eq!(fragments[1].row_id_meta, Some(vec![2, 2]));
    assert_eq!(fragments[2].row_id_meta, None);
    // More chunks than fragments.
    let mut one = vec![fragment(0, vec![], 1)];
    assign_row_ids(&mut one, Ok(vec![vec![1], vec![2]])).unwrap();
    assert_eq!(one[0].row_id_meta, Some(vec![1]));
}

#[test]
fn row_ids_that_do_not_fit_change_nothing() {
    let mut fragments = vec![fragment(0, vec![], 1)];
    let e = assign_row_ids(&mut fragments, Err("too few".to_string())).unwrap_err();
    assert_eq!(
        e.message(""),
        "Captured row ids not equal to number of rows written: too few"
    );
    assert_eq!(fragments, vec![fragment(0, vec![], 1)]);
}

fn steps(outcomes: &[bool]) -> Vec<ExecutionStep> {
    let mut path = vec![ExecutionStep::ResolveBases];
    for ok in outcomes {
        path.push(path[path.len() - 1].next(*ok));
    }
    path
}

#[test]
fn a_good_execution_stores_its_results() {
    assert_eq!(
        steps(&[true, true, true, true, true]),
        vec![
            ExecutionStep::ResolveBases,
            ExecutionStep::WriteFragments,
            ExecutionStep::AssignRowIds,
            ExecutionStep::ApplyDeletions,
            ExecutionStep::StoreResults,
            ExecutionStep::Succeed,
        ]
    );
}

#[test]
fn only_written_fragments_are_cleaned_up() {
    assert_eq!(steps(&[false])[1..], [ExecutionStep::Fail]);
    assert_eq!(
        steps(&[true, false])[1..],
        [ExecutionStep::WriteFragments, ExecutionStep::Fail]
    );
    assert_eq!(
        steps(&[true, true, false, true])[2..],
        [ExecutionStep::AssignRowIds, ExecutionStep::CleanUp, ExecutionStep::Fail]
    );
    assert_eq!(
        steps(&[true, true, true, false, true])[3..],
        [ExecutionStep::ApplyDeletions, ExecutionStep::CleanUp, ExecutionStep::Fail]
    );
    assert_eq!(ExecutionStep::Fail.next(true), ExecutionStep::Fail);
    assert_eq!(ExecutionStep::Succeed.next(false), ExecutionStep::Succeed);
}

fn commands(events: &[SplitEvent]) -> (SplitState, Vec<SplitCommand>) {
    let mut state = SplitState::Reading;
    let given = events.iter().map(|e| state.step(*e)).collect();
    (state, given)
}

#[test]
fn both_parts_of_a_batch_are_sent() {
    let (state, given) = commands(&[
        SplitEvent::BatchReady { updates: true, inserts: true },
        SplitEvent::Sent { taken: true },
        SplitEvent::Sent { taken: true },
        SplitEvent::BatchReady { updates: false, inserts: false },
        SplitEvent::BatchReady { updates: false, inserts: true },
        SplitEvent::Sent { taken: true },
        SplitEvent::BatchReady { updates: true, inserts: false },
        SplitEvent::Sent { taken: true },
        SplitEvent::InputEnded,
    ]);
    assert_eq!(
        given,
        vec![
            SplitCommand::SendUpdates,
            SplitCommand::SendInserts,
            SplitCommand::NextBatch,
            SplitCommand::NextBatch,
            SplitCommand::SendInserts,
            SplitCommand::NextBatch,
            SplitCommand::SendUpdates,
            SplitCommand::NextBatch,
            SplitCommand::Stop,
        ]
    );
    assert_eq!(state, SplitState::Stopped);
}

#[test]
fn a_closed_channel_ends_the_sending() {
    let both = SplitEvent::BatchReady { updates: true, inserts: true };
    let gone = SplitEvent::Sent { taken: false };
    let (state, given) = commands(&[both, gone]);
    assert_eq!(given, vec![SplitCommand::SendUpdates, SplitCommand::Stop]);
    assert_eq!(state, SplitState::Stopped);
    let (_, given) = commands(&[both, SplitEvent::Sent { taken: true }, gone]);
    assert_eq!(given[2], SplitCommand::Stop);
}

#[test]
fn an_error_goes_to_the_first_open_channel() {
    let (_, given) = commands(&[SplitEvent::InputFailed, SplitEvent::Sent { taken: true }]);
    assert_eq!(given, vec![SplitCommand::SendErrorToUpdates, SplitCommand::Stop]);
    let gone = SplitEvent::Sent { taken: false };
    let (state, given) = commands(&[SplitEvent::InputFailed, gone, gone]);
    assert_eq!(
        given,
        vec![
            SplitCommand::SendErrorToUpdates,
            SplitCommand::SendErrorToInserts,
            SplitCommand::Stop,
        ]
    );
    assert_eq!(state, SplitState::Stopped);
}
