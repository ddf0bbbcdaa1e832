use std::sync::Arc;

use arrow_array::builder::{Int32Builder, ListBuilder};
use arrow_array::{
    Array, ArrayRef, Int32Array, ListArray, RecordBatch, StringArray, UInt64Array, UInt8Array,
};
use arrow_schema::{DataType, Field, Schema};
use merge_insert::action::ActionCodes;
use merge_insert::arrow::{Batch, Column};
use merge_insert::columns::UInt64Column;
use merge_insert::error::{ControlColumn, MergeError};
use merge_insert::filler::{addresses_to_read, locate, BatchError};
use merge_insert::layout::{prepare_stream_schema, WriteStreamContext};
use merge_insert::merge_state::{
    MergeInsertMetrics, MergeState, RowReply, SourceDedupeBehavior,
};
use merge_insert::stream::{
    filter_batch, rows_to_write, split_batch, write_stream_mode, WriteStreamMode,
};
use merge_insert::write_batch::{
    assemble_batch, continue_write_batch, create_write_batch, empty_batch, extract_control_arrays,
    is_resumable, is_writable, resume_write_batch, WriteStep,
};

const CODES: ActionCodes = ActionCodes {
    nothing: 3,
    update_all: 1,
    insert: 2,
    delete: 0,
    fail: 4,
};

fn batch(columns: Vec<(&str, ArrayRef, bool)>) -> Batch {
    let fields: Vec<Field> = columns
        .iter()
        .map(|(name, array, nullable)| Field::new(*name, array.data_type().clone(), *nullable))
        .collect();
    let arrays = columns.into_iter().map(|c| c.1).collect();
    Batch {
        batch: RecordBatch::try_new(Arc::new(Schema::new(fields)), arrays).unwrap(),
    }
}

fn input() -> Batch {
    batch(vec![
        (
            "_rowaddr",
            Arc::new(UInt64Array::from(vec![Some(20), None, Some(10), Some(30), None])) as ArrayRef,
            true,
        ),
        (
            "_rowid",
            Arc::new(UInt64Array::from(vec![Some(2), None, Some(1), Some(3), None])),
            true,
        ),
        (
            "__action",
            Arc::new(UInt8Array::from(vec![1, 2, 1, 0, 2])),
            false,
        ),
        (
            "a",
            Arc::new(Int32Array::from(vec![100, 101, 102, 103, 104])),
            false,
        ),
    ])
}

fn a() -> Field {
    Field::new("a", DataType::Int32, false)
}

fn c() -> Field {
    Field::new("c", DataType::Utf8, false)
}

fn layout(batch: &Batch, dataset: Vec<Field>) -> WriteStreamContext {
    let input = batch.batch.schema();
    match prepare_stream_schema(&input, &Schema::new(dataset), "__source") {
        Ok(ctx) => ctx,
        Err(e) => panic!("{:?}", e),
    }
}

fn state(stable: bool) -> MergeState {
    MergeState::new(
        MergeInsertMetrics::new(),
        stable,
        vec![],
        vec![],
        SourceDedupeBehavior::Fail,
    )
}

fn replies(n: usize) -> Vec<RowReply> {
    (0..n).map(|_| RowReply::none()).collect()
}

fn ready(step: Result<WriteStep, BatchError>) -> RecordBatch {
    match step {
        Ok(WriteStep::Ready(b)) => b.batch,
        Ok(_) => panic!("the target has to be read"),
        Err(e) => panic!("{:?}", e),
    }
}

fn ints(b: &RecordBatch, k: usize) -> Vec<i32> {
    let column = b.column(k).as_any().downcast_ref::<Int32Array>().unwrap();
    column.values().to_vec()
}

fn strings(b: &RecordBatch, k: usize) -> Vec<Option<String>> {
    let column = b.column(k).as_any().downcast_ref::<StringArray>().unwrap();
    column.iter().map(|s| s.map(|s| s.to_string())).collect()
}

fn some(s: &str) -> Option<String> {
    Some(s.to_string())
}

#[test]
fn rows_of_a_batch_are_filtered() {
    let b = input();
    let ctx = layout(&b, vec![a()]);
    assert!(ctx.is_fit_for(&b));
    assert_eq!(b.num_rows(), 5);
    let mut s = state(false);
    assert_eq!(write_stream_mode(&s), WriteStreamMode::Streaming);
    let keep = filter_batch(&mut s, &CODES, &b, &replies(5), &ctx).unwrap();
    assert_eq!(keep, vec![0, 1, 2, 4]);
    assert_eq!(s.delete_row_addrs.iter().collect::<Vec<u64>>(), vec![10, 20, 30]);
    assert!(is_writable(&b, &keep, &ctx));
    let written = ready(create_write_batch(&b, &keep, &ctx));
    assert_eq!(written.schema().as_ref(), &Schema::new(vec![a()]));
    assert_eq!(ints(&written, 0), vec![100, 101, 102, 104]);
}

#[test]
fn rows_of_a_batch_are_split() {
    let b = input();
    let ctx = layout(&b, vec![a()]);
    let mut s = state(true);
    assert_eq!(write_stream_mode(&s), WriteStreamMode::UpdatesBeforeInserts);
    let (updates, inserts) = split_batch(&mut s, &CODES, &b, &replies(5), &ctx).unwrap();
    assert_eq!(updates, vec![0, 2]);
    assert_eq!(inserts, vec![1, 4]);
    assert_eq!(s.updating_row_ids.row_ids, vec![2, 1]);
    assert_eq!(ints(&ready(create_write_batch(&b, &updates, &ctx)), 0), vec![100, 102]);
    assert_eq!(ints(&ready(create_write_batch(&b, &inserts, &ctx)), 0), vec![101, 104]);
}

#[test]
fn control_columns_are_read() {
    let b = input();
    let ctx = layout(&b, vec![a()]);
    let rows = extract_control_arrays(&b, &ctx).unwrap();
    assert_eq!(rows.actions, vec![1, 2, 1, 0, 2]);
    assert!(rows.row_addrs.is_null(1));
    assert_eq!(rows.row_addrs.value(3), 30);
    assert_eq!(rows.row_ids.value(2), 1);
}

#[test]
fn control_columns_have_their_types() {
    let good = input();
    let ctx = layout(&good, vec![a()]);
    for (bad, column) in [
        (0, ControlColumn::RowAddr),
        (1, ControlColumn::RowId),
        (2, ControlColumn::Action),
    ] {
        let strings = Arc::new(StringArray::from(vec!["", "", "", "", ""])) as ArrayRef;
        let columns = good
            .batch
            .columns()
            .iter()
            .enumerate()
            .map(|(i, c)| ("x", if i == bad { strings.clone() } else { c.clone() }, true))
            .collect();
        let b = batch(columns);
        match extract_control_arrays(&b, &ctx) {
            Err(MergeError::WrongColumnType { column: c }) => assert_eq!(c, column),
            other => panic!("{:?}", other),
        }
        let mut s = state(false);
        assert!(filter_batch(&mut s, &CODES, &b, &replies(5), &ctx).is_err());
        assert!(split_batch(&mut s, &CODES, &b, &replies(5), &ctx).is_err());
        assert_eq!(s.metrics, MergeInsertMetrics::new());
    }
}

#[test]
fn nothing_kept_gives_an_empty_batch() {
    let b = input();
    let ctx = layout(&b, vec![a(), c()]);
    assert!(is_writable(&b, &vec![], &ctx));
    let written = ready(create_write_batch(&b, &vec![], &ctx));
    assert_eq!(written.num_rows(), 0);
    assert_eq!(
        written.schema().as_ref(),
        &Schema::new(vec![a(), c().with_nullable(true)])
    );
    assert_eq!(empty_batch(&ctx).unwrap_or_else(|e| panic!("{:?}", e)).num_rows(), 0);
}

#[test]
fn new_rows_get_null() {
    let b = input();
    let ctx = layout(&b, vec![c(), a()]);
    let keep = vec![1, 4];
    assert!(is_writable(&b, &keep, &ctx));
    let written = ready(create_write_batch(&b, &keep, &ctx));
    assert_eq!(strings(&written, 0), vec![None, None]);
    assert_eq!(ints(&written, 1), vec![101, 104]);
}

#[test]
fn replaced_rows_keep_the_values_of_the_target() {
    let b = input();
    let ctx = layout(&b, vec![c(), a()]);
    let keep = vec![0, 1, 2];
    let (filtered, row_addrs, addrs) = match create_write_batch(&b, &keep, &ctx) {
        Ok(WriteStep::ReadTarget { filtered, row_addrs, addrs }) => (filtered, row_addrs, addrs),
        _ => panic!("the target need not be read"),
    };
    assert_eq!(addrs, vec![10, 20]);
    assert_eq!(filtered.num_rows(), 3);
    // The order in which rows were read does not matter.
    for (order, values) in [
        (vec![10, 20], vec!["ten", "twenty"]),
        (vec![20, 10], vec!["twenty", "ten"]),
        (vec![20, 7, 10], vec!["twenty", "seven", "ten"]),
    ] {
        let taken = batch(vec![
            ("c", Arc::new(StringArray::from(values)) as ArrayRef, false),
            ("_rowaddr", Arc::new(UInt64Array::from(order)), false),
        ]);
        assert!(is_resumable(&taken, &row_addrs, &ctx));
        let written = resume_write_batch(&filtered, &row_addrs, &taken, &ctx)
            .unwrap_or_else(|e| panic!("{:?}", e))
            .batch;
        assert_eq!(strings(&written, 0), vec![some("twenty"), None, some("ten")]);
        assert_eq!(ints(&written, 1), vec![100, 101, 102]);
    }
}

fn resume(taken: Batch) -> BatchError {
    let b = input();
    let ctx = layout(&b, vec![c(), a()]);
    match create_write_batch(&b, &vec![0, 1, 2], &ctx) {
        Ok(WriteStep::ReadTarget { filtered, row_addrs, .. }) => {
            match resume_write_batch(&filtered, &row_addrs, &taken, &ctx) {
                Ok(_) => panic!("the batch was completed"),
                Err(e) => e,
            }
        }
        _ => panic!("the target need not be read"),
    }
}

#[test]
fn rows_come_back_with_their_addresses() {
    let values = || Arc::new(StringArray::from(vec!["x", "y"])) as ArrayRef;
    let e = resume(batch(vec![("c", values(), false)]));
    assert!(matches!(e, BatchError::Merge(MergeError::TakeMissingRowAddr)));

    let e = resume(batch(vec![("c", values(), false), ("_rowaddr", values(), false)]));
    assert!(matches!(
        e,
        BatchError::Merge(MergeError::WrongColumnType { column: ControlColumn::RowAddr })
    ));
}

#[test]
fn every_matched_row_comes_back() {
    let e = resume(batch(vec![
        ("c", Arc::new(StringArray::from(vec!["x"])) as ArrayRef, false),
        ("_rowaddr", Arc::new(UInt64Array::from(vec![20])), false),
    ]));
    assert!(matches!(
        e,
        BatchError::Merge(MergeError::RowNotTaken { row_addr: 10 })
    ));
}

#[test]
fn every_filled_column_comes_back() {
    let e = resume(batch(vec![
        ("d", Arc::new(StringArray::from(vec!["x", "y"])) as ArrayRef, false),
        ("_rowaddr", Arc::new(UInt64Array::from(vec![20, 10])), false),
    ]));
    match e {
        BatchError::Merge(MergeError::TakeMissingColumn { name }) => assert_eq!(name, "c"),
        other => panic!("{:?}", other),
    }
}

#[test]
fn filled_columns_have_their_types() {
    let e = resume(batch(vec![
        ("c", Arc::new(Int32Array::from(vec![1, 2])) as ArrayRef, false),
        ("_rowaddr", Arc::new(UInt64Array::from(vec![20, 10])), false),
    ]));
    assert!(matches!(e, BatchError::Arrow(_)));
}

#[test]
fn filled_columns_need_addresses() {
    let b = input();
    let ctx = layout(&b, vec![a(), c()]);
    let columns = vec![
        ("_rowaddr", Arc::new(StringArray::from(vec!["x"])) as ArrayRef, false),
        ("_rowid", Arc::new(UInt64Array::from(vec![1])), false),
        ("__action", Arc::new(UInt8Array::from(vec![1])), false),
        ("a", Arc::new(Int32Array::from(vec![1])), false),
    ];
    let b = batch(columns);
    assert!(is_writable(&b, &vec![0], &ctx));
    assert!(matches!(
        create_write_batch(&b, &vec![0], &ctx),
        Err(BatchError::Merge(MergeError::WrongColumnType { column: ControlColumn::RowAddr }))
    ));
}

#[test]
fn assembled_columns_conform_to_the_fields() {
    let b = input();
    let ctx = layout(&b, vec![c(), a()]);
    let fitting = Column {
        array: Arc::new(StringArray::from(vec!["v", "w", "x", "y", "z"])),
    };
    let written = assemble_batch(&b, &vec![fitting], &ctx)
        .unwrap_or_else(|e| panic!("{:?}", e))
        .batch;
    assert_eq!(strings(&written, 0)[4], some("z"));
    let short = Column {
        array: Arc::new(StringArray::from(vec!["v"])),
    };
    assert!(matches!(
        assemble_batch(&b, &vec![short], &ctx),
        Err(BatchError::Arrow(_))
    ));
}

#[test]
fn selected_rows_go_on() {
    let b = input();
    let ctx = layout(&b, vec![a()]);
    let all = ints(&ready(continue_write_batch(b, &ctx)), 0);
    assert_eq!(all, vec![100, 101, 102, 103, 104]);
}

#[test]
fn lists_are_written_as_often_as_kept() {
    let mut lists = ListBuilder::new(Int32Builder::new());
    lists.append_value([Some(1), Some(2)]);
    lists.append_null();
    let lists: ListArray = lists.finish();
    let field = Field::new("l", lists.data_type().clone(), true);
    let b = batch(vec![
        ("_rowaddr", Arc::new(UInt64Array::from(vec![Some(5), None])) as ArrayRef, true),
        ("_rowid", Arc::new(UInt64Array::from(vec![Some(1), None])), true),
        ("__action", Arc::new(UInt8Array::from(vec![1, 2])), false),
        ("l", Arc::new(lists.clone()), true),
    ]);
    let ctx = layout(&b, vec![field]);
    assert!(is_writable(&b, &vec![1, 0, 0], &ctx));
    let written = ready(create_write_batch(&b, &vec![1, 0, 0], &ctx));
    let column = written.column(0).as_any().downcast_ref::<ListArray>().unwrap();
    assert!(column.is_null(0));
    assert_eq!(&column.value(1), &lists.value(0));
    assert_eq!(&column.value(2), &lists.value(0));
}

#[test]
fn layouts_fit_batches_with_enough_columns() {
    let b = input();
    let ctx = layout(&b, vec![a()]);
    let narrow = batch(vec![(
        "_rowaddr",
        Arc::new(UInt64Array::from(vec![1])) as ArrayRef,
        true,
    )]);
    assert!(ctx.is_fit_for(&b));
    assert!(!ctx.is_fit_for(&narrow));
}

#[test]
fn addresses_are_read_once_and_in_order() {
    let addrs = UInt64Column::from_options(vec![Some(9), None, Some(3), Some(9), Some(5)]);
    assert_eq!(addresses_to_read(&addrs), vec![3, 5, 9]);
    let none = UInt64Column::from_options(vec![None, None]);
    assert_eq!(addresses_to_read(&none), Vec::<u64>::new());
}

#[test]
fn addresses_are_located() {
    let taken = UInt64Column::from_values(vec![7, 5, 7]);
    let wanted = UInt64Column::from_options(vec![Some(5), None, Some(7)]);
    // Of two rows read from one address, the last counts.
    assert_eq!(locate(&taken, &wanted).unwrap(), vec![Some(1), None, Some(2)]);
    let wanted = UInt64Column::from_options(vec![Some(8), Some(6)]);
    assert!(matches!(
        locate(&taken, &wanted),
        Err(MergeError::RowNotTaken { row_addr: 8 })
    ));
}

#[test]
fn no_rows_make_no_batch() {
    assert_eq!(rows_to_write(vec![]), None);
    assert_eq!(rows_to_write(vec![4, 2]), Some(vec![4, 2]));
}

/// What is written of these rows, where the target holds words.
fn written_rows(b: &Batch, keep: Vec<u32>, ctx: &WriteStreamContext) -> RecordBatch {
    assert!(is_writable(b, &keep, ctx));
    match create_write_batch(b, &keep, ctx) {
        Ok(WriteStep::Ready(written)) => written.batch,
        Ok(WriteStep::ReadTarget { filtered, row_addrs, addrs }) => {
            let words: Vec<String> = addrs.iter().map(|a| format!("w{}", a)).collect();
            let taken = batch(vec![
                ("_rowaddr", Arc::new(UInt64Array::from(addrs)) as ArrayRef, false),
                ("c", Arc::new(StringArray::from(words)), false),
            ]);
            assert!(is_resumable(&taken, &row_addrs, ctx));
            resume_write_batch(&filtered, &row_addrs, &taken, ctx)
                .unwrap_or_else(|e| panic!("{:?}", e))
                .batch
        }
        Err(e) => panic!("{:?}", e),
    }
}

#[test]
fn joined_rows_are_written_in_turn() {
    let b = input();
    let ctx = layout(&b, vec![c(), a()]);
    let parts = [vec![2, 1, 0], vec![4, 1], vec![], vec![0, 0, 2]];
    for first in &parts {
        for second in &parts {
            let one = written_rows(&b, first.clone(), &ctx);
            let two = written_rows(&b, second.clone(), &ctx);
            let both = written_rows(&b, [first.clone(), second.clone()].concat(), &ctx);
            assert_eq!(both.num_rows(), one.num_rows() + two.num_rows());
            assert_eq!(strings(&both, 0), [strings(&one, 0), strings(&two, 0)].concat());
            assert_eq!(ints(&both, 1), [ints(&one, 1), ints(&two, 1)].concat());
        }
    }
    let twice = written_rows(&b, vec![0, 1, 0], &ctx);
    assert_eq!(strings(&twice, 0), vec![some("w20"), None, some("w20")]);
}

#[test]
fn repeated_addresses_are_filled_alike() {
    let mut lists = ListBuilder::new(Int32Builder::new());
    lists.append_value([Some(1), Some(2)]);
    lists.append_value([Some(3)]);
    let lists: ListArray = lists.finish();
    let b = batch(vec![
        ("_rowaddr", Arc::new(UInt64Array::from(vec![Some(9), Some(5), Some(9)])) as ArrayRef, true),
        ("_rowid", Arc::new(UInt64Array::from(vec![Some(1), Some(2), Some(1)])), true),
        ("__action", Arc::new(UInt8Array::from(vec![1, 1, 1])), false),
        ("a", Arc::new(Int32Array::from(vec![7, 8, 9])), false),
    ]);
    let l = Field::new("l", lists.data_type().clone(), true);
    let ctx = layout(&b, vec![a(), l]);
    match create_write_batch(&b, &vec![0, 1, 2], &ctx) {
        Ok(WriteStep::ReadTarget { filtered, row_addrs, addrs }) => {
            assert_eq!(addrs, vec![5, 9]);
            let taken = batch(vec![
                ("l", Arc::new(lists.clone()) as ArrayRef, true),
                ("_rowaddr", Arc::new(UInt64Array::from(addrs)), false),
            ]);
            assert!(is_resumable(&taken, &row_addrs, &ctx));
            let written = resume_write_batch(&filtered, &row_addrs, &taken, &ctx)
                .unwrap_or_else(|e| panic!("{:?}", e))
                .batch;
            let column = written.column(1).as_any().downcast_ref::<ListArray>().unwrap();
            assert_eq!(&column.value(0), &lists.value(1));
            assert_eq!(&column.value(1), &lists.value(0));
            assert_eq!(&column.value(2), &lists.value(1));
        }
        _ => panic!("the target need not be read"),
    }
}
