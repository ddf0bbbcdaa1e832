use std::sync::Arc;

use arrow_array::types::{Int16Type, Int32Type, Int64Type, Int8Type};
use arrow_array::{
    new_empty_array, new_null_array, Array, ArrayRef, DictionaryArray, FixedSizeBinaryArray,
    FixedSizeListArray, Int32Array, Int64Array, Int8Array, ListArray, ListViewArray, NullArray,
    RecordBatch, RunArray, StringArray, StructArray, UInt64Array, UInt8Array, UnionArray,
};
use arrow_schema::{DataType, Field, Fields, Schema, TimeUnit, UnionFields, UnionMode};
use datafusion::arrow::buffer::OffsetBuffer;
use datafusion::arrow::util::display::array_value_to_string;
use merge_insert::arrow::{Batch, Column};
use merge_insert::layout::prepare_stream_schema;
use merge_insert::taking::is_takeable;
use merge_insert::types::can_hold_nulls;
use merge_insert::write_batch::{create_write_batch, is_writable, WriteStep};

fn item(t: DataType) -> Arc<Field> {
    Arc::new(Field::new("item", t, true))
}

fn dictionary(k: DataType, v: DataType) -> DataType {
    DataType::Dictionary(Box::new(k), Box::new(v))
}

fn runs(ends: DataType, values: DataType) -> DataType {
    DataType::RunEndEncoded(Arc::new(Field::new("run_ends", ends, false)), item(values))
}

fn union(t: DataType, mode: UnionMode) -> DataType {
    DataType::Union(UnionFields::from_iter(vec![(3, item(t))]), mode)
}

fn structure(parts: Vec<DataType>) -> DataType {
    let fields = parts.into_iter().map(|t| Field::new("f", t, true));
    DataType::Struct(Fields::from_iter(fields))
}

fn entries(inside: DataType) -> DataType {
    DataType::Map(Arc::new(Field::new("entries", inside, false)), false)
}

fn vector(size: i32) -> DataType {
    DataType::FixedSizeList(item(DataType::Float32), size)
}

#[test]
fn plain_nulls_fit_always() {
    for t in [
        DataType::Null,
        DataType::Boolean,
        DataType::Int32,
        DataType::Float16,
        DataType::Utf8,
        DataType::BinaryView,
        DataType::Date64,
        DataType::Duration(TimeUnit::Second),
        DataType::Decimal128(5, 2),
        DataType::List(item(DataType::Int8)),
        DataType::LargeListView(item(DataType::Int8)),
    ] {
        assert!(can_hold_nulls(&t, 0));
        assert!(can_hold_nulls(&t, u64::from(u32::MAX)));
    }
}

#[test]
fn values_of_fixed_size_are_counted() {
    assert!(can_hold_nulls(&DataType::FixedSizeBinary(16), 134_217_727));
    assert!(!can_hold_nulls(&DataType::FixedSizeBinary(16), 134_217_728));
    assert!(!can_hold_nulls(&DataType::FixedSizeBinary(16), 200_000_000));
    assert!(can_hold_nulls(&DataType::FixedSizeBinary(i32::MAX), 1));
    assert!(!can_hold_nulls(&DataType::FixedSizeBinary(i32::MAX), 2));
    assert!(can_hold_nulls(&DataType::FixedSizeBinary(0), u64::from(u32::MAX)));
    assert!(!can_hold_nulls(&DataType::FixedSizeBinary(-1), 0));
    assert!(can_hold_nulls(&vector(1536), 10_000_000));
    assert!(!can_hold_nulls(&vector(-1), 0));
    // Each field of a struct has its own numbers.
    assert!(can_hold_nulls(&structure(vec![vector(1536), vector(1536)]), 8192));
    // Lists of lists multiply.
    let deep = DataType::FixedSizeList(item(vector(1 << 30)), 1 << 26);
    assert!(can_hold_nulls(&deep, 1));
    assert!(!can_hold_nulls(&deep, 2));
    assert!(can_hold_nulls(&structure(vec![deep.clone(), deep.clone()]), 1));
    let deeper = DataType::FixedSizeList(item(deep), 1 << 30);
    assert!(!can_hold_nulls(&deeper, 1));
    assert!(can_hold_nulls(&deeper, 0));
}

#[test]
fn times_have_their_units() {
    assert!(can_hold_nulls(&DataType::Time32(TimeUnit::Millisecond), 3));
    assert!(!can_hold_nulls(&DataType::Time32(TimeUnit::Nanosecond), 0));
    assert!(can_hold_nulls(&DataType::Time64(TimeUnit::Nanosecond), 3));
    assert!(!can_hold_nulls(&DataType::Time64(TimeUnit::Second), 0));
    let times = DataType::List(item(DataType::Time64(TimeUnit::Second)));
    assert!(!can_hold_nulls(&times, 0));
}

#[test]
fn dictionaries_have_integers_for_keys() {
    for v in [
        DataType::Utf8,
        DataType::Boolean,
        DataType::Date32,
        DataType::Time64(TimeUnit::Microsecond),
        DataType::List(item(DataType::Int32)),
    ] {
        assert!(can_hold_nulls(&dictionary(DataType::Int32, v.clone()), u64::from(u32::MAX)));
        assert!(!can_hold_nulls(&dictionary(DataType::Utf8, v), 0));
    }
    assert!(!can_hold_nulls(&dictionary(DataType::Int32, DataType::FixedSizeBinary(-1)), 0));
}

#[test]
fn unions_and_runs_are_counted() {
    assert!(can_hold_nulls(&union(DataType::Int32, UnionMode::Sparse), u64::from(u32::MAX)));
    assert!(can_hold_nulls(&union(DataType::Int32, UnionMode::Dense), i32::MAX as u64));
    assert!(!can_hold_nulls(&union(DataType::Int32, UnionMode::Dense), i32::MAX as u64 + 1));
    for mode in [UnionMode::Sparse, UnionMode::Dense] {
        assert!(!can_hold_nulls(&DataType::Union(UnionFields::empty(), mode), 0));
        assert!(!can_hold_nulls(&union(DataType::FixedSizeBinary(-1), mode), 0));
    }
    assert!(can_hold_nulls(&runs(DataType::Int16, DataType::Utf8), 32767));
    assert!(!can_hold_nulls(&runs(DataType::Int16, DataType::Utf8), 32768));
    assert!(can_hold_nulls(&runs(DataType::Int32, DataType::Utf8), i32::MAX as u64));
    assert!(!can_hold_nulls(&runs(DataType::Int32, DataType::Utf8), i32::MAX as u64 + 1));
    assert!(can_hold_nulls(&runs(DataType::Int64, DataType::Utf8), u64::from(u32::MAX)));
    assert!(!can_hold_nulls(&runs(DataType::Utf8, DataType::Utf8), 0));
    assert!(!can_hold_nulls(&runs(DataType::Int32, DataType::FixedSizeBinary(-1)), 0));
}

#[test]
fn maps_have_keys_and_values() {
    let pair = structure(vec![DataType::Utf8, DataType::Int32]);
    assert!(can_hold_nulls(&entries(pair), u64::from(u32::MAX)));
    assert!(!can_hold_nulls(&entries(structure(vec![DataType::Utf8])), 0));
    assert!(!can_hold_nulls(&entries(DataType::Utf8), 0));
}

/// Data types of which NULLs can be built.
fn buildable() -> Vec<DataType> {
    vec![
        DataType::Null,
        DataType::Boolean,
        DataType::Utf8,
        DataType::LargeBinary,
        DataType::Utf8View,
        DataType::FixedSizeBinary(16),
        DataType::Date32,
        DataType::Time32(TimeUnit::Second),
        DataType::Timestamp(TimeUnit::Nanosecond, None),
        DataType::Decimal256(9, 3),
        DataType::List(item(DataType::Utf8)),
        DataType::ListView(item(DataType::Utf8)),
        DataType::List(Arc::new(Field::new(
            "item",
            DataType::ListView(item(DataType::Int8)),
            true,
        ))),
        vector(3),
        structure(vec![DataType::Int32, vector(2)]),
        union(DataType::Utf8, UnionMode::Sparse),
        union(DataType::Utf8, UnionMode::Dense),
        dictionary(DataType::Int8, DataType::Utf8),
        dictionary(DataType::UInt32, DataType::Boolean),
        dictionary(DataType::Int32, DataType::Date32),
        entries(structure(vec![DataType::Utf8, DataType::Int32])),
        runs(DataType::Int16, DataType::Utf8),
    ]
}

fn control(addrs: Vec<Option<u64>>) -> Vec<(Field, ArrayRef)> {
    let n = addrs.len();
    let addr = Field::new("_rowaddr", DataType::UInt64, true);
    let id = Field::new("_rowid", DataType::UInt64, true);
    let action = Field::new("__action", DataType::UInt8, false);
    let codes = UInt8Array::from(vec![1; n]);
    vec![
        (addr, Arc::new(UInt64Array::from(addrs.clone())) as ArrayRef),
        (id, Arc::new(UInt64Array::from(addrs))),
        (action, Arc::new(codes)),
    ]
}

fn batch(columns: Vec<(Field, ArrayRef)>) -> Batch {
    let (fields, arrays): (Vec<Field>, Vec<ArrayRef>) = columns.into_iter().unzip();
    Batch {
        batch: RecordBatch::try_new(Arc::new(Schema::new(fields)), arrays).unwrap(),
    }
}

fn write(b: &Batch, dataset: Vec<Field>, keep: Vec<u32>) -> RecordBatch {
    let ctx = prepare_stream_schema(&b.batch.schema(), &Schema::new(dataset), "__source").unwrap();
    assert!(is_writable(b, &keep, &ctx));
    match create_write_batch(b, &keep, &ctx) {
        Ok(WriteStep::Ready(written)) => written.batch,
        Ok(_) => panic!("the target has to be read"),
        Err(e) => panic!("{:?}", e),
    }
}

#[test]
fn new_rows_get_null_of_every_type() {
    for t in buildable() {
        let mut columns = control(vec![None, None, None]);
        let a = Field::new("a", DataType::Int32, false);
        columns.push((a.clone(), Arc::new(Int32Array::from(vec![1, 2, 3]))));
        let missing = Field::new("m", t.clone(), false);
        let written = write(&batch(columns), vec![missing, a], vec![0, 1, 2]);
        let column = written.column(0);
        assert_eq!(column.data_type(), &t);
        assert_eq!(column.len(), 3);
        assert_eq!(column.logical_null_count(), 3, "{:?}", t);
    }
}

#[test]
fn rows_of_every_type_are_written_as_often_as_kept() {
    for t in buildable() {
        let mut columns = control(vec![None, None]);
        let a = Field::new("a", t.clone(), true);
        columns.push((a.clone(), new_null_array(&t, 2)));
        let b = batch(columns);
        let written = write(&b, vec![a.clone()], vec![1, 0, 1, 1]);
        assert_eq!(written.column(0).data_type(), &t);
        assert_eq!(written.num_rows(), 4);
        // Nothing kept gives a batch without rows.
        assert_eq!(write(&b, vec![a], vec![]).num_rows(), 0);
    }
}

fn takes(array: &ArrayRef, positions: Vec<Option<u32>>) -> bool {
    is_takeable(&Column { array: array.clone() }, &positions)
}

/// The value at the first position, this often.
fn repeats(array: &ArrayRef, times: usize) -> bool {
    takes(array, vec![Some(0); times])
}

fn list_of(ends: Vec<i32>, values: ArrayRef) -> ArrayRef {
    let field = item(values.data_type().clone());
    Arc::new(ListArray::new(field, OffsetBuffer::new(ends.into()), values, None))
}

#[test]
fn lists_are_taken_as_often_as_their_offsets_count() {
    let values = || new_null_array(&DataType::Null, 1000);
    let lists = list_of(vec![0, 1000], values());
    assert!(takes(&lists, vec![Some(0), None, Some(0)]));
    assert!(repeats(&lists, 2_147_483));
    assert!(!repeats(&lists, 2_147_484));
    // What counts is what is taken.
    let short = list_of(vec![0, 1, 1000], values());
    assert!(repeats(&short, 3_000_000));
    assert!(!takes(&short, vec![Some(1); 3_000_000]));
    // Also inside other arrays.
    let deep = list_of(vec![0, 1], lists);
    assert!(repeats(&deep, 2_147_483));
    assert!(!repeats(&deep, 2_147_484));
    // Plain values have no offsets.
    let plain: ArrayRef = Arc::new(Int32Array::from(vec![7]));
    assert!(repeats(&plain, 3_000_000));
}

#[test]
fn strings_are_taken_though_they_may_not_fit() {
    let word: ArrayRef = Arc::new(StringArray::from(vec!["w".repeat(1000)]));
    assert!(repeats(&word, 3_000_000));
    // Inside a list they have to fit.
    let lists = list_of(vec![0, 1], word);
    assert!(repeats(&lists, 2_147_483));
    assert!(!repeats(&lists, 2_147_484));
    let codes = DictionaryArray::<Int32Type>::from_iter(vec!["x", "y"]);
    assert!(repeats(&list_of(vec![0, 2], Arc::new(codes)), 3_000_000));
}

#[test]
fn lists_of_codes_have_room_for_their_words() {
    for (count, fine) in [(127, true), (128, false)] {
        let words: Vec<String> = (0..count).map(|i| format!("w{}", i)).collect();
        let codes: DictionaryArray<Int8Type> =
            DictionaryArray::new(Int8Array::from(vec![5, 6]), Arc::new(StringArray::from(words)));
        let codes: ArrayRef = Arc::new(codes);
        assert!(takes(&codes, vec![Some(1)]));
        assert_eq!(takes(&list_of(vec![0, 2], codes), vec![Some(0)]), fine);
    }
}

/// Arrays of 8192 values, each of which holds a list of ten numbers.
fn wholesale() -> Vec<ArrayRef> {
    let rows = 8192;
    let ends = |n: i32| (0..=rows).map(|i| i * n).collect::<Vec<i32>>();
    let numbers = |n: i32| Arc::new(Int32Array::from_iter_values(0..rows * n)) as ArrayRef;
    let lists = list_of(ends(10), numbers(10));
    let starts = Int32Array::from_iter_values(0..rows).values().clone();
    let sizes = Int32Array::from(vec![10; rows as usize]).values().clone();
    let views: ArrayRef =
        Arc::new(ListViewArray::new(item(DataType::Int32), starts, sizes, numbers(10), None));
    let fields = UnionFields::from_iter(vec![(7, item(lists.data_type().clone()))]);
    let ids = Int8Array::from(vec![7; rows as usize]).values().clone();
    let places = Int32Array::from_iter_values(0..rows).values().clone();
    let union = UnionArray::try_new(fields, ids, Some(places), vec![lists.clone()]).unwrap();
    let runs: RunArray<Int32Type> =
        RunArray::try_new(&Int32Array::from_iter_values(1..=rows), &lists).unwrap();
    let union: ArrayRef = Arc::new(union);
    let runs: ArrayRef = Arc::new(runs);
    vec![
        list_of(ends(1), views.clone()),
        list_of(ends(1), union.clone()),
        list_of(ends(1), runs.clone()),
        lists,
        views,
        union,
        runs,
    ]
}

#[test]
fn large_batches_of_lists_are_written() {
    for array in wholesale() {
        let n = array.len();
        let mut columns = control(vec![None; n]);
        let a = Field::new("a", array.data_type().clone(), true);
        columns.push((a.clone(), array.clone()));
        let turned: Vec<u32> = (0..n as u32).rev().chain(0..3).collect();
        let written = write(&batch(columns), vec![a], turned);
        let column = written.column(0);
        assert_eq!(column.len(), n + 3);
        for (to, from) in [(0, n - 1), (n - 1, 0), (n + 2, 2)] {
            let shown = |c: &ArrayRef, i| array_value_to_string(c, i).unwrap();
            assert_eq!(shown(column, to), shown(&array, from));
        }
    }
}

#[test]
fn children_of_a_struct_keep_to_their_fields() {
    // The values of the dictionary have a NULL, its keys have none.
    let words: DictionaryArray<Int32Type> = DictionaryArray::new(
        Int32Array::from(vec![0, 1]),
        Arc::new(StringArray::from(vec![Some("x"), None])),
    );
    for nullable in [true, false] {
        let field = Field::new("w", words.data_type().clone(), nullable);
        let inside = batch(vec![(field, Arc::new(words.clone()))]).batch;
        let outside: ArrayRef = Arc::new(StructArray::from(inside));
        assert!(takes(&outside, vec![Some(0), None, Some(0)]));
        assert_eq!(takes(&outside, vec![Some(0), Some(1)]), nullable);
    }
}

#[test]
fn nothing_is_missing_where_a_union_is_empty() {
    for mode in [UnionMode::Sparse, UnionMode::Dense] {
        let t = union(DataType::Int32, mode);
        let empty = new_empty_array(&t);
        assert!(takes(&empty, vec![]));
        assert!(!takes(&empty, vec![None]));
        assert!(takes(&new_null_array(&t, 1), vec![None]));
    }
    let plain = new_empty_array(&DataType::Utf8);
    assert!(takes(&plain, vec![None]));
}

#[test]
fn unions_are_taken() {
    let fields = UnionFields::from_iter(vec![(0, item(DataType::Int32)), (4, item(DataType::Utf8))]);
    let ids = Int8Array::from(vec![4, 0, 4]).values().clone();
    let offsets = Int32Array::from(vec![0, 0, 0]).values().clone();
    let children: Vec<ArrayRef> = vec![
        Arc::new(Int32Array::from(vec![8])),
        Arc::new(StringArray::from(vec!["y"])),
    ];
    let dense = UnionArray::try_new(fields, ids, Some(offsets), children).unwrap();
    let dense: ArrayRef = Arc::new(dense);
    assert!(takes(&dense, vec![Some(2), Some(1), Some(2)]));
    let mut columns = control(vec![None, None, None]);
    let u = Field::new("u", dense.data_type().clone(), true);
    columns.push((u.clone(), dense));
    let written = write(&batch(columns), vec![u], vec![2, 1, 2]);
    let column = written.column(0).as_any().downcast_ref::<UnionArray>().unwrap();
    assert_eq!(column.type_ids().to_vec(), vec![4, 0, 4]);
}

#[test]
fn fixed_sizes_limit_what_is_taken() {
    let bytes: ArrayRef =
        Arc::new(FixedSizeBinaryArray::try_from_iter(vec![vec![0u8; 1 << 20]].into_iter()).unwrap());
    assert!(repeats(&bytes, 2047));
    assert!(!repeats(&bytes, 2048));
    let nothing = new_null_array(&DataType::Null, 1 << 20);
    let lists: ArrayRef = Arc::new(FixedSizeListArray::new(
        item(DataType::Null),
        1 << 20,
        nothing,
        None,
    ));
    assert!(repeats(&lists, 4095));
    assert!(!repeats(&lists, 4096));
    // Positions inside have 32 bits.
    let nothing: ArrayRef = Arc::new(NullArray::new(5000 << 20));
    let many: ArrayRef =
        Arc::new(FixedSizeListArray::new(item(DataType::Null), 1 << 20, nothing, None));
    assert!(takes(&many, vec![Some(4094), None]));
    assert!(!takes(&many, vec![Some(4095)]));
}

#[test]
fn run_ends_limit_what_is_taken() {
    let short: RunArray<Int16Type> = vec!["a", "a", "b"].into_iter().collect();
    let short: ArrayRef = Arc::new(short);
    assert!(repeats(&short, 32767));
    assert!(!repeats(&short, 32768));
    let long: RunArray<Int32Type> = vec!["a", "a", "b"].into_iter().collect();
    let long: ArrayRef = Arc::new(long);
    assert!(repeats(&long, 32768));
}

/// A single run of values, of this length.
fn long_run(len: i64, value: ArrayRef) -> ArrayRef {
    let runs: RunArray<Int64Type> =
        RunArray::try_new(&Int64Array::from(vec![len]), &value).unwrap();
    Arc::new(runs)
}

#[test]
fn lists_set_room_aside_for_what_they_might_hold() {
    let number = || Arc::new(Int32Array::from(vec![7])) as ArrayRef;
    let over = |len: i64| list_of(vec![0, 0], long_run(len, number()));
    assert!(repeats(&over(1 << 20), 3));
    assert!(!repeats(&over(1 << 60), 1));
    // The room grows with the positions and shrinks with the lists.
    assert!(repeats(&over(1 << 57), 0));
    assert!(!repeats(&over(1 << 57), 1));
    let four = list_of(vec![0, 0, 0, 0, 0], long_run(1 << 58, number()));
    assert!(!repeats(&four, 2));
    // It is for all values of lists of fixed size.
    let values = long_run(1 << 50, number());
    let pages: ArrayRef =
        Arc::new(FixedSizeListArray::new(item(values.data_type().clone()), 1 << 30, values, None));
    let books = list_of(vec![0, 0], pages);
    assert!(repeats(&books, (1 << 7) - 1));
    assert!(!repeats(&books, 1 << 7));
    // Plain runs need none.
    assert!(repeats(&long_run(1 << 60, number()), 3));
}

/// Values of a mebibyte.
fn heavy(count: usize) -> ArrayRef {
    let values = vec![vec![0u8; 1 << 20]; count];
    Arc::new(FixedSizeBinaryArray::try_from_iter(values.into_iter()).unwrap())
}

#[test]
fn runs_are_taken_once_where_their_values_follow_each_other() {
    let ends = Int32Array::from(vec![5000, 5001]);
    let runs: RunArray<Int32Type> = RunArray::try_new(&ends, &heavy(2)).unwrap();
    let runs: ArrayRef = Arc::new(runs);
    assert!(takes(&runs, (0..5001).map(Some).collect()));
    let turns = |n: u32| (0..n).map(|i| Some(5000 * (i % 2))).collect::<Vec<Option<u32>>>();
    assert!(takes(&runs, turns(2047)));
    assert!(!takes(&runs, turns(2048)));
    // Inside a list, each list brings its own.
    let lists = list_of(vec![0, 5000, 5001], runs);
    assert!(repeats(&lists, 2047));
    assert!(!repeats(&lists, 2048));
    assert!(takes(&lists, vec![Some(0), None, Some(1)]));
}

#[test]
fn members_of_a_union_are_counted_by_themselves() {
    let fields =
        UnionFields::from_iter(vec![(0, item(DataType::Int32)), (4, item(heavy(1).data_type().clone()))]);
    let ids = Int8Array::from(vec![4, 0]).values().clone();
    let places = Int32Array::from(vec![0, 0]).values().clone();
    let children: Vec<ArrayRef> = vec![Arc::new(Int32Array::from(vec![8])), heavy(1)];
    let dense = UnionArray::try_new(fields, ids, Some(places), children).unwrap();
    let dense: ArrayRef = Arc::new(dense);
    assert!(takes(&dense, vec![Some(1); 3000]));
    assert!(repeats(&dense, 2047));
    assert!(!repeats(&dense, 2048));
    // Where one is missing, the first value stands for it.
    assert!(!takes(&dense, vec![None; 2048]));
    let both = [vec![Some(0); 2047], vec![Some(1); 2047]].concat();
    assert!(takes(&dense, both.clone()));
    let lists = list_of(vec![0, 1, 2], dense);
    assert!(takes(&lists, both));
    assert!(!repeats(&lists, 2048));
}
