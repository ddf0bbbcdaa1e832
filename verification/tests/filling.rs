use std::sync::Arc;

use arrow_array::types::{Int16Type, Int32Type, Int8Type};
use arrow_array::{
    new_empty_array, Array, ArrayRef, DictionaryArray, FixedSizeBinaryArray, FixedSizeListArray,
    Int32Array, Int8Array, ListArray, RecordBatch, RunArray, StringArray, StructArray, UInt64Array,
    UInt8Array, UnionArray,
};
use arrow_schema::{DataType, Field, Fields, Schema, UnionFields};
use datafusion::arrow::buffer::OffsetBuffer;
use datafusion::arrow::util::display::array_value_to_string;
use merge_insert::arrow::{Batch, Column};
use merge_insert::filling::{fill_values, is_fillable};
use merge_insert::layout::prepare_stream_schema;
use merge_insert::write_batch::{create_write_batch, is_resumable, resume_write_batch, WriteStep};

fn item(t: &DataType) -> Arc<Field> {
    Arc::new(Field::new("item", t.clone(), true))
}

fn numbers() -> ArrayRef {
    Arc::new(Int32Array::from(vec![Some(7), Some(8), None]))
}

fn words() -> ArrayRef {
    Arc::new(StringArray::from(vec![Some("x"), None, Some("zz")]))
}

fn lists() -> ArrayRef {
    let values = words();
    let ends = OffsetBuffer::new(vec![0, 2, 2, 3].into());
    Arc::new(ListArray::new(item(values.data_type()), ends, values, None))
}

fn pairs() -> ArrayRef {
    let values: ArrayRef = Arc::new(Int32Array::from(vec![1, 2, 3, 4, 5, 6]));
    Arc::new(FixedSizeListArray::new(item(&DataType::Int32), 2, values, None))
}

fn codes() -> ArrayRef {
    let codes: DictionaryArray<Int8Type> =
        DictionaryArray::new(Int8Array::from(vec![2, 0, 2]), words());
    Arc::new(codes)
}

fn records() -> ArrayRef {
    let fields = Fields::from(vec![
        Field::new("n", DataType::Int32, true),
        Field::new("l", lists().data_type().clone(), true),
    ]);
    Arc::new(StructArray::new(fields, vec![numbers(), lists()], None))
}

/// A union of these values and numbers. Its values are the second, first and third
/// of these, with numbers between them.
fn union(values: ArrayRef, dense: bool) -> ArrayRef {
    let fields = UnionFields::from_iter(vec![
        (3, item(&DataType::Int32)),
        (5, item(values.data_type())),
    ]);
    let (ids, places, children) = if dense {
        let places = Int32Array::from(vec![1, 0, 0, 1, 2]).values().clone();
        (vec![5, 3, 5, 3, 5], Some(places), vec![numbers(), values])
    } else {
        (vec![5, 3, 5], None, vec![numbers(), values])
    };
    let ids = Int8Array::from(ids).values().clone();
    Arc::new(UnionArray::try_new(fields, ids, places, children).unwrap())
}

/// Runs of these values: the first twice, the second once, the third twice.
fn runs(values: ArrayRef) -> ArrayRef {
    let ends = Int32Array::from(vec![2, 3, 5]);
    let runs: RunArray<Int32Type> = RunArray::try_new(&ends, &values).unwrap();
    Arc::new(runs)
}

/// Arrays that have no null buffer, of several values each.
fn without_null_buffer() -> Vec<ArrayRef> {
    let mut arrays = Vec::new();
    for values in [words(), numbers(), lists(), pairs(), codes(), records()] {
        arrays.push(union(values.clone(), true));
        arrays.push(union(values.clone(), false));
        arrays.push(union(runs(values.clone()).slice(1, 3), false));
        arrays.push(runs(union(values.clone(), true).slice(1, 3)));
        arrays.push(runs(values.clone()));
        arrays.push(runs(values).slice(1, 3));
    }
    arrays
}

fn fill(array: &ArrayRef, positions: Vec<Option<u32>>) -> ArrayRef {
    let column = Column { array: array.clone() };
    assert!(is_fillable(&column, &positions));
    fill_values(&column, &positions).unwrap_or_else(|e| panic!("{:?}", e)).array
}

fn shown(array: &ArrayRef, i: usize) -> String {
    array_value_to_string(array, i).unwrap()
}

fn is_null(array: &ArrayRef, i: usize) -> bool {
    array.logical_nulls().is_some_and(|nulls| nulls.is_null(i))
}

#[test]
fn missing_values_are_null_in_unions_and_runs() {
    let positions = vec![None, Some(2), None, None, Some(0), Some(1), Some(2), None, Some(0)];
    for array in without_null_buffer() {
        let filled = fill(&array, positions.clone());
        assert_eq!(filled.data_type(), array.data_type());
        assert_eq!(filled.len(), positions.len());
        for (i, position) in positions.iter().enumerate() {
            match position {
                None => assert!(is_null(&filled, i), "{:?}", array.data_type()),
                Some(p) => {
                    let p = *p as usize;
                    assert_eq!(is_null(&filled, i), is_null(&array, p));
                    assert_eq!(shown(&filled, i), shown(&array, p));
                }
            }
        }
    }
}

#[test]
fn nothing_but_missing_values_is_null() {
    for array in without_null_buffer() {
        for from in [array.clone(), array.slice(0, 0)] {
            let filled = fill(&from, vec![None, None]);
            assert_eq!(filled.data_type(), array.data_type());
            assert!(is_null(&filled, 0) && is_null(&filled, 1));
        }
        assert_eq!(fill(&array, vec![]).len(), 0);
        // Without a missing one they are taken.
        let taken = fill(&array, vec![Some(1), Some(1), Some(0)]);
        assert_eq!(shown(&taken, 1), shown(&array, 1));
        assert_eq!(shown(&taken, 2), shown(&array, 0));
    }
    let empty = new_empty_array(&DataType::Utf8);
    assert!(is_null(&fill(&empty, vec![None]), 0));
}

#[test]
fn missing_values_count_too() {
    let ends = Int32Array::from(vec![1]);
    let fillable = |array: &ArrayRef, positions: Vec<Option<u32>>| {
        is_fillable(&Column { array: array.clone() }, &positions)
    };
    // Each is a run of its own, with a value.
    let heavy = FixedSizeBinaryArray::try_from_iter(vec![vec![0u8; 1 << 20]].into_iter()).unwrap();
    let runs: RunArray<Int32Type> = RunArray::try_new(&ends, &heavy).unwrap();
    let runs: ArrayRef = Arc::new(runs);
    assert!(fillable(&runs, [vec![Some(0); 2046], vec![None]].concat()));
    assert!(!fillable(&runs, [vec![Some(0); 2047], vec![None]].concat()));
    assert!(!fillable(&runs, [vec![None; 2047], vec![Some(0)]].concat()));
    assert!(fillable(&runs, vec![Some(0); 3000]));
    // Run ends go on.
    let short: RunArray<Int16Type> = vec!["a", "a", "b"].into_iter().collect();
    let short: ArrayRef = Arc::new(short);
    assert!(fillable(&short, [vec![None; 32_000], vec![Some(0); 767]].concat()));
    assert!(!fillable(&short, [vec![None; 32_000], vec![Some(0); 768]].concat()));
    // The words of a dictionary are copied, and the keys have to go as far.
    for (count, fine) in [(127, true), (128, false)] {
        let all: Vec<String> = (0..count).map(|i| format!("w{}", i)).collect();
        let codes: DictionaryArray<Int8Type> =
            DictionaryArray::new(Int8Array::from(vec![5, 6, 5]), Arc::new(StringArray::from(all)));
        let array = union(Arc::new(codes), true);
        assert!(fillable(&array, vec![Some(0)]));
        assert_eq!(fillable(&array, vec![Some(0), None]), fine);
    }
}

fn batch(columns: Vec<(&str, ArrayRef)>) -> Batch {
    let fields: Vec<Field> = columns
        .iter()
        .map(|(name, array)| Field::new(*name, array.data_type().clone(), true))
        .collect();
    let arrays = columns.into_iter().map(|c| c.1).collect();
    Batch {
        batch: RecordBatch::try_new(Arc::new(Schema::new(fields)), arrays).unwrap(),
    }
}

#[test]
fn rows_without_an_address_get_null_of_unions_and_runs() {
    let addrs = vec![Some(30), None, Some(10), None, Some(20)];
    let input = batch(vec![
        ("_rowaddr", Arc::new(UInt64Array::from(addrs.clone()))),
        ("_rowid", Arc::new(UInt64Array::from(addrs))),
        ("__action", Arc::new(UInt8Array::from(vec![1, 2, 1, 2, 1]))),
        ("a", Arc::new(Int32Array::from(vec![1, 2, 3, 4, 5]))),
    ]);
    for array in without_null_buffer() {
        let values = array.slice(0, 3);
        let dataset = Schema::new(vec![
            Field::new("u", values.data_type().clone(), true),
            Field::new("a", DataType::Int32, true),
        ]);
        let ctx = prepare_stream_schema(&input.batch.schema(), &dataset, "__source").unwrap();
        match create_write_batch(&input, &vec![0, 1, 2, 3, 4], &ctx) {
            Ok(WriteStep::ReadTarget { filtered, row_addrs, addrs }) => {
                assert_eq!(addrs, vec![10, 20, 30]);
                let taken = batch(vec![
                    ("_rowaddr", Arc::new(UInt64Array::from(vec![20, 10, 30]))),
                    ("u", values.clone()),
                ]);
                assert!(is_resumable(&taken, &row_addrs, &ctx));
                let written = resume_write_batch(&filtered, &row_addrs, &taken, &ctx)
                    .unwrap_or_else(|e| panic!("{:?}", e))
                    .batch;
                let column = written.column(0);
                for (i, p) in [(0, 2), (2, 1), (4, 0)] {
                    assert_eq!(shown(column, i), shown(&values, p));
                    assert_eq!(is_null(column, i), is_null(&values, p));
                }
                assert!(is_null(column, 1) && is_null(column, 3));
            }
            _ => panic!("the target need not be read"),
        }
    }
}
