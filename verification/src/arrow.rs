//! Arrow schemas, arrays and record batches, as far as the merge reads them.
//!
//! Arrow's values are opaque here. What is known of them is what the items
//! below say of their models.

use std::sync::Arc;

use crate::columns::{UInt64Column, UInt64Model};
use crate::copying::can_interleave;
use crate::taking::{can_count, can_take, from_rows};
use crate::types::{
    field_model, field_models, nulls_fit, type_model, type_number, FieldModel, LeafType, TypeModel,
};
use arrow_array::cast::AsArray;
use arrow_array::types::{Int16Type, Int32Type, Int64Type};
use arrow_array::{Array, ArrayRef, RecordBatch, UInt32Array, UInt64Array, UInt8Array};
use arrow_schema::{ArrowError, DataType, Field, Schema};
use vstd::prelude::*;

verus! {

/// What is known of an array.
pub struct ArrayModel {
    /// Its data type, as a number in the sense of `FieldModel`.
    pub data_type: int,
    /// What its data type consists of.
    pub inside: TypeModel,
    /// Its values, as numbers: values have the same number if and only if they
    /// are the same. NULL is `None`, also where a dictionary, a union or a run
    /// says so.
    pub cells: Seq<Option<int>>,
    /// Which of its values its own null buffer counts as valid, if it has one.
    pub mask: Option<Seq<bool>>,
    /// The number of NULLs that its own null buffer marks.
    pub null_count: nat,
    /// Its slots, if it is a `UInt64Array`.
    pub uint64: Option<UInt64Model>,
    /// Its slots, if it is a `UInt8Array`.
    pub uint8: Option<Seq<u8>>,
    /// The sizes of its own buffers, in bytes.
    pub buffers: Seq<usize>,
    /// Which values of the array right inside it each of its values holds, if it
    /// is one of lists or maps: where they start and where they end. Of strings and
    /// bytes, which bytes.
    pub spans: Seq<(usize, usize)>,
    /// Which values of the array right inside it each of its values holds, if it
    /// is one of list views: where they start and how many they are.
    pub views: Seq<(usize, usize)>,
    /// Where each of its values is: of a dense union, in the array of its member;
    /// of runs, which run it belongs to.
    pub places: Seq<usize>,
    /// The type ids of its values, if it is a union.
    pub type_ids: Seq<i8>,
    /// The arrays right inside it, in the order of its data type: the fields of
    /// a struct, the members of a union, the run ends and values of runs, and
    /// otherwise the one array of values.
    pub parts: Seq<ArrayModel>,
    /// Whether it is as `arrow_array::new_null_array` builds it.
    pub all_null: bool,
}

/// The first field of this name.
pub open spec fn first_named(fields: Seq<FieldModel>, name: Seq<char>) -> Option<int>
    decreases fields.len(),
{
    if fields.len() == 0 {
        None
    } else {
        match first_named(fields.drop_last(), name) {
            Some(i) => Some(i),
            None => if fields.last().name == name {
                Some(fields.len() - 1)
            } else {
                None
            },
        }
    }
}

/// An Arrow schema.
#[verifier::external_type_specification]
#[verifier::external_body]
pub struct ExSchema(Schema);

/// An error of an Arrow function.
#[verifier::external_type_specification]
#[verifier::external_body]
pub struct ExArrowError(ArrowError);

/// A record batch. `RecordBatch` indexes to trait objects and so cannot be
/// named in verified code; this holds one.
#[verifier::external_body]
pub struct Batch {
    pub batch: RecordBatch,
}

impl Batch {
    /// The number of rows.
    pub fn num_rows(&self) -> (r: usize)
        ensures
            r == batch_rows(*self),
    {
        num_rows(self)
    }
}

/// An array of any type. It holds an `ArrayRef`, which is a trait object.
#[verifier::external_body]
pub struct Column {
    pub array: ArrayRef,
}

/// The fields of a schema.
pub uninterp spec fn schema_fields(s: Schema) -> Seq<FieldModel>;

/// The fields of a batch.
pub uninterp spec fn batch_fields(b: Batch) -> Seq<FieldModel>;

/// The columns of a batch.
pub uninterp spec fn batch_columns(b: Batch) -> Seq<ArrayModel>;

/// The number of rows of a batch.
pub uninterp spec fn batch_rows(b: Batch) -> nat;

/// What an array holds.
pub uninterp spec fn column_model(c: Column) -> ArrayModel;

/// What arrays hold.
pub open spec fn column_models(columns: Seq<Column>) -> Seq<ArrayModel> {
    columns.map_values(|c: Column| column_model(c))
}

/// The columns can be put together under the fields: as many of one as of the
/// other, at least one, of the same data types and all of one length, and
/// without NULL where the field does not allow it.
pub open spec fn conforms(fields: Seq<FieldModel>, columns: Seq<ArrayModel>) -> bool {
    &&& fields.len() == columns.len()
    &&& columns.len() > 0
    &&& forall|k: int|
        #![trigger columns[k]]
        0 <= k < columns.len() ==> {
            &&& columns[k].data_type == fields[k].data_type
            &&& columns[k].cells.len() == columns[0].cells.len()
            &&& fields[k].nullable || columns[k].null_count == 0
        }
}

/// `to` holds the rows `rows` of `from`, in this order.
pub open spec fn takes_rows(from: ArrayModel, rows: Seq<u32>, to: ArrayModel) -> bool {
    &&& to.data_type == from.data_type
    &&& to.cells.len() == rows.len()
    &&& forall|i: int|
        0 <= i < rows.len() ==> #[trigger] to.cells[i] == from.cells[rows[i] as int]
    &&& from.null_count == 0 ==> to.null_count == 0
    &&& match (from.uint64, to.uint64) {
        (Some(f), Some(t)) => {
            &&& t.values == rows.map_values(|r: u32| f.values[r as int])
            &&& t.valid == rows.map_values(|r: u32| f.valid[r as int])
        },
        (None, None) => true,
        _ => false,
    }
}

/// The number of a schema's fields: `Schema::fields` and the length of what it
/// returns.
#[verifier::external_body]
pub(crate) fn num_fields(schema: &Schema) -> (r: usize)
    ensures
        r == schema_fields(*schema).len(),
{
    schema.fields().len()
}

/// `Schema::field`: the field at a position. It panics past the end.
pub assume_specification[ Schema::field ](schema: &Schema, i: usize) -> (r: &Field)
    requires
        i < schema_fields(*schema).len(),
    ensures
        field_model(*r) == schema_fields(*schema)[i as int],
;

/// `Schema::column_with_name`: the first field of this name and its position.
#[verifier::external_body]
pub(crate) fn column_with_name(schema: &Schema, name: &str) -> (r: Option<usize>)
    ensures
        match r {
            Some(i) => first_named(schema_fields(*schema), name@) == Some(i as int),
            None => first_named(schema_fields(*schema), name@) is None,
        },
{
    schema.column_with_name(name).map(|(i, _)| i)
}

/// `Schema::new`: a schema of these fields, without metadata.
#[verifier::external_body]
pub(crate) fn new_schema(fields: Vec<Field>) -> (r: Schema)
    ensures
        schema_fields(r) == field_models(fields@),
{
    Schema::new(fields)
}

/// `RecordBatch::num_rows`: the number of rows.
#[verifier::external_body]
pub(crate) fn num_rows(batch: &Batch) -> (r: usize)
    ensures
        r == batch_rows(*batch),
{
    batch.batch.num_rows()
}

/// `RecordBatch::num_columns`: the number of columns, which is also the number
/// of fields.
#[verifier::external_body]
pub(crate) fn num_columns(batch: &Batch) -> (r: usize)
    ensures
        r == batch_columns(*batch).len(),
        r == batch_fields(*batch).len(),
{
    batch.batch.num_columns()
}

/// `RecordBatch::column`: the column at a position, which has a value for each
/// row. It panics past the end.
#[verifier::external_body]
pub(crate) fn column_at(batch: &Batch, i: usize) -> (r: Column)
    requires
        i < batch_columns(*batch).len(),
    ensures
        column_model(r) == batch_columns(*batch)[i as int],
        column_model(r).cells.len() == batch_rows(*batch),
{
    Column { array: batch.batch.column(i).clone() }
}

/// `RecordBatch::column_by_name`: the first column of this name, which has a
/// value for each row.
#[verifier::external_body]
pub(crate) fn column_by_name(batch: &Batch, name: &str) -> (r: Option<Column>)
    ensures
        match r {
            Some(c) => {
                &&& first_named(batch_fields(*batch), name@) is Some
                &&& column_model(c) == batch_columns(*batch)[first_named(
                    batch_fields(*batch),
                    name@,
                )->0]
                &&& column_model(c).cells.len() == batch_rows(*batch)
            },
            None => first_named(batch_fields(*batch), name@) is None,
        },
{
    batch.batch.column_by_name(name).map(|c| Column { array: c.clone() })
}

/// The slots of an array that is a `UInt64Array`, read with
/// `PrimitiveArray::values` and `Array::is_valid`.
#[verifier::external_body]
pub(crate) fn as_uint64(column: &Column) -> (r: Option<UInt64Column>)
    ensures
        match r {
            Some(c) => {
                &&& c.wf()
                &&& c@.values.len() == column_model(*column).cells.len()
                &&& column_model(*column).uint64 == Some(c@)
            },
            None => column_model(*column).uint64 is None,
        },
{
    column.array.as_any().downcast_ref::<UInt64Array>().map(|a| UInt64Column {
        values: a.values().to_vec(),
        valid: (0..a.len()).map(|i| a.is_valid(i)).collect(),
    })
}

/// The slots of an array that is a `UInt8Array`, read with
/// `PrimitiveArray::values`.
#[verifier::external_body]
pub(crate) fn as_uint8(column: &Column) -> (r: Option<Vec<u8>>)
    ensures
        match r {
            Some(values) => {
                &&& values@.len() == column_model(*column).cells.len()
                &&& column_model(*column).uint8 == Some(values@)
            },
            None => column_model(*column).uint8 is None,
        },
{
    column.array.as_any().downcast_ref::<UInt8Array>().map(|a| a.values().to_vec())
}

/// Another reference to the same array: `Arc::clone` of an `ArrayRef`.
#[verifier::external_body]
pub(crate) fn share(column: &Column) -> (r: Column)
    ensures
        column_model(r) == column_model(*column),
{
    Column { array: column.array.clone() }
}

/// `arrow_select::take::take_record_batch`: the rows at these positions, in
/// this order, under the same fields. It panics where a position is past the
/// end, and where a column is not one that `can_take` allows for. It succeeds
/// where the columns conform to the fields and Arrow can count what is taken of
/// each. Otherwise a column of strings may outgrow its offsets.
#[verifier::external_body]
pub(crate) fn take_rows(batch: &Batch, rows: &Vec<u32>) -> (r: Result<Batch, ArrowError>)
    requires
        forall|i: int| 0 <= i < rows.len() ==> #[trigger] rows@[i] < batch_rows(*batch),
        forall|k: int|
            0 <= k < batch_columns(*batch).len() ==> can_take(
                #[trigger] batch_columns(*batch)[k],
                from_rows(rows@),
            ),
    ensures
        conforms(batch_fields(*batch), batch_columns(*batch)) && (forall|k: int|
            0 <= k < batch_columns(*batch).len() ==> can_count(
                #[trigger] batch_columns(*batch)[k],
                from_rows(rows@),
            )) ==> r is Ok,
        r matches Ok(b) ==> {
            &&& conforms(batch_fields(b), batch_columns(b))
            &&& batch_rows(b) == rows.len()
            &&& batch_fields(b) == batch_fields(*batch)
            &&& batch_columns(b).len() == batch_columns(*batch).len()
            &&& forall|k: int|
                0 <= k < batch_columns(*batch).len() ==> #[trigger] takes_rows(
                    batch_columns(*batch)[k],
                    rows@,
                    batch_columns(b)[k],
                )
        },
{
    let indices = UInt32Array::from(rows.clone());
    arrow_select::take::take_record_batch(&batch.batch, &indices).map(|batch| Batch { batch })
}

/// `arrow_select::take::take`: the values at these positions, in this order,
/// and NULL where there is no position (a union or run-end encoded array has its
/// first value there, of which nothing is said). It panics where a position is past the end, and
/// where the array is not one that `can_take` allows for. It succeeds where
/// Arrow can count what is taken. Otherwise an array of strings may outgrow its
/// offsets.
#[verifier::external_body]
pub(crate) fn take_values(column: &Column, positions: &Vec<Option<u32>>) -> (r: Result<
    Column,
    ArrowError,
>)
    requires
        forall|i: int|
            0 <= i < positions.len() ==> (#[trigger] positions@[i] matches Some(p) ==> p
                < column_model(*column).cells.len()),
        can_take(column_model(*column), positions@),
    ensures
        can_count(column_model(*column), positions@) ==> r is Ok,
        r matches Ok(c) ==> {
            let from = column_model(*column);
            let to = column_model(c);
            &&& to.data_type == from.data_type
            &&& to.cells.len() == positions.len()
            &&& forall|i: int|
                0 <= i < positions.len() ==> match positions@[i] {
                    Some(p) => #[trigger] to.cells[i] == from.cells[p as int],
                    None => !from.inside.unmasked() ==> to.cells[i] is None,
                }
        },
{
    let indices = UInt32Array::from(positions.clone());
    arrow_select::take::take(&column.array, &indices, None).map(|array| Column { array })
}

/// `arrow_select::interleave::interleave` of an array of a union or run-end encoded
/// type and a single NULL of its type: each pick is a position in the array, or
/// the NULL. It panics where `can_interleave` does not allow for it.
#[verifier::external_body]
pub(crate) fn interleave_null(column: &Column, null: &Column, picks: &Vec<(usize, usize)>) -> (r:
    Result<Column, ArrowError>)
    requires
        column_model(*column).inside.unmasked(),
        column_model(*null).all_null,
        column_model(*null).data_type == column_model(*column).data_type,
        column_model(*null).inside == column_model(*column).inside,
        column_model(*null).cells.len() == 1,
        forall|i: int|
            0 <= i < picks.len() ==> (#[trigger] picks@[i]).0 == 0 && picks@[i].1 < column_model(
                *column,
            ).cells.len() || picks@[i] == (1usize, 0usize),
        can_interleave(column_model(*column), picks@),
    ensures
        r is Ok,
        r matches Ok(c) ==> {
            let from = column_model(*column);
            let to = column_model(c);
            &&& to.data_type == from.data_type
            &&& to.cells.len() == picks.len()
            &&& forall|i: int|
                0 <= i < picks.len() ==> #[trigger] to.cells[i] == (if picks@[i].0 == 0 {
                    from.cells[picks@[i].1 as int]
                } else {
                    None
                })
        },
{
    let arrays: [&dyn Array; 2] = [column.array.as_ref(), null.array.as_ref()];
    arrow_select::interleave::interleave(&arrays, picks).map(|array| Column { array })
}

/// `Array::data_type`: the array's data type.
#[verifier::external_body]
pub(crate) fn type_of(column: &Column) -> (r: DataType)
    ensures
        type_model(r) == column_model(*column).inside,
        type_number(r) == column_model(*column).data_type,
{
    column.array.data_type().clone()
}

/// `Array::data_type` and `Field::data_type`: whether the array is of the
/// field's data type.
#[verifier::external_body]
pub(crate) fn is_of_type(column: &Column, field: &Field) -> (r: bool)
    ensures
        r == (column_model(*column).data_type == field_model(*field).data_type),
{
    column.array.data_type() == field.data_type()
}

/// `Array::len`: the number of values.
#[verifier::external_body]
pub(crate) fn len_of(column: &Column) -> (r: usize)
    ensures
        r == column_model(*column).cells.len(),
{
    column.array.len()
}

/// `Array::nulls`: which values the array's own null buffer counts as valid.
#[verifier::external_body]
pub(crate) fn mask_of(column: &Column) -> (r: Option<Vec<bool>>)
    ensures
        match r {
            Some(mask) => column_model(*column).mask == Some(mask@) && mask.len() == column_model(
                *column,
            ).cells.len(),
            None => column_model(*column).mask is None,
        },
{
    column.array.nulls().map(|nulls| nulls.iter().collect())
}

/// `Array::logical_nulls`: which values are not NULL. Without an answer, no value is
/// NULL.
#[verifier::external_body]
pub(crate) fn logical_mask_of(column: &Column) -> (r: Option<Vec<bool>>)
    ensures
        match r {
            Some(mask) => mask@ == column_model(*column).cells.map_values(
                |cell: Option<int>| cell is Some,
            ),
            None => forall|i: int|
                0 <= i < column_model(*column).cells.len() ==> #[trigger] column_model(
                    *column,
                ).cells[i] is Some,
        },
{
    column.array.logical_nulls().map(|nulls| nulls.iter().collect())
}

/// `Array::to_data` and `ArrayData::buffers`: the sizes of the array's own
/// buffers, in bytes.
#[verifier::external_body]
pub(crate) fn buffers_of(column: &Column) -> (r: Vec<usize>)
    ensures
        r@ == column_model(*column).buffers,
{
    column.array.to_data().buffers().iter().map(|buffer| buffer.len()).collect()
}

/// `Array::to_data`, `ArrayData::child_data` and `make_array`: the arrays right
/// inside.
#[verifier::external_body]
pub(crate) fn parts_of(column: &Column) -> (r: Vec<Column>)
    ensures
        column_models(r@) == column_model(*column).parts,
{
    let data = column.array.to_data();
    let parts = data.child_data().iter().cloned();
    parts.map(|part| Column { array: arrow_array::make_array(part) }).collect()
}

/// `ListArray::value_offsets`: which values each list holds.
#[verifier::external_body]
pub(crate) fn list_spans(column: &Column) -> (r: Vec<(usize, usize)>)
    requires
        column_model(*column).inside is List,
    ensures
        r@ == column_model(*column).spans,
        r.len() == column_model(*column).cells.len(),
{
    let offsets = column.array.as_list::<i32>().value_offsets();
    offsets.windows(2).map(|span| (span[0] as usize, span[1] as usize)).collect()
}

/// `LargeListArray::value_offsets`: which values each list holds.
#[verifier::external_body]
pub(crate) fn large_list_spans(column: &Column) -> (r: Vec<(usize, usize)>)
    requires
        column_model(*column).inside is LargeList,
    ensures
        r@ == column_model(*column).spans,
        r.len() == column_model(*column).cells.len(),
{
    let offsets = column.array.as_list::<i64>().value_offsets();
    offsets.windows(2).map(|span| (span[0] as usize, span[1] as usize)).collect()
}

/// `MapArray::value_offsets`: which entries each map holds.
#[verifier::external_body]
pub(crate) fn entry_spans(column: &Column) -> (r: Vec<(usize, usize)>)
    requires
        column_model(*column).inside is Entries,
    ensures
        r@ == column_model(*column).spans,
        r.len() == column_model(*column).cells.len(),
{
    let offsets = column.array.as_map().value_offsets();
    offsets.windows(2).map(|span| (span[0] as usize, span[1] as usize)).collect()
}

/// `ListViewArray::value_offset` and `ListViewArray::value_size`: which values each
/// list holds.
#[verifier::external_body]
pub(crate) fn views_of_list(column: &Column) -> (r: Vec<(usize, usize)>)
    requires
        column_model(*column).inside is ListView,
    ensures
        r@ == column_model(*column).views,
        r.len() == column_model(*column).cells.len(),
{
    let array = column.array.as_list_view::<i32>();
    (0..array.len()).map(|i| (array.value_offset(i) as usize, array.value_size(i) as usize)).collect()
}

/// `LargeListViewArray::value_offset` and `LargeListViewArray::value_size`: which
/// values each list holds.
#[verifier::external_body]
pub(crate) fn views_of_large_list(column: &Column) -> (r: Vec<(usize, usize)>)
    requires
        column_model(*column).inside is LargeListView,
    ensures
        r@ == column_model(*column).views,
        r.len() == column_model(*column).cells.len(),
{
    let array = column.array.as_list_view::<i64>();
    (0..array.len()).map(|i| (array.value_offset(i) as usize, array.value_size(i) as usize)).collect()
}

/// `UnionArray::value_offset`: where the array of its member has each value of a
/// dense union.
#[verifier::external_body]
pub(crate) fn union_places(column: &Column) -> (r: Vec<usize>)
    requires
        column_model(*column).inside is DenseUnion,
    ensures
        r@ == column_model(*column).places,
        r.len() == column_model(*column).cells.len(),
{
    let array = column.array.as_union();
    (0..array.len()).map(|i| array.value_offset(i)).collect()
}

/// `UnionArray::type_id`: which member each value of a union belongs to.
#[verifier::external_body]
pub(crate) fn union_ids(column: &Column) -> (r: Vec<i8>)
    requires
        column_model(*column).inside is DenseUnion,
    ensures
        r@ == column_model(*column).type_ids,
        r.len() == column_model(*column).cells.len(),
{
    let array = column.array.as_union();
    (0..array.len()).map(|i| array.type_id(i)).collect()
}

/// `RunArray::get_physical_index`: the run that a value belongs to, where run ends
/// are `Int16`. It panics past the end.
#[verifier::external_body]
pub(crate) fn short_run_at(column: &Column, i: usize) -> (r: usize)
    requires
        column_model(*column).inside matches TypeModel::RunEndEncoded(ends, _) && ends.inside
            == TypeModel::Leaf(LeafType::Int16),
        i < column_model(*column).cells.len(),
    ensures
        r == column_model(*column).places[i as int],
{
    column.array.as_run::<Int16Type>().get_physical_index(i)
}

/// `RunArray::get_physical_index`: the run that a value belongs to, where run ends
/// are `Int32`. It panics past the end.
#[verifier::external_body]
pub(crate) fn run_at(column: &Column, i: usize) -> (r: usize)
    requires
        column_model(*column).inside matches TypeModel::RunEndEncoded(ends, _) && ends.inside
            == TypeModel::Leaf(LeafType::Int32),
        i < column_model(*column).cells.len(),
    ensures
        r == column_model(*column).places[i as int],
{
    column.array.as_run::<Int32Type>().get_physical_index(i)
}

/// `RunArray::get_physical_index`: the run that a value belongs to, where run ends
/// are `Int64`. It panics past the end.
#[verifier::external_body]
pub(crate) fn long_run_at(column: &Column, i: usize) -> (r: usize)
    requires
        column_model(*column).inside matches TypeModel::RunEndEncoded(ends, _) && ends.inside
            == TypeModel::Leaf(LeafType::Int64),
        i < column_model(*column).cells.len(),
    ensures
        r == column_model(*column).places[i as int],
{
    column.array.as_run::<Int64Type>().get_physical_index(i)
}

/// `StringArray::value_offsets`: which bytes each value has.
#[verifier::external_body]
pub(crate) fn string_spans(column: &Column) -> (r: Vec<(usize, usize)>)
    requires
        column_model(*column).inside == TypeModel::Leaf(LeafType::Utf8),
    ensures
        r@ == column_model(*column).spans,
        r.len() == column_model(*column).cells.len(),
{
    let offsets = column.array.as_string::<i32>().value_offsets();
    offsets.windows(2).map(|span| (span[0] as usize, span[1] as usize)).collect()
}

/// `LargeStringArray::value_offsets`: which bytes each value has.
#[verifier::external_body]
pub(crate) fn large_string_spans(column: &Column) -> (r: Vec<(usize, usize)>)
    requires
        column_model(*column).inside == TypeModel::Leaf(LeafType::LargeUtf8),
    ensures
        r@ == column_model(*column).spans,
        r.len() == column_model(*column).cells.len(),
{
    let offsets = column.array.as_string::<i64>().value_offsets();
    offsets.windows(2).map(|span| (span[0] as usize, span[1] as usize)).collect()
}

/// `BinaryArray::value_offsets`: which bytes each value has.
#[verifier::external_body]
pub(crate) fn binary_spans(column: &Column) -> (r: Vec<(usize, usize)>)
    requires
        column_model(*column).inside == TypeModel::Leaf(LeafType::Binary),
    ensures
        r@ == column_model(*column).spans,
        r.len() == column_model(*column).cells.len(),
{
    let offsets = column.array.as_binary::<i32>().value_offsets();
    offsets.windows(2).map(|span| (span[0] as usize, span[1] as usize)).collect()
}

/// `LargeBinaryArray::value_offsets`: which bytes each value has.
#[verifier::external_body]
pub(crate) fn large_binary_spans(column: &Column) -> (r: Vec<(usize, usize)>)
    requires
        column_model(*column).inside == TypeModel::Leaf(LeafType::LargeBinary),
    ensures
        r@ == column_model(*column).spans,
        r.len() == column_model(*column).cells.len(),
{
    let offsets = column.array.as_binary::<i64>().value_offsets();
    offsets.windows(2).map(|span| (span[0] as usize, span[1] as usize)).collect()
}

/// `RecordBatch::try_new`: a batch of these columns under the fields of the
/// schema, if the columns conform to the fields.
#[verifier::external_body]
pub(crate) fn new_batch(schema: &Schema, columns: Vec<Column>) -> (r: Result<Batch, ArrowError>)
    ensures
        r is Ok <==> conforms(schema_fields(*schema), column_models(columns@)),
        r matches Ok(b) ==> {
            &&& batch_fields(b) == schema_fields(*schema)
            &&& batch_columns(b) == column_models(columns@)
            &&& batch_rows(b) == column_models(columns@)[0].cells.len()
        },
{
    let arrays: Vec<ArrayRef> = columns.into_iter().map(|c| c.array).collect();
    RecordBatch::try_new(Arc::new(schema.clone()), arrays).map(|batch| Batch { batch })
}

/// `arrow_array::new_empty_array`: an array of the field's data type without
/// values. It panics for a data type that `nulls_fit` does not allow for.
#[verifier::external_body]
pub(crate) fn new_empty_column(field: &Field) -> (r: Column)
    requires
        nulls_fit(field_model(*field).inside, 0),
    ensures
        column_model(r).data_type == field_model(*field).data_type,
        column_model(r).cells == Seq::<Option<int>>::empty(),
        column_model(r).null_count == 0,
{
    Column { array: arrow_array::new_empty_array(field.data_type()) }
}

/// `arrow_array::new_null_array`: an array of the data type that holds NULL `len`
/// times. It panics where `nulls_fit` does not allow for it.
#[verifier::external_body]
pub(crate) fn new_null_column(d: &DataType, len: usize) -> (r: Column)
    requires
        nulls_fit(type_model(*d), len as nat),
    ensures
        column_model(r).data_type == type_number(*d),
        column_model(r).inside == type_model(*d),
        column_model(r).cells == Seq::new(len as nat, |i: int| None::<int>),
        column_model(r).all_null,
{
    Column { array: arrow_array::new_null_array(d, len) }
}

/// The field that is found has the name and is the first to have it; if none
/// is found, no field has the name.
pub proof fn lemma_first_named(fields: Seq<FieldModel>, name: Seq<char>)
    ensures
        match first_named(fields, name) {
            Some(i) => {
                &&& 0 <= i < fields.len()
                &&& fields[i].name == name
                &&& forall|j: int| 0 <= j < i ==> (#[trigger] fields[j]).name != name
            },
            None => forall|j: int| 0 <= j < fields.len() ==> (#[trigger] fields[j]).name != name,
        },
    decreases fields.len(),
{
    if fields.len() > 0 {
        lemma_first_named(fields.drop_last(), name);
        assert forall|j: int| 0 <= j < fields.len() - 1 implies #[trigger] fields[j]
            == fields.drop_last()[j] by {}
    }
}

} // verus!
