//! Building the batches that are written.

use crate::arrow::{
    as_uint64, as_uint8, batch_columns, batch_fields, batch_rows, column_at, column_model,
    column_models, conforms, first_named, new_batch, new_empty_column, num_columns, num_fields,
    num_rows, schema_fields, share, take_rows, takes_rows, ArrayModel, Batch, Column,
};
use crate::columns::{UInt64Column, UInt64Model};
use crate::error::{ControlColumn, MergeError};
use crate::filler::{
    addresses_of, addresses_to_read, filled_from, fills_surely, read_addresses,
    reading_error, BatchError,
};
use crate::layout::{WriteColumnSource, WriteStreamContext};
use crate::rows::ControlRows;
use crate::taking::{can_count, can_take, from_rows, is_takeable};
use crate::types::{nulls_fit, FieldModel};
use vstd::prelude::*;

verus! {

/// How far a batch to write has got.
pub enum WriteStep {
    /// It is complete.
    Ready(Batch),
    /// Its rows are selected, but some columns have to be read from the
    /// target first.
    ReadTarget {
        /// The selected rows, with the columns of the input.
        filtered: Batch,
        /// The addresses of the target rows that the selected rows match.
        row_addrs: UInt64Column,
        /// The addresses to read.
        addrs: Vec<u64>,
    },
}

/// The columns to write, put together from those of the input and the filled
/// ones.
pub open spec fn assembled(
    sources: Seq<WriteColumnSource>,
    input: Seq<ArrayModel>,
    fill: Seq<ArrayModel>,
) -> Seq<ArrayModel> {
    sources.map_values(
        |s: WriteColumnSource|
            match s {
                WriteColumnSource::Input(i) => input[i as int],
                WriteColumnSource::FillFromTarget(j) => fill[j as int],
            },
    )
}

/// The batch holds the rows `rows` of `from`, in this order and with all
/// columns.
pub open spec fn selects(from: Batch, rows: Seq<u32>, to: Batch) -> bool {
    &&& batch_rows(to) == rows.len()
    &&& batch_fields(to) == batch_fields(from)
    &&& batch_columns(to).len() == batch_columns(from).len()
    &&& forall|k: int|
        0 <= k < batch_columns(from).len() ==> #[trigger] takes_rows(
            batch_columns(from)[k],
            rows,
            batch_columns(to)[k],
        )
}

/// The target addresses of the rows `rows` of a batch.
pub open spec fn selected_addrs(
    ctx: WriteStreamContext,
    batch: Batch,
    rows: Seq<u32>,
) -> Seq<Option<u64>> {
    let addrs = batch_columns(batch)[ctx.rowaddr_idx as int].uint64->0;
    rows.map_values(
        |r: u32|
            if addrs.valid[r as int] {
                Some(addrs.values[r as int])
            } else {
                None
            },
    )
}

/// Some row has a target row.
pub open spec fn any_matched(row_addrs: Seq<Option<u64>>) -> bool {
    exists|i: int| 0 <= i < row_addrs.len() && #[trigger] row_addrs[i] is Some
}

/// What is wrong with the control columns of a batch.
pub open spec fn control_error(ctx: WriteStreamContext, batch: Batch) -> Option<MergeError> {
    if batch_columns(batch)[ctx.rowaddr_idx as int].uint64 is None {
        Some(MergeError::WrongColumnType { column: ControlColumn::RowAddr })
    } else if batch_columns(batch)[ctx.rowid_idx as int].uint64 is None {
        Some(MergeError::WrongColumnType { column: ControlColumn::RowId })
    } else if batch_columns(batch)[ctx.action_idx as int].uint8 is None {
        Some(MergeError::WrongColumnType { column: ControlColumn::Action })
    } else {
        None
    }
}

/// The control columns of a batch.
pub open spec fn has_control_rows(
    ctx: WriteStreamContext,
    batch: Batch,
    rows: ControlRows,
) -> bool {
    &&& rows.wf()
    &&& rows.actions@.len() == batch_rows(batch)
    &&& batch_columns(batch)[ctx.rowaddr_idx as int].uint64 == Some(rows.row_addrs@)
    &&& batch_columns(batch)[ctx.rowid_idx as int].uint64 == Some(rows.row_ids@)
    &&& batch_columns(batch)[ctx.action_idx as int].uint8 == Some(rows.actions@)
}

/// Reads the control columns of a batch. Each has to be of its array type.
pub fn extract_control_arrays(batch: &Batch, ctx: &WriteStreamContext) -> (r: Result<
    ControlRows,
    MergeError,
>)
    requires
        ctx.fits(*batch),
    ensures
        match r {
            Ok(rows) => control_error(*ctx, *batch) is None && has_control_rows(
                *ctx,
                *batch,
                rows,
            ),
            Err(e) => control_error(*ctx, *batch) == Some(e),
        },
        ({
            let addrs = batch_columns(*batch)[ctx.rowaddr_idx as int].uint64;
            let ids = batch_columns(*batch)[ctx.rowid_idx as int].uint64;
            let actions = batch_columns(*batch)[ctx.action_idx as int].uint8;
            match r {
                Ok(rows) => {
                    &&& addrs == Some(
                        UInt64Model {
                            values: rows.row_addrs.values@,
                            valid: rows.row_addrs.valid@,
                        },
                    )
                    &&& ids == Some(
                        UInt64Model { values: rows.row_ids.values@, valid: rows.row_ids.valid@ },
                    )
                    &&& actions == Some(rows.actions@)
                },
                Err(e) => if addrs is None {
                    e == (MergeError::WrongColumnType { column: ControlColumn::RowAddr })
                } else if ids is None {
                    e == (MergeError::WrongColumnType { column: ControlColumn::RowId })
                } else {
                    actions is None && e == (MergeError::WrongColumnType {
                        column: ControlColumn::Action,
                    })
                },
            }
        }),
{
    let row_addrs: UInt64Column = match as_uint64(&column_at(batch, ctx.rowaddr_idx)) {
        Some(c) => c,
        None => {
            return Err(MergeError::WrongColumnType { column: ControlColumn::RowAddr });
        },
    };
    let row_ids: UInt64Column = match as_uint64(&column_at(batch, ctx.rowid_idx)) {
        Some(c) => c,
        None => {
            return Err(MergeError::WrongColumnType { column: ControlColumn::RowId });
        },
    };
    let actions: Vec<u8> = match as_uint8(&column_at(batch, ctx.action_idx)) {
        Some(c) => c,
        None => {
            return Err(MergeError::WrongColumnType { column: ControlColumn::Action });
        },
    };
    Ok(ControlRows { row_addrs, row_ids, actions })
}

/// The columns are of the filled fields' types and have a value for each row.
pub open spec fn fill_fits(filled: Seq<FieldModel>, rows: nat, fill: Seq<ArrayModel>) -> bool {
    &&& fill.len() == filled.len()
    &&& forall|j: int|
        0 <= j < fill.len() ==> {
            &&& (#[trigger] fill[j]).data_type == filled[j].data_type
            &&& fill[j].cells.len() == rows
        }
}

/// What a layout assembles can be written: given columns that conform to the
/// fields that the layout was made for, and a fitting column for each filled
/// field, the columns to write conform to the fields to write.
pub proof fn law_assembled_columns_conform(
    ctx: WriteStreamContext,
    fields: Seq<FieldModel>,
    columns: Seq<ArrayModel>,
    fill: Seq<ArrayModel>,
)
    requires
        ctx.wf(),
        ctx.made_for(fields),
        conforms(fields, columns),
        fill_fits(ctx.filled(), columns[0].cells.len(), fill),
    ensures
        conforms(
            schema_fields(ctx.output_schema),
            assembled(ctx.column_sources@, columns, fill),
        ),
        assembled(ctx.column_sources@, columns, fill)[0].cells.len() == columns[0].cells.len(),
{
    let sources = ctx.column_sources@;
    let wanted = schema_fields(ctx.output_schema);
    let made = assembled(sources, columns, fill);
    assert forall|k: int| 0 <= k < made.len() implies {
        &&& (#[trigger] made[k]).data_type == wanted[k].data_type
        &&& made[k].cells.len() == columns[0].cells.len()
        &&& wanted[k].nullable || made[k].null_count == 0
    } by {
        match sources[k] {
            WriteColumnSource::Input(i) => {
                assert(made[k] == columns[i as int]);
            },
            WriteColumnSource::FillFromTarget(j) => {
                assert(made[k] == fill[j as int]);
            },
        }
    }
}

/// Puts together the columns to write, in the order of the dataset. That works
/// exactly if they conform to the fields to write.
pub fn assemble_batch(filtered: &Batch, fill: &Vec<Column>, ctx: &WriteStreamContext) -> (r: Result<
    Batch,
    BatchError,
>)
    requires
        ctx.wf(),
        ctx.fits(*filtered),
        fill.len() == ctx.filled().len(),
    ensures
        ({
            let columns = assembled(
                ctx.column_sources@,
                batch_columns(*filtered),
                column_models(fill@),
            );
            match r {
                Ok(b) => {
                    &&& conforms(schema_fields(ctx.output_schema), columns)
                    &&& batch_fields(b) == schema_fields(ctx.output_schema)
                    &&& batch_columns(b) == columns
                    &&& batch_rows(b) == columns[0].cells.len()
                },
                Err(e) => e is Arrow && !conforms(schema_fields(ctx.output_schema), columns),
            }
        }),
{
    let n: usize = ctx.column_sources.len();
    let mut columns: Vec<Column> = Vec::with_capacity(n);
    let ghost wanted = assembled(
        ctx.column_sources@,
        batch_columns(*filtered),
        column_models(fill@),
    );
    for k in 0..n
        invariant
            n == ctx.column_sources.len(),
            ctx.wf(),
            ctx.fits(*filtered),
            fill.len() == ctx.filled().len(),
            wanted == assembled(
                ctx.column_sources@,
                batch_columns(*filtered),
                column_models(fill@),
            ),
            columns.len() == k,
            forall|j: int| 0 <= j < k ==> column_model(#[trigger] columns@[j]) == wanted[j],
    {
        assert(wanted.len() == n);
        let source: WriteColumnSource = ctx.column_sources[k];
        match source {
            WriteColumnSource::Input(idx) => {
                columns.push(column_at(filtered, idx));
            },
            WriteColumnSource::FillFromTarget(idx) => {
                columns.push(share(&fill[idx]));
            },
        }
    }
    assert(column_models(columns@) =~= wanted);
    match new_batch(&ctx.output_schema, columns) {
        Ok(b) => Ok(b),
        Err(e) => Err(BatchError::Arrow(e)),
    }
}

/// A batch without rows, under the fields to write.
pub fn empty_batch(ctx: &WriteStreamContext) -> (r: Result<Batch, BatchError>)
    requires
        ctx.empty_buildable(),
    ensures
        match r {
            Ok(b) => {
                &&& schema_fields(ctx.output_schema).len() > 0
                &&& batch_rows(b) == 0
                &&& batch_fields(b) == schema_fields(ctx.output_schema)
                &&& batch_columns(b).len() == schema_fields(ctx.output_schema).len()
                &&& forall|k: int|
                    0 <= k < batch_columns(b).len() ==> {
                        &&& (#[trigger] batch_columns(b)[k]).data_type == schema_fields(
                            ctx.output_schema,
                        )[k].data_type
                        &&& batch_columns(b)[k].cells == Seq::<Option<int>>::empty()
                    }
            },
            Err(e) => e is Arrow && schema_fields(ctx.output_schema).len() == 0,
        },
{
    let n: usize = num_fields(&ctx.output_schema);
    let ghost fields = schema_fields(ctx.output_schema);
    let mut columns: Vec<Column> = Vec::with_capacity(n);
    for k in 0..n
        invariant
            n == fields.len(),
            fields == schema_fields(ctx.output_schema),
            ctx.empty_buildable(),
            columns.len() == k,
            forall|j: int|
                0 <= j < k ==> {
                    &&& column_model(#[trigger] columns@[j]).data_type == fields[j].data_type
                    &&& column_model(columns@[j]).cells == Seq::<Option<int>>::empty()
                    &&& column_model(columns@[j]).null_count == 0
                },
    {
        assert(nulls_fit(fields[k as int].inside, 0));
        columns.push(new_empty_column(ctx.output_schema.field(k)));
    }
    proof {
        let models = column_models(columns@);
        assert forall|j: int| 0 <= j < models.len() implies {
            &&& (#[trigger] models[j]).data_type == fields[j].data_type
            &&& models[j].cells == Seq::<Option<int>>::empty()
            &&& models[j].null_count == 0
        } by {
            assert(models[j] == column_model(columns@[j]));
        }
    }
    match new_batch(&ctx.output_schema, columns) {
        Ok(b) => Ok(b),
        Err(e) => Err(BatchError::Arrow(e)),
    }
}

/// The filled columns where no row has a target row.
pub open spec fn all_null(filled: Seq<FieldModel>, rows: nat, fill: Seq<ArrayModel>) -> bool {
    &&& fill.len() == filled.len()
    &&& forall|j: int|
        0 <= j < fill.len() ==> {
            &&& (#[trigger] fill[j]).data_type == filled[j].data_type
            &&& fill[j].cells == Seq::new(rows, |i: int| None::<int>)
        }
}

/// The batch consists of the selected rows and the filled columns, in the
/// order of the dataset.
pub open spec fn is_assembled(
    ctx: WriteStreamContext,
    filtered: Batch,
    fill: Seq<ArrayModel>,
    b: Batch,
) -> bool {
    let columns = assembled(ctx.column_sources@, batch_columns(filtered), fill);
    &&& conforms(schema_fields(ctx.output_schema), columns)
    &&& batch_fields(b) == schema_fields(ctx.output_schema)
    &&& batch_columns(b) == columns
    &&& batch_rows(b) == columns[0].cells.len()
}

/// The target addresses of the rows of a batch.
pub open spec fn batch_addrs(ctx: WriteStreamContext, filtered: Batch) -> Seq<Option<u64>> {
    (batch_columns(filtered)[ctx.rowaddr_idx as int].uint64->0).options()
}

/// Goes on with rows that were selected. If no column is to be filled, or no
/// selected row has a target row, the batch is complete; otherwise the target
/// has to be read first.
pub fn continue_write_batch(filtered: Batch, ctx: &WriteStreamContext) -> (r: Result<
    WriteStep,
    BatchError,
>)
    requires
        ctx.wf(),
        ctx.fits(filtered),
        ctx.filler is Some && batch_columns(filtered)[ctx.rowaddr_idx as int].uint64 is Some
            && !any_matched(batch_addrs(*ctx, filtered)) ==> ctx.nulls_buildable(
            batch_rows(filtered),
        ),
    ensures
        if ctx.filler is None {
            match r {
                Ok(WriteStep::Ready(b)) => is_assembled(*ctx, filtered, Seq::empty(), b),
                Ok(_) => false,
                Err(e) => e is Arrow && !conforms(
                    schema_fields(ctx.output_schema),
                    assembled(ctx.column_sources@, batch_columns(filtered), Seq::empty()),
                ),
            }
        } else if batch_columns(filtered)[ctx.rowaddr_idx as int].uint64 is None {
            r == Err::<WriteStep, BatchError>(
                BatchError::Merge(MergeError::WrongColumnType { column: ControlColumn::RowAddr }),
            )
        } else if any_matched(batch_addrs(*ctx, filtered)) {
            match r {
                Ok(WriteStep::ReadTarget { filtered: f, row_addrs, addrs }) => {
                    &&& f == filtered
                    &&& row_addrs.wf()
                    &&& row_addrs@.options() == batch_addrs(*ctx, filtered)
                    &&& row_addrs@.options().len() == batch_rows(filtered)
                    &&& addresses_of(row_addrs@.options(), addrs@)
                    &&& addrs.len() > 0
                },
                _ => false,
            }
        } else {
            match r {
                Ok(WriteStep::Ready(b)) => exists|fill: Seq<ArrayModel>|
                    {
                        &&& #[trigger] all_null(ctx.filled(), batch_rows(filtered), fill)
                        &&& is_assembled(*ctx, filtered, fill, b)
                    },
                Ok(_) => false,
                Err(e) => e is Arrow && exists|fill: Seq<ArrayModel>|
                    {
                        &&& #[trigger] all_null(ctx.filled(), batch_rows(filtered), fill)
                        &&& !conforms(
                            schema_fields(ctx.output_schema),
                            assembled(ctx.column_sources@, batch_columns(filtered), fill),
                        )
                    },
            }
        },
        ctx.made_for(batch_fields(filtered)) && conforms(
            batch_fields(filtered),
            batch_columns(filtered),
        ) && batch_columns(filtered)[0].cells.len() == batch_rows(filtered) && (
        ctx.filler is Some ==> batch_columns(filtered)[ctx.rowaddr_idx as int].uint64 is Some)
            ==> r is Ok,
{
    proof {
        lemma_continue_succeeds(*ctx, filtered);
    }
    let rows: usize = num_rows(&filtered);
    match &ctx.filler {
        None => {
            let fill: Vec<Column> = Vec::new();
            assert(column_models(fill@) =~= Seq::<ArrayModel>::empty());
            match assemble_batch(&filtered, &fill, ctx) {
                Ok(b) => Ok(WriteStep::Ready(b)),
                Err(e) => Err(e),
            }
        },
        Some(filler) => {
            let row_addrs: UInt64Column = match as_uint64(&column_at(&filtered, ctx.rowaddr_idx)) {
                Some(c) => c,
                None => {
                    return Err(
                        BatchError::Merge(
                            MergeError::WrongColumnType { column: ControlColumn::RowAddr },
                        ),
                    );
                },
            };
            let addrs: Vec<u64> = addresses_to_read(&row_addrs);
            if addrs.len() == 0 {
                proof {
                    assert forall|i: int| 0 <= i < row_addrs@.options().len() implies #[trigger] row_addrs@.options()[i] is None by {
                        if let Some(a) = row_addrs@.options()[i] {
                            assert(row_addrs@.options().contains(Some(a)));
                            assert(addrs@.contains(a));
                        }
                    }
                    assert forall|k: int| 0 <= k < filler.models().len() implies nulls_fit(
                        (#[trigger] filler.models()[k]).inside,
                        rows as nat,
                    ) by {
                        assert(ctx.filled()[k] == filler.models()[k]);
                    }
                }
                let fill: Vec<Column> = filler.null_columns(rows);
                proof {
                    let models = column_models(fill@);
                    assert forall|j: int| 0 <= j < models.len() implies {
                        &&& (#[trigger] models[j]).data_type == ctx.filled()[j].data_type
                        &&& models[j].cells == Seq::new(rows as nat, |i: int| None::<int>)
                    } by {
                        assert(models[j] == column_model(fill@[j]));
                    }
                    assert(all_null(ctx.filled(), batch_rows(filtered), models));
                }
                match assemble_batch(&filtered, &fill, ctx) {
                    Ok(b) => Ok(WriteStep::Ready(b)),
                    Err(e) => Err(e),
                }
            } else {
                proof {
                    let a = addrs@[0];
                    assert(addrs@.contains(a));
                    assert(row_addrs@.options().contains(Some(a)));
                    let i = choose|i: int| 0 <= i < row_addrs@.options().len() && row_addrs@.options()[i] == Some(a);
                    assert(row_addrs@.options()[i] is Some);
                }
                Ok(WriteStep::ReadTarget { filtered, row_addrs, addrs })
            }
        },
    }
}

/// Selected rows of a batch that the layout was made for can be written, also
/// with columns of NULL.
proof fn lemma_continue_succeeds(ctx: WriteStreamContext, filtered: Batch)
    requires
        ctx.wf(),
    ensures
        ctx.made_for(batch_fields(filtered)) && conforms(
            batch_fields(filtered),
            batch_columns(filtered),
        ) && batch_columns(filtered)[0].cells.len() == batch_rows(filtered) ==> {
            &&& forall|fill: Seq<ArrayModel>| #[trigger]
                all_null(ctx.filled(), batch_rows(filtered), fill) ==> conforms(
                    schema_fields(ctx.output_schema),
                    assembled(ctx.column_sources@, batch_columns(filtered), fill),
                )
            &&& ctx.filler is None ==> conforms(
                schema_fields(ctx.output_schema),
                assembled(ctx.column_sources@, batch_columns(filtered), Seq::empty()),
            )
        },
{
    if ctx.made_for(batch_fields(filtered)) && conforms(
        batch_fields(filtered),
        batch_columns(filtered),
    ) && batch_columns(filtered)[0].cells.len() == batch_rows(filtered) {
        assert forall|fill: Seq<ArrayModel>| #[trigger]
            all_null(ctx.filled(), batch_rows(filtered), fill) implies conforms(
            schema_fields(ctx.output_schema),
            assembled(ctx.column_sources@, batch_columns(filtered), fill),
        ) by {
            law_assembled_columns_conform(
                ctx,
                batch_fields(filtered),
                batch_columns(filtered),
                fill,
            );
        }
        if ctx.filler is None {
            assert(all_null(ctx.filled(), batch_rows(filtered), Seq::<ArrayModel>::empty()));
        }
    }
}

/// The batch has no rows, and the fields to write.
pub open spec fn is_empty_batch(ctx: WriteStreamContext, b: Batch) -> bool {
    &&& batch_rows(b) == 0
    &&& batch_fields(b) == schema_fields(ctx.output_schema)
    &&& batch_columns(b).len() == schema_fields(ctx.output_schema).len()
    &&& forall|k: int|
        0 <= k < batch_columns(b).len() ==> {
            &&& (#[trigger] batch_columns(b)[k]).data_type == schema_fields(
                ctx.output_schema,
            )[k].data_type
            &&& batch_columns(b)[k].cells == Seq::<Option<int>>::empty()
        }
}

/// Arrow can build the batch to write from the rows to keep: an empty one, or
/// one of the selected rows with columns of NULL if no row has a target row.
pub open spec fn writable(ctx: WriteStreamContext, batch: Batch, keep_rows: Seq<u32>) -> bool {
    if keep_rows.len() == 0 {
        ctx.empty_buildable()
    } else {
        &&& forall|k: int|
            0 <= k < batch_columns(batch).len() ==> can_take(
                #[trigger] batch_columns(batch)[k],
                from_rows(keep_rows),
            )
        &&& ctx.filler is Some && batch_columns(batch)[ctx.rowaddr_idx as int].uint64 is Some
            && !any_matched(selected_addrs(ctx, batch, keep_rows)) ==> ctx.nulls_buildable(
            keep_rows.len(),
        )
    }
}

/// Rows as positions.
fn as_positions(rows: &Vec<u32>) -> (r: Vec<Option<u32>>)
    ensures
        r@ == from_rows(rows@),
{
    let n: usize = rows.len();
    let mut positions: Vec<Option<u32>> = Vec::with_capacity(n);
    for i in 0..n
        invariant
            n == rows.len(),
            positions@ == from_rows(rows@).take(i as int),
    {
        positions.push(Some(rows[i]));
        assert(positions@ =~= from_rows(rows@).take(i + 1));
    }
    assert(positions@ =~= from_rows(rows@));
    positions
}

/// The addresses in a column at the rows `rows`.
spec fn rows_addrs_of(row_addrs: UInt64Column, rows: Seq<u32>) -> Seq<Option<u64>> {
    rows.map_values(
        |row: u32|
            if row_addrs@.valid[row as int] {
                Some(row_addrs@.values[row as int])
            } else {
                None
            },
    )
}

/// Whether one of the rows has a target row.
fn any_target(row_addrs: &UInt64Column, rows: &Vec<u32>) -> (r: bool)
    requires
        row_addrs.wf(),
        forall|i: int| 0 <= i < rows.len() ==> #[trigger] rows@[i] < row_addrs@.options().len(),
    ensures
        r == any_matched(rows_addrs_of(*row_addrs, rows@)),
{
    let ghost addrs = rows_addrs_of(*row_addrs, rows@);
    let n: usize = rows.len();
    for i in 0..n
        invariant
            n == rows.len(),
            row_addrs.wf(),
            forall|i: int| 0 <= i < rows.len() ==> #[trigger] rows@[i] < row_addrs@.options().len(),
            addrs == rows_addrs_of(*row_addrs, rows@),
            forall|j: int| 0 <= j < i ==> #[trigger] addrs[j] is None,
    {
        if !row_addrs.is_null(rows[i] as usize) {
            assert(addrs[i as int] is Some);
            return true;
        }
    }
    false
}

/// Whether Arrow can build the batch to write from the rows to keep.
pub fn is_writable(batch: &Batch, keep_rows: &Vec<u32>, ctx: &WriteStreamContext) -> (r: bool)
    requires
        ctx.fits(*batch),
        forall|i: int| 0 <= i < keep_rows.len() ==> #[trigger] keep_rows@[i] < batch_rows(*batch),
    ensures
        r == writable(*ctx, *batch, keep_rows@),
{
    if keep_rows.len() == 0 {
        return ctx.can_build_empty();
    }
    let positions: Vec<Option<u32>> = as_positions(keep_rows);
    let n: usize = num_columns(batch);
    for k in 0..n
        invariant
            n == batch_columns(*batch).len(),
            keep_rows.len() > 0,
            positions@ == from_rows(keep_rows@),
            forall|j: int|
                0 <= j < k ==> can_take(
                    #[trigger] batch_columns(*batch)[j],
                    from_rows(keep_rows@),
                ),
    {
        if !is_takeable(&column_at(batch, k), &positions) {
            assert(!can_take(batch_columns(*batch)[k as int], from_rows(keep_rows@)));
            return false;
        }
    }
    if ctx.filler.is_none() {
        return true;
    }
    match as_uint64(&column_at(batch, ctx.rowaddr_idx)) {
        None => true,
        Some(row_addrs) => {
            proof {
                let found = rows_addrs_of(row_addrs, keep_rows@);
                assert(found =~= selected_addrs(*ctx, *batch, keep_rows@));
            }
            any_target(&row_addrs, keep_rows) || ctx.can_build_nulls(keep_rows.len())
        },
    }
}

/// The rows can be selected and written: the batch is one that the layout was
/// made for, and what is taken of its columns fits their offsets.
pub open spec fn promises_rows(ctx: WriteStreamContext, batch: Batch, keep_rows: Seq<u32>) -> bool {
    &&& ctx.made_for(batch_fields(batch))
    &&& conforms(batch_fields(batch), batch_columns(batch))
    &&& forall|k: int|
        0 <= k < batch_columns(batch).len() ==> can_count(
            #[trigger] batch_columns(batch)[k],
            from_rows(keep_rows),
        )
}

/// Starts the batch to write from the rows to keep. Without such rows it is an
/// empty batch. Otherwise Arrow selects the rows, and `continue_write_batch`
/// goes on with what it gives back.
pub fn create_write_batch(batch: &Batch, keep_rows: &Vec<u32>, ctx: &WriteStreamContext) -> (r:
    Result<WriteStep, BatchError>)
    requires
        ctx.wf(),
        ctx.fits(*batch),
        forall|i: int| 0 <= i < keep_rows.len() ==> #[trigger] keep_rows@[i] < batch_rows(*batch),
        writable(*ctx, *batch, keep_rows@),
    ensures
        if keep_rows.len() == 0 {
            match r {
                Ok(WriteStep::Ready(b)) => schema_fields(ctx.output_schema).len() > 0
                    && is_empty_batch(*ctx, b),
                Ok(_) => false,
                Err(e) => e is Arrow && schema_fields(ctx.output_schema).len() == 0,
            }
        } else {
            match r {
                Ok(WriteStep::Ready(b)) => exists|filtered: Batch, fill: Seq<ArrayModel>|
                    {
                        &&& #[trigger] selects(*batch, keep_rows@, filtered)
                        &&& #[trigger] all_null(ctx.filled(), keep_rows@.len(), fill)
                        &&& is_assembled(*ctx, filtered, fill, b)
                        &&& ctx.filler is Some ==> {
                            &&& batch_columns(*batch)[ctx.rowaddr_idx as int].uint64 is Some
                            &&& !any_matched(selected_addrs(*ctx, *batch, keep_rows@))
                        }
                    },
                Ok(WriteStep::ReadTarget { filtered, row_addrs, addrs }) => {
                    &&& ctx.filler is Some
                    &&& batch_columns(*batch)[ctx.rowaddr_idx as int].uint64 is Some
                    &&& any_matched(row_addrs@.options())
                    &&& selects(*batch, keep_rows@, filtered)
                    &&& ctx.fits(filtered)
                    &&& row_addrs.wf()
                    &&& row_addrs@.options() == selected_addrs(*ctx, *batch, keep_rows@)
                    &&& addresses_of(row_addrs@.options(), addrs@)
                },
                Err(BatchError::Merge(e)) => {
                    &&& ctx.filler is Some
                    &&& batch_columns(*batch)[ctx.rowaddr_idx as int].uint64 is None
                    &&& e == MergeError::WrongColumnType { column: ControlColumn::RowAddr }
                },
                Err(BatchError::Arrow(_)) => !promises_rows(*ctx, *batch, keep_rows@),
            }
        },
{
    if keep_rows.len() == 0 {
        return match empty_batch(ctx) {
            Ok(b) => Ok(WriteStep::Ready(b)),
            Err(e) => Err(e),
        };
    }
    let filtered: Batch = match take_rows(batch, keep_rows) {
        Ok(b) => b,
        Err(e) => {
            return Err(BatchError::Arrow(e));
        },
    };
    proof {
        assert(selects(*batch, keep_rows@, filtered));
        assert(ctx.fits(filtered));
        lemma_selected_addrs(*ctx, *batch, keep_rows@, filtered);
        if ctx.made_for(batch_fields(*batch)) {
            assert(takes_rows(batch_columns(*batch)[0], keep_rows@, batch_columns(filtered)[0]));
        }
        assert(ctx.filler is None ==> all_null(
            ctx.filled(),
            keep_rows@.len(),
            Seq::<ArrayModel>::empty(),
        ));
    }
    continue_write_batch(filtered, ctx)
}

/// The addresses of selected rows are the selected addresses.
proof fn lemma_selected_addrs(
    ctx: WriteStreamContext,
    batch: Batch,
    rows: Seq<u32>,
    filtered: Batch,
)
    requires
        selects(batch, rows, filtered),
        ctx.fits(batch),
    ensures
        batch_columns(filtered)[ctx.rowaddr_idx as int].uint64 is Some <==> batch_columns(
            batch,
        )[ctx.rowaddr_idx as int].uint64 is Some,
        batch_columns(batch)[ctx.rowaddr_idx as int].uint64 is Some ==> batch_addrs(ctx, filtered)
            == selected_addrs(ctx, batch, rows),
{
    let from = batch_columns(batch)[ctx.rowaddr_idx as int];
    let to = batch_columns(filtered)[ctx.rowaddr_idx as int];
    assert(takes_rows(from, rows, to));
    if from.uint64 is Some {
        assert(batch_addrs(ctx, filtered) =~= selected_addrs(ctx, batch, rows));
    }
}

/// The column fills field `j` with the values of the target rows that were
/// read.
pub open spec fn fills_field(
    ctx: WriteStreamContext,
    taken: Batch,
    row_addrs: Seq<Option<u64>>,
    j: int,
    column: ArrayModel,
) -> bool {
    &&& first_named(batch_fields(taken), ctx.filled()[j].name) is Some
    &&& filled_from(
        batch_columns(taken)[first_named(batch_fields(taken), ctx.filled()[j].name)->0],
        read_addresses(batch_fields(taken), batch_columns(taken)),
        row_addrs,
        column,
    )
}

/// The columns fill the filled fields.
pub open spec fn fills(
    ctx: WriteStreamContext,
    taken: Batch,
    row_addrs: Seq<Option<u64>>,
    fill: Seq<ArrayModel>,
) -> bool {
    &&& fill.len() == ctx.filled().len()
    &&& forall|j: int|
        0 <= j < fill.len() ==> fills_field(ctx, taken, row_addrs, j, #[trigger] fill[j])
}

/// Arrow can take the values that fill the filled fields, if these are the rows
/// asked for.
pub open spec fn resumable(
    ctx: WriteStreamContext,
    taken: Batch,
    row_addrs: Seq<Option<u64>>,
) -> bool {
    ctx.filler matches Some(filler) ==> reading_error(
        batch_fields(taken),
        batch_columns(taken),
        row_addrs,
    ) is None ==> forall|k: int|
        0 <= k < filler.models().len() ==> filler.takeable(taken, row_addrs, k)
}

/// Whether Arrow can take the values that fill the filled fields.
pub fn is_resumable(taken: &Batch, row_addrs: &UInt64Column, ctx: &WriteStreamContext) -> (r: bool)
    requires
        row_addrs.wf(),
    ensures
        r == resumable(*ctx, *taken, row_addrs@.options()),
{
    match &ctx.filler {
        None => true,
        Some(filler) => filler.is_alignable(taken, row_addrs),
    }
}

/// The filled columns can be made and written: the selected rows are ones that
/// the layout was made for, and the columns that were read are of the filled
/// fields' types and can be taken from.
pub open spec fn promises_fill(
    ctx: WriteStreamContext,
    filtered: Batch,
    taken: Batch,
    row_addrs: Seq<Option<u64>>,
) -> bool {
    &&& ctx.made_for(batch_fields(filtered))
    &&& conforms(batch_fields(filtered), batch_columns(filtered))
    &&& batch_columns(filtered)[0].cells.len() == row_addrs.len()
    &&& forall|j: int|
        0 <= j < ctx.filled().len() ==> (first_named(
            batch_fields(taken),
            (#[trigger] ctx.filled()[j]).name,
        ) matches Some(i) ==> {
            &&& batch_columns(taken)[i].data_type == ctx.filled()[j].data_type
            &&& fills_surely(
                batch_columns(taken)[i],
                read_addresses(batch_fields(taken), batch_columns(taken)),
                row_addrs,
            )
        })
}

/// Completes a batch with the rows that were read from the target for it.
/// `TargetColumnFiller::align` makes the filled columns, and `assemble_batch`
/// puts them together with the selected rows.
pub fn resume_write_batch(
    filtered: &Batch,
    row_addrs: &UInt64Column,
    taken: &Batch,
    ctx: &WriteStreamContext,
) -> (r: Result<Batch, BatchError>)
    requires
        ctx.wf(),
        ctx.fits(*filtered),
        ctx.filler is Some,
        row_addrs.wf(),
        resumable(*ctx, *taken, row_addrs@.options()),
    ensures
        match reading_error(batch_fields(*taken), batch_columns(*taken), row_addrs@.options()) {
            Some(e) => r == Err::<Batch, BatchError>(BatchError::Merge(e)),
            None => match r {
                Ok(b) => exists|fill: Seq<ArrayModel>|
                    {
                        &&& #[trigger] fills(*ctx, *taken, row_addrs@.options(), fill)
                        &&& is_assembled(*ctx, *filtered, fill, b)
                    },
                Err(BatchError::Merge(e)) => exists|j: int|
                    {
                        &&& 0 <= j < ctx.filled().len()
                        &&& first_named(
                            batch_fields(*taken),
                            (#[trigger] ctx.filled()[j]).name,
                        ) is None
                        &&& forall|i: int|
                            0 <= i < j ==> first_named(
                                batch_fields(*taken),
                                (#[trigger] ctx.filled()[i]).name,
                            ) is Some
                        &&& e matches MergeError::TakeMissingColumn { name }
                        &&& name@ == ctx.filled()[j].name
                    },
                Err(BatchError::Arrow(_)) => !promises_fill(
                    *ctx,
                    *filtered,
                    *taken,
                    row_addrs@.options(),
                ),
            },
        },
{
    let fill: Vec<Column> = match &ctx.filler {
        Some(filler) => {
            assert(ctx.filled() == filler.models());
            match filler.align(taken, row_addrs) {
                Ok(columns) => columns,
                Err(e) => {
                    proof {
                        if e is Merge && reading_error(
                            batch_fields(*taken),
                            batch_columns(*taken),
                            row_addrs@.options(),
                        ) is None {
                            let j = choose|j: int|
                                {
                                    &&& 0 <= j < filler.models().len()
                                    &&& #[trigger] filler.reading_column(*taken, j) is None
                                    &&& forall|i: int|
                                        0 <= i < j ==> #[trigger] filler.reading_column(
                                            *taken,
                                            i,
                                        ) is Some
                                    &&& e->Merge_0 matches MergeError::TakeMissingColumn { name }
                                    &&& name@ == filler.models()[j].name
                                };
                            assert(first_named(
                                batch_fields(*taken),
                                ctx.filled()[j].name,
                            ) is None);
                            assert forall|i: int| 0 <= i < j implies first_named(
                                batch_fields(*taken),
                                (#[trigger] ctx.filled()[i]).name,
                            ) is Some by {
                                assert(filler.reading_column(*taken, i) is Some);
                            }
                        }
                    }
                    return Err(e);
                },
            }
        },
        None => Vec::new(),
    };
    proof {
        let models = column_models(fill@);
        assert forall|j: int| 0 <= j < models.len() implies fills_field(
            *ctx,
            *taken,
            row_addrs@.options(),
            j,
            #[trigger] models[j],
        ) by {
            assert(models[j] == column_model(fill@[j]));
        }
        assert(fills(*ctx, *taken, row_addrs@.options(), models));
        if promises_fill(*ctx, *filtered, *taken, row_addrs@.options()) {
            assert forall|j: int| 0 <= j < models.len() implies {
                &&& (#[trigger] models[j]).data_type == ctx.filled()[j].data_type
                &&& models[j].cells.len() == row_addrs@.options().len()
            } by {
                assert(fills_field(*ctx, *taken, row_addrs@.options(), j, models[j]));
                assert(first_named(batch_fields(*taken), ctx.filled()[j].name) is Some);
            }
            law_assembled_columns_conform(
                *ctx,
                batch_fields(*filtered),
                batch_columns(*filtered),
                models,
            );
        }
    }
    assemble_batch(filtered, &fill, ctx)
}

} // verus!
