//! What stands in each cell of a written batch, in terms of the cells of the batch
//! that it was made of and of the rows that were read for it.

use crate::arrow::{
    batch_columns, batch_fields, batch_rows, first_named, lemma_first_named, schema_fields,
    takes_rows, ArrayModel, Batch,
};
use crate::columns::{UInt64Column, UInt64Model};
use crate::fill_laws::{law_filled_cells_are_those_read, law_reading_fails_for_a_reason};
use crate::filler::reading_error;
use crate::layout::{WriteColumnSource, WriteStreamContext};
use crate::layout_laws::law_columns_come_from_the_input_by_name;
use crate::types::{field_model, FieldModel};
use crate::write_batch::{
    all_null, any_matched, fills, fills_field, is_assembled, selected_addrs, selects,
};
use vstd::prelude::*;

verus! {

/// The target has to be read exactly where the slot of addresses of some row to
/// write counts.
pub proof fn law_target_is_read_where_rows_match(
    ctx: WriteStreamContext,
    batch: Batch,
    keep_rows: Seq<u32>,
    addrs: UInt64Model,
)
    requires
        batch_columns(batch)[ctx.rowaddr_idx as int].uint64 == Some(addrs),
    ensures
        any_matched(selected_addrs(ctx, batch, keep_rows)) <==> exists|i: int|
            0 <= i < keep_rows.len() && addrs.valid[#[trigger] keep_rows[i] as int],
{
    let found = selected_addrs(ctx, batch, keep_rows);
    if any_matched(found) {
        let i = choose|i: int| 0 <= i < found.len() && #[trigger] found[i] is Some;
        assert(addrs.valid[keep_rows[i] as int]);
    }
    if exists|i: int| 0 <= i < keep_rows.len() && addrs.valid[#[trigger] keep_rows[i] as int] {
        let i = choose|i: int|
            0 <= i < keep_rows.len() && addrs.valid[#[trigger] keep_rows[i] as int];
        assert(found[i] is Some);
    }
}

/// The addresses that go with the rows to write are those in the slots of these
/// rows.
pub proof fn law_selected_addresses_are_those_of_the_rows(
    ctx: WriteStreamContext,
    batch: Batch,
    keep_rows: Seq<u32>,
    addrs: UInt64Model,
    row_addrs: UInt64Column,
)
    requires
        batch_columns(batch)[ctx.rowaddr_idx as int].uint64 == Some(addrs),
        row_addrs.values@.len() == row_addrs.valid@.len(),
        row_addrs@.options() == selected_addrs(ctx, batch, keep_rows),
    ensures
        row_addrs.values@.len() == keep_rows.len(),
        forall|i: int|
            0 <= i < keep_rows.len() ==> #[trigger] row_addrs.valid@[i]
                == addrs.valid[keep_rows[i] as int],
        forall|i: int|
            0 <= i < keep_rows.len() && row_addrs.valid@[i] ==> #[trigger] row_addrs.values@[i]
                == addrs.values[keep_rows[i] as int],
{
    let options = row_addrs@.options();
    assert(options.len() == row_addrs.values@.len());
    assert(selected_addrs(ctx, batch, keep_rows).len() == keep_rows.len());
    assert forall|i: int| 0 <= i < keep_rows.len() implies #[trigger] row_addrs.valid@[i]
        == addrs.valid[keep_rows[i] as int] by {
        assert(options[i] == selected_addrs(ctx, batch, keep_rows)[i]);
    }
    assert forall|i: int|
        0 <= i < keep_rows.len() && row_addrs.valid@[i] implies #[trigger] row_addrs.values@[i]
        == addrs.values[keep_rows[i] as int] by {
        assert(options[i] == selected_addrs(ctx, batch, keep_rows)[i]);
    }
}

/// A batch that is complete at once has one row for each row to write, in this
/// order. A column from the input has the input's cell of that row. A column that
/// is filled has NULL, and then no row to write matches a target row.
pub proof fn law_cells_of_complete_batches(
    ctx: WriteStreamContext,
    batch: Batch,
    keep_rows: Seq<u32>,
    b: Batch,
    addrs: UInt64Model,
)
    requires
        ctx.wf(),
        ctx.fits(batch),
        keep_rows.len() > 0,
        batch_columns(batch)[ctx.rowaddr_idx as int].uint64 == Some(addrs),
        exists|filtered: Batch, fill: Seq<ArrayModel>|
            {
                &&& #[trigger] selects(batch, keep_rows, filtered)
                &&& #[trigger] all_null(ctx.filled(), keep_rows.len(), fill)
                &&& is_assembled(ctx, filtered, fill, b)
                &&& ctx.filler is Some ==> {
                    &&& batch_columns(batch)[ctx.rowaddr_idx as int].uint64 is Some
                    &&& !any_matched(selected_addrs(ctx, batch, keep_rows))
                }
            },
    ensures
        batch_rows(b) == keep_rows.len(),
        batch_fields(b) == schema_fields(ctx.output_schema),
        batch_columns(b).len() == ctx.column_sources@.len(),
        forall|k: int|
            0 <= k < ctx.column_sources@.len() ==> (#[trigger] batch_columns(b)[k]).cells.len()
                == keep_rows.len(),
        forall|k: int, i: int|
            0 <= k < ctx.column_sources@.len() && 0 <= i < keep_rows.len()
                ==> #[trigger] batch_columns(b)[k].cells[i] == match ctx.column_sources@[k] {
                WriteColumnSource::Input(c) => batch_columns(
                    batch,
                )[c as int].cells[keep_rows[i] as int],
                WriteColumnSource::FillFromTarget(_) => None,
            },
        forall|k: int, i: int|
            0 <= k < ctx.column_sources@.len() && 0 <= i < keep_rows.len()
                && #[trigger] ctx.column_sources@[k] is FillFromTarget
                ==> !addrs.valid[#[trigger] keep_rows[i] as int],
{
    let (filtered, fill) = choose|filtered: Batch, fill: Seq<ArrayModel>|
        {
            &&& #[trigger] selects(batch, keep_rows, filtered)
            &&& #[trigger] all_null(ctx.filled(), keep_rows.len(), fill)
            &&& is_assembled(ctx, filtered, fill, b)
            &&& ctx.filler is Some ==> {
                &&& batch_columns(batch)[ctx.rowaddr_idx as int].uint64 is Some
                &&& !any_matched(selected_addrs(ctx, batch, keep_rows))
            }
        };
    law_target_is_read_where_rows_match(ctx, batch, keep_rows, addrs);
    assert forall|k: int| 0 <= k < ctx.column_sources@.len() implies (
    #[trigger] batch_columns(b)[k]).cells.len() == keep_rows.len() by {
        lemma_made_column(ctx, batch, keep_rows, filtered, fill, b, k);
    }
    assert forall|k: int, i: int|
        0 <= k < ctx.column_sources@.len() && 0 <= i
            < keep_rows.len() implies #[trigger] batch_columns(b)[k].cells[i] == match ctx.column_sources@[k] {
        WriteColumnSource::Input(c) => batch_columns(batch)[c as int].cells[keep_rows[i] as int],
        WriteColumnSource::FillFromTarget(_) => None,
    } by {
        lemma_made_column(ctx, batch, keep_rows, filtered, fill, b, k);
    }
    assert forall|k: int, i: int|
        0 <= k < ctx.column_sources@.len() && 0 <= i < keep_rows.len()
            && #[trigger] ctx.column_sources@[k] is FillFromTarget implies !addrs.valid[
        #[trigger] keep_rows[i] as int] by {
        assert(ctx.filled().len() > 0);
    }
    assert(batch_columns(b)[0].cells.len() == keep_rows.len());
}

/// Column `k` of a batch that was put together.
proof fn lemma_made_column(
    ctx: WriteStreamContext,
    batch: Batch,
    keep_rows: Seq<u32>,
    filtered: Batch,
    fill: Seq<ArrayModel>,
    b: Batch,
    k: int,
)
    requires
        ctx.wf(),
        ctx.fits(batch),
        selects(batch, keep_rows, filtered),
        is_assembled(ctx, filtered, fill, b),
        0 <= k < ctx.column_sources@.len(),
    ensures
        batch_columns(b).len() == ctx.column_sources@.len(),
        match ctx.column_sources@[k] {
            WriteColumnSource::Input(c) => takes_rows(
                batch_columns(batch)[c as int],
                keep_rows,
                batch_columns(b)[k],
            ),
            WriteColumnSource::FillFromTarget(j) => batch_columns(b)[k] == fill[j as int],
        },
{
    match ctx.column_sources@[k] {
        WriteColumnSource::Input(c) => {
            assert(takes_rows(
                batch_columns(batch)[c as int],
                keep_rows,
                batch_columns(filtered)[c as int],
            ));
            assert(batch_columns(b)[k] == batch_columns(filtered)[c as int]);
        },
        WriteColumnSource::FillFromTarget(j) => {
            assert(batch_columns(b)[k] == fill[j as int]);
        },
    }
}

/// A batch that is completed with the rows that were read from the target has one
/// row for each row to write, in this order. A column from the input has the
/// input's cell of that row. A column that is filled has NULL where the slot of
/// addresses does not count; otherwise it has the cell of the row that was read
/// from that address, whatever address it is, in the first column read that has the
/// name of the filled field. This is so where no more rows were read than positions
/// can count.
pub proof fn law_cells_of_resumed_batches(
    ctx: WriteStreamContext,
    batch: Batch,
    keep_rows: Seq<u32>,
    addrs: UInt64Model,
    filtered: Batch,
    row_addrs: UInt64Column,
    taken: Batch,
    at: int,
    read: UInt64Model,
    b: Batch,
    k: int,
    i: int,
    f: int,
    p: int,
)
    requires
        ctx.wf(),
        ctx.fits(batch),
        0 <= k < ctx.column_sources@.len(),
        0 <= i < keep_rows.len(),
        keep_rows.len() > 0,
        batch_columns(batch)[ctx.rowaddr_idx as int].uint64 == Some(addrs),
        selects(batch, keep_rows, filtered),
        row_addrs.values@.len() == row_addrs.valid@.len(),
        row_addrs@.options() == selected_addrs(ctx, batch, keep_rows),
        0 <= at < batch_fields(taken).len(),
        batch_fields(taken)[at].name == "_rowaddr"@,
        forall|i: int| 0 <= i < at ==> (#[trigger] batch_fields(taken)[i]).name != "_rowaddr"@,
        batch_columns(taken)[at].uint64 == Some(read),
        read.values.len() <= 0x1_0000_0000,
        reading_error(batch_fields(taken), batch_columns(taken), row_addrs@.options()) is None,
        exists|fill: Seq<ArrayModel>|
            {
                &&& #[trigger] fills(ctx, taken, row_addrs@.options(), fill)
                &&& is_assembled(ctx, filtered, fill, b)
            },
    ensures
        batch_rows(b) == keep_rows.len(),
        batch_fields(b) == schema_fields(ctx.output_schema),
        batch_columns(b).len() == ctx.column_sources@.len(),
        batch_columns(b)[k].cells.len() == keep_rows.len(),
        match ctx.column_sources@[k] {
            WriteColumnSource::Input(c) => batch_columns(b)[k].cells[i] == batch_columns(
                batch,
            )[c as int].cells[keep_rows[i] as int],
            WriteColumnSource::FillFromTarget(j) => {
                let name = field_model((ctx.filler->0).fields@[j as int]).name;
                &&& !addrs.valid[keep_rows[i] as int] ==> batch_columns(b)[k].cells[i] is None
                &&& {
                    &&& addrs.valid[keep_rows[i] as int]
                    &&& 0 <= f < batch_fields(taken).len()
                    &&& batch_fields(taken)[f].name == name
                    &&& forall|g: int| 0 <= g < f ==> (#[trigger] batch_fields(taken)[g]).name != name
                    &&& 0 <= p < read.values.len()
                    &&& read.values[p] == addrs.values[keep_rows[i] as int]
                    &&& forall|q: int|
                        p < q < read.values.len() ==> #[trigger] read.values[q]
                            != addrs.values[keep_rows[i] as int]
                } ==> batch_columns(b)[k].cells[i] == batch_columns(taken)[f].cells[p]
            },
        },
{
    let rows = row_addrs@;
    let fill = choose|fill: Seq<ArrayModel>|
        {
            &&& #[trigger] fills(ctx, taken, row_addrs@.options(), fill)
            &&& is_assembled(ctx, filtered, fill, b)
        };
    law_selected_addresses_are_those_of_the_rows(ctx, batch, keep_rows, addrs, row_addrs);
    law_reading_fails_for_a_reason(batch_fields(taken), batch_columns(taken), rows, at, read);
    lemma_made_column(ctx, batch, keep_rows, filtered, fill, b, k);
    if let WriteColumnSource::FillFromTarget(j) = ctx.column_sources@[k] {
        let name = ctx.filled()[j as int].name;
        lemma_first_named(batch_fields(taken), name);
        assert(fills_field(ctx, taken, rows.options(), j as int, fill[j as int]));
        let from = batch_columns(taken)[first_named(batch_fields(taken), name)->0];
        law_filled_cells_are_those_read(from, read.values, rows, fill[j as int]);
        assert(fill[j as int].cells[i] == batch_columns(b)[k].cells[i]);
        assert(row_addrs.valid@[i] == addrs.valid[keep_rows[i] as int]);
        if addrs.valid[keep_rows[i] as int] {
            assert(rows.values[i] == addrs.values[keep_rows[i] as int]);
        }
    }
    lemma_made_column(ctx, batch, keep_rows, filtered, fill, b, 0);
    assert(batch_columns(b)[0].cells.len() == batch_columns(b)[k].cells.len());
}

/// What the source says of a column reaches the written column of that name: the
/// cell of each row to write is the one of the last input column of that name, unless
/// the name is `_rowaddr`, `_rowid`, `__action` or the sentinel. A column whose name
/// the input does not have is NULL in a batch that is complete at once.
pub proof fn law_source_values_reach_their_columns(
    ctx: WriteStreamContext,
    dataset: Seq<FieldModel>,
    sentinel: Seq<char>,
    batch: Batch,
    keep_rows: Seq<u32>,
    b: Batch,
    addrs: UInt64Model,
    k: int,
    c: int,
    i: int,
)
    requires
        ctx.wf(),
        ctx.fits(batch),
        ctx.lays_out(batch_fields(batch), dataset, sentinel),
        batch_fields(batch).len() <= usize::MAX,
        dataset.len() <= usize::MAX,
        0 <= k < dataset.len(),
        0 <= i < keep_rows.len(),
        batch_columns(batch)[ctx.rowaddr_idx as int].uint64 == Some(addrs),
        exists|filtered: Batch, fill: Seq<ArrayModel>|
            {
                &&& #[trigger] selects(batch, keep_rows, filtered)
                &&& #[trigger] all_null(ctx.filled(), keep_rows.len(), fill)
                &&& is_assembled(ctx, filtered, fill, b)
                &&& ctx.filler is Some ==> {
                    &&& batch_columns(batch)[ctx.rowaddr_idx as int].uint64 is Some
                    &&& !any_matched(selected_addrs(ctx, batch, keep_rows))
                }
            },
    ensures
        batch_columns(b).len() == dataset.len(),
        batch_fields(b)[k].name == dataset[k].name,
        ({
            let name = dataset[k].name;
            let steers = name == "_rowaddr"@ || name == "_rowid"@ || name == "__action"@ || name
                == sentinel;
            &&& !steers && 0 <= c < batch_fields(batch).len() && batch_fields(batch)[c].name == name
                && (forall|d: int|
                c < d < batch_fields(batch).len() ==> (#[trigger] batch_fields(batch)[d]).name
                    != name) ==> batch_columns(b)[k].cells[i] == batch_columns(
                batch,
            )[c].cells[keep_rows[i] as int]
            &&& steers || (forall|d: int|
                0 <= d < batch_fields(batch).len() ==> (#[trigger] batch_fields(batch)[d]).name
                    != name) ==> batch_columns(b)[k].cells[i] is None
        }),
{
    let input = batch_fields(batch);
    law_columns_come_from_the_input_by_name(ctx, input, dataset, sentinel, k);
    law_cells_of_complete_batches(ctx, batch, keep_rows, b, addrs);
    let cell = batch_columns(b)[k].cells[i];
    assert(cell == match ctx.column_sources@[k] {
        WriteColumnSource::Input(c) => batch_columns(batch)[c as int].cells[keep_rows[i] as int],
        WriteColumnSource::FillFromTarget(_) => None,
    });
    if 0 <= c < input.len() && input[c].name == dataset[k].name && (forall|d: int|
        c < d < input.len() ==> (#[trigger] input[d]).name != dataset[k].name) {
        if let WriteColumnSource::Input(at) = ctx.column_sources@[k] {
            assert(at == c) by {
                if at < c {
                    assert(input[c].name != dataset[k].name);
                }
                if c < at {
                    assert(input[at as int].name != dataset[k].name);
                }
            }
        }
    }
}

} // verus!
