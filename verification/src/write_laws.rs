//! What holds of the columns and cells of every batch that is written.

use crate::arrow::{
    batch_columns, batch_fields, batch_rows, first_named, schema_fields, takes_rows, ArrayModel,
    Batch,
};
use crate::filler::{
    law_fill_shows_the_target, lemma_values_join, read_addresses, reading_error, shows,
    values_at,
};
use crate::layout::{
    is_control_name, layout_error, lemma_last_named, lemma_missing_fields_len,
    missing_fields, provided_by, source_of, written_field, WriteColumnSource, WriteStreamContext,
};
use crate::types::FieldModel;
use crate::write_batch::{
    all_null, any_matched, fills, fills_field, is_assembled, is_empty_batch, selected_addrs,
    selects,
};
use vstd::prelude::*;

verus! {

/// Field `k` of the dataset, if the input does not provide it, is the next
/// missing one after those before it.
proof fn lemma_missing_at(
    input: Seq<FieldModel>,
    dataset: Seq<FieldModel>,
    sentinel: Seq<char>,
    k: int,
)
    requires
        0 <= k < dataset.len(),
        provided_by(input, dataset[k].name, sentinel) is None,
    ensures
        ({
            let j = missing_fields(input, dataset.take(k), sentinel).len() as int;
            let missing = missing_fields(input, dataset, sentinel);
            &&& j < missing.len()
            &&& missing[j] == FieldModel { nullable: true, ..dataset[k] }
        }),
    decreases dataset.len(),
{
    let front = dataset.drop_last();
    if k < front.len() {
        lemma_missing_at(input, front, sentinel, k);
        assert(front.take(k) =~= dataset.take(k));
        assert(front[k] == dataset[k]);
    } else {
        assert(dataset.take(k) =~= front);
    }
}

/// Each missing field is one of the dataset.
proof fn lemma_missing_is_somewhere(
    input: Seq<FieldModel>,
    dataset: Seq<FieldModel>,
    sentinel: Seq<char>,
    j: int,
)
    requires
        0 <= j < missing_fields(input, dataset, sentinel).len(),
    ensures
        exists|k: int|
            {
                &&& 0 <= k < dataset.len()
                &&& provided_by(input, (#[trigger] dataset[k]).name, sentinel) is None
                &&& missing_fields(input, dataset.take(k), sentinel).len() == j
            },
    decreases dataset.len(),
{
    let front = dataset.drop_last();
    let before = missing_fields(input, front, sentinel);
    if j < before.len() {
        lemma_missing_is_somewhere(input, front, sentinel, j);
        let k = choose|k: int|
            {
                &&& 0 <= k < front.len()
                &&& provided_by(input, (#[trigger] front[k]).name, sentinel) is None
                &&& missing_fields(input, front.take(k), sentinel).len() == j
            };
        assert(front.take(k) =~= dataset.take(k));
        assert(dataset[k] == front[k]);
    } else {
        let k = dataset.len() - 1;
        assert(dataset.take(k) =~= front);
        assert(dataset[k] == dataset.last());
    }
}

/// The more fields, the more missing ones.
pub(crate) proof fn lemma_missing_grow(
    input: Seq<FieldModel>,
    dataset: Seq<FieldModel>,
    sentinel: Seq<char>,
    k: int,
)
    requires
        0 <= k <= dataset.len(),
    ensures
        missing_fields(input, dataset.take(k), sentinel).len() <= missing_fields(
            input,
            dataset,
            sentinel,
        ).len(),
    decreases dataset.len(),
{
    if k < dataset.len() {
        assert(dataset.drop_last().take(k) =~= dataset.take(k));
        lemma_missing_grow(input, dataset.drop_last(), sentinel, k);
    } else {
        assert(dataset.take(k) =~= dataset);
    }
}

/// The columns are written in the dataset's order and under its names. One that
/// comes from the input is the input's column of that name and no control
/// column; any other is filled, by the filled field that is the dataset's, made
/// nullable.
pub proof fn law_columns_follow_the_dataset(
    ctx: WriteStreamContext,
    input: Seq<FieldModel>,
    dataset: Seq<FieldModel>,
    sentinel: Seq<char>,
    k: int,
)
    requires
        ctx.lays_out(input, dataset, sentinel),
        input.len() <= usize::MAX,
        dataset.len() <= usize::MAX,
        0 <= k < dataset.len(),
    ensures
        ctx.column_sources.len() == dataset.len(),
        schema_fields(ctx.output_schema).len() == dataset.len(),
        schema_fields(ctx.output_schema)[k].name == dataset[k].name,
        match ctx.column_sources@[k] {
            WriteColumnSource::Input(i) => {
                &&& i < input.len()
                &&& input[i as int].name == dataset[k].name
                &&& !is_control_name(input[i as int].name, sentinel)
                &&& schema_fields(ctx.output_schema)[k] == input[i as int]
            },
            WriteColumnSource::FillFromTarget(j) => {
                &&& j < ctx.filled().len()
                &&& ctx.filled()[j as int] == FieldModel { nullable: true, ..dataset[k] }
                &&& schema_fields(ctx.output_schema)[k] == ctx.filled()[j as int]
                &&& is_control_name(dataset[k].name, sentinel) || forall|i: int|
                    0 <= i < input.len() ==> (#[trigger] input[i]).name != dataset[k].name
            },
        },
{
    assert(ctx.column_sources@[k] == source_of(input, dataset, sentinel, k));
    assert(schema_fields(ctx.output_schema)[k] == written_field(input, dataset, sentinel, k));
    lemma_last_named(input, dataset[k].name);
    if provided_by(input, dataset[k].name, sentinel) is None {
        lemma_missing_at(input, dataset, sentinel, k);
        lemma_missing_fields_len(input, dataset.take(k), sentinel);
    }
}

/// Every filled column is written, and only once.
pub proof fn law_filled_columns_are_used_once(
    ctx: WriteStreamContext,
    input: Seq<FieldModel>,
    dataset: Seq<FieldModel>,
    sentinel: Seq<char>,
    j: int,
)
    requires
        ctx.lays_out(input, dataset, sentinel),
        dataset.len() <= usize::MAX,
        0 <= j < ctx.filled().len(),
    ensures
        exists|k: int|
            {
                &&& 0 <= k < ctx.column_sources.len()
                &&& #[trigger] ctx.column_sources@[k] == WriteColumnSource::FillFromTarget(
                    j as usize,
                )
            },
        forall|k: int, m: int|
            0 <= k < m < ctx.column_sources.len() && (#[trigger] ctx.column_sources@[k])
                == WriteColumnSource::FillFromTarget(j as usize)
                ==> #[trigger] ctx.column_sources@[m] != WriteColumnSource::FillFromTarget(
                j as usize,
            ),
{
    lemma_missing_is_somewhere(input, dataset, sentinel, j);
    let k = choose|k: int|
        {
            &&& 0 <= k < dataset.len()
            &&& provided_by(input, (#[trigger] dataset[k]).name, sentinel) is None
            &&& missing_fields(input, dataset.take(k), sentinel).len() == j
        };
    assert(ctx.column_sources@[k] == source_of(input, dataset, sentinel, k));
    assert forall|k: int, m: int|
        0 <= k < m < ctx.column_sources.len() && (#[trigger] ctx.column_sources@[k])
            == WriteColumnSource::FillFromTarget(
            j as usize,
        ) implies #[trigger] ctx.column_sources@[m] != WriteColumnSource::FillFromTarget(
        j as usize,
    ) by {
        assert(ctx.column_sources@[k] == source_of(input, dataset, sentinel, k));
        assert(ctx.column_sources@[m] == source_of(input, dataset, sentinel, m));
        lemma_missing_fields_len(input, dataset.take(k), sentinel);
        lemma_missing_fields_len(input, dataset.take(m), sentinel);
        let upto = dataset.take(k + 1);
        assert(upto.drop_last() =~= dataset.take(k));
        assert(upto.last() == dataset[k]);
        lemma_missing_grow(input, dataset.take(m), sentinel, k + 1);
        assert(dataset.take(m).take(k + 1) =~= upto);
    }
}

/// Nothing is filled if and only if the input provides every column of the
/// dataset.
pub proof fn law_full_source_fills_nothing(
    ctx: WriteStreamContext,
    input: Seq<FieldModel>,
    dataset: Seq<FieldModel>,
    sentinel: Seq<char>,
)
    requires
        ctx.lays_out(input, dataset, sentinel),
    ensures
        ctx.filler is None <==> forall|k: int|
            0 <= k < dataset.len() ==> provided_by(
                input,
                (#[trigger] dataset[k]).name,
                sentinel,
            ) is Some,
{
    if ctx.filler is None {
        assert forall|k: int| 0 <= k < dataset.len() implies provided_by(
            input,
            (#[trigger] dataset[k]).name,
            sentinel,
        ) is Some by {
            if provided_by(input, dataset[k].name, sentinel) is None {
                lemma_missing_at(input, dataset, sentinel, k);
            }
        }
    } else {
        lemma_missing_is_somewhere(input, dataset, sentinel, 0);
    }
}

/// A layout that was found is made for the input that it was found for: batches
/// of that input can be written under it.
pub proof fn law_layout_is_made_for_its_input(
    ctx: WriteStreamContext,
    input: Seq<FieldModel>,
    dataset: Seq<FieldModel>,
    sentinel: Seq<char>,
)
    requires
        layout_error(input, dataset, sentinel) is None,
        ctx.lays_out(input, dataset, sentinel),
        input.len() <= usize::MAX,
        dataset.len() <= usize::MAX,
    ensures
        ctx.made_for(input),
{
    assert forall|k: int| 0 <= k < ctx.column_sources.len() implies match
        #[trigger] ctx.column_sources@[k] {
        WriteColumnSource::Input(i) => {
            &&& i < input.len()
            &&& schema_fields(ctx.output_schema)[k] == input[i as int]
        },
        WriteColumnSource::FillFromTarget(j) => {
            &&& j < ctx.filled().len()
            &&& schema_fields(ctx.output_schema)[k] == ctx.filled()[j as int]
            &&& ctx.filled()[j as int].nullable
        },
    } by {
        law_columns_follow_the_dataset(ctx, input, dataset, sentinel, k);
    }
}

/// The columns fill the rows with the values of the target: column `j` has, for
/// each row, `targets[j]` at its address, and NULL without one.
pub open spec fn fills_from_target(
    fill: Seq<ArrayModel>,
    targets: Seq<spec_fn(u64) -> Option<int>>,
    row_addrs: Seq<Option<u64>>,
) -> bool {
    &&& fill.len() == targets.len()
    &&& forall|j: int|
        0 <= j < fill.len() ==> (#[trigger] fill[j]).cells == values_at(targets[j], row_addrs)
}

/// A column that the source does not provide keeps the target's values where a
/// row replaces a target row, and is NULL where a row is new: each kept row
/// gets the value that was read from its address, wherever it was read to. This
/// is so where no more rows were read than positions can count.
pub proof fn law_partial_source_keeps_target_values(
    ctx: WriteStreamContext,
    taken: Batch,
    row_addrs: Seq<Option<u64>>,
    fill: Seq<ArrayModel>,
    targets: Seq<spec_fn(u64) -> Option<int>>,
)
    requires
        fills(ctx, taken, row_addrs, fill),
        reading_error(batch_fields(taken), batch_columns(taken), row_addrs) is None,
        read_addresses(batch_fields(taken), batch_columns(taken)).len() <= 0x1_0000_0000,
        targets.len() == ctx.filled().len(),
        forall|j: int|
            0 <= j < ctx.filled().len() ==> shown_column(
                ctx,
                taken,
                j,
                #[trigger] targets[j],
            ),
    ensures
        fills_from_target(fill, targets, row_addrs),
{
    let read = read_addresses(batch_fields(taken), batch_columns(taken));
    assert forall|j: int| 0 <= j < fill.len() implies (#[trigger] fill[j]).cells == values_at(
        targets[j],
        row_addrs,
    ) by {
        assert(fills_field(ctx, taken, row_addrs, j, fill[j]));
        assert(shown_column(ctx, taken, j, targets[j]));
        law_fill_shows_the_target(
            batch_columns(taken)[first_named(batch_fields(taken), ctx.filled()[j].name)->0],
            read,
            row_addrs,
            fill[j],
            targets[j],
        );
    }
}

/// The column that was read for filled field `j` shows the target's.
pub open spec fn shown_column(
    ctx: WriteStreamContext,
    taken: Batch,
    j: int,
    target: spec_fn(u64) -> Option<int>,
) -> bool {
    let from = batch_columns(taken)[first_named(batch_fields(taken), ctx.filled()[j].name)->0];
    shows(from, read_addresses(batch_fields(taken), batch_columns(taken)), target)
}

/// Where no kept row replaces a target row, a column that the source does not
/// provide is NULL throughout.
pub proof fn law_new_rows_get_null(
    filled: Seq<FieldModel>,
    row_addrs: Seq<Option<u64>>,
    fill: Seq<ArrayModel>,
    targets: Seq<spec_fn(u64) -> Option<int>>,
)
    requires
        all_null(filled, row_addrs.len(), fill),
        filled.len() > 0 ==> !any_matched(row_addrs),
        targets.len() == filled.len(),
    ensures
        fills_from_target(fill, targets, row_addrs),
{
    assert forall|j: int| 0 <= j < fill.len() implies (#[trigger] fill[j]).cells == values_at(
        targets[j],
        row_addrs,
    ) by {
        assert forall|i: int| 0 <= i < row_addrs.len() implies row_addrs[i] is None by {}
        assert(fill[j].cells =~= values_at(targets[j], row_addrs));
    }
}

/// The batch `b` is what is written of the rows `keep_rows` of `batch`, where the
/// target's columns that the source does not provide hold `targets`.
pub open spec fn writes(
    ctx: WriteStreamContext,
    batch: Batch,
    keep_rows: Seq<u32>,
    targets: Seq<spec_fn(u64) -> Option<int>>,
    b: Batch,
) -> bool {
    if keep_rows.len() == 0 {
        is_empty_batch(ctx, b)
    } else {
        exists|filtered: Batch, fill: Seq<ArrayModel>|
            {
                &&& #[trigger] selects(batch, keep_rows, filtered)
                &&& #[trigger] is_assembled(ctx, filtered, fill, b)
                &&& fills_from_target(fill, targets, selected_addrs(ctx, batch, keep_rows))
                &&& fill.len() == ctx.filled().len()
            }
    }
}

/// A batch that is complete at once, because no column is filled or no kept row
/// replaces a target row, is what is written of the rows.
pub proof fn law_complete_batches_are_written(
    ctx: WriteStreamContext,
    batch: Batch,
    keep_rows: Seq<u32>,
    targets: Seq<spec_fn(u64) -> Option<int>>,
    b: Batch,
)
    requires
        keep_rows.len() > 0,
        targets.len() == ctx.filled().len(),
        exists|filtered: Batch, fill: Seq<ArrayModel>|
            {
                &&& #[trigger] selects(batch, keep_rows, filtered)
                &&& #[trigger] all_null(ctx.filled(), keep_rows.len(), fill)
                &&& is_assembled(ctx, filtered, fill, b)
                &&& ctx.filler is Some ==> !any_matched(selected_addrs(ctx, batch, keep_rows))
            },
    ensures
        writes(ctx, batch, keep_rows, targets, b),
{
    let (filtered, fill) = choose|filtered: Batch, fill: Seq<ArrayModel>|
        {
            &&& #[trigger] selects(batch, keep_rows, filtered)
            &&& #[trigger] all_null(ctx.filled(), keep_rows.len(), fill)
            &&& is_assembled(ctx, filtered, fill, b)
            &&& ctx.filler is Some ==> !any_matched(selected_addrs(ctx, batch, keep_rows))
        };
    law_new_rows_get_null(ctx.filled(), selected_addrs(ctx, batch, keep_rows), fill, targets);
    assert(selects(batch, keep_rows, filtered) && is_assembled(ctx, filtered, fill, b));
}

/// A batch that is completed with the rows that were read from the target is what
/// is written of the rows. This is so where no more rows were read than positions
/// can count.
pub proof fn law_resumed_batches_are_written(
    ctx: WriteStreamContext,
    batch: Batch,
    keep_rows: Seq<u32>,
    filtered: Batch,
    taken: Batch,
    targets: Seq<spec_fn(u64) -> Option<int>>,
    b: Batch,
)
    requires
        keep_rows.len() > 0,
        selects(batch, keep_rows, filtered),
        reading_error(
            batch_fields(taken),
            batch_columns(taken),
            selected_addrs(ctx, batch, keep_rows),
        ) is None,
        read_addresses(batch_fields(taken), batch_columns(taken)).len() <= 0x1_0000_0000,
        targets.len() == ctx.filled().len(),
        forall|j: int|
            0 <= j < ctx.filled().len() ==> shown_column(
                ctx,
                taken,
                j,
                #[trigger] targets[j],
            ),
        exists|fill: Seq<ArrayModel>|
            {
                &&& #[trigger] fills(ctx, taken, selected_addrs(ctx, batch, keep_rows), fill)
                &&& is_assembled(ctx, filtered, fill, b)
            },
    ensures
        writes(ctx, batch, keep_rows, targets, b),
{
    let row_addrs = selected_addrs(ctx, batch, keep_rows);
    let fill = choose|fill: Seq<ArrayModel>|
        {
            &&& #[trigger] fills(ctx, taken, row_addrs, fill)
            &&& is_assembled(ctx, filtered, fill, b)
        };
    law_partial_source_keeps_target_values(ctx, taken, row_addrs, fill, targets);
    assert(selects(batch, keep_rows, filtered) && is_assembled(ctx, filtered, fill, b));
}

/// What is written of column `k`: of one that the source provides, the source's
/// value in each kept row; of another, the target's value at the row's address,
/// or NULL for a row without one.
pub open spec fn written_cells(
    ctx: WriteStreamContext,
    batch: Batch,
    keep_rows: Seq<u32>,
    targets: Seq<spec_fn(u64) -> Option<int>>,
    k: int,
) -> Seq<Option<int>> {
    match ctx.column_sources@[k] {
        WriteColumnSource::Input(i) => keep_rows.map_values(
            |r: u32| batch_columns(batch)[i as int].cells[r as int],
        ),
        WriteColumnSource::FillFromTarget(j) => values_at(
            targets[j as int],
            selected_addrs(ctx, batch, keep_rows),
        ),
    }
}

/// A written batch has one row for each kept row, in this order. Each cell is
/// the source's value, or the target's at the row's address, or NULL.
pub proof fn law_written_cells(
    ctx: WriteStreamContext,
    batch: Batch,
    keep_rows: Seq<u32>,
    targets: Seq<spec_fn(u64) -> Option<int>>,
    b: Batch,
)
    requires
        ctx.wf(),
        ctx.fits(batch),
        writes(ctx, batch, keep_rows, targets, b),
    ensures
        batch_fields(b) == schema_fields(ctx.output_schema),
        batch_rows(b) == keep_rows.len(),
        batch_columns(b).len() == ctx.column_sources.len(),
        forall|k: int|
            0 <= k < ctx.column_sources.len() ==> (#[trigger] batch_columns(b)[k]).cells
                == written_cells(ctx, batch, keep_rows, targets, k),
{
    if keep_rows.len() > 0 {
        let (filtered, fill) = choose|filtered: Batch, fill: Seq<ArrayModel>|
            {
                &&& #[trigger] selects(batch, keep_rows, filtered)
                &&& #[trigger] is_assembled(ctx, filtered, fill, b)
                &&& fills_from_target(fill, targets, selected_addrs(ctx, batch, keep_rows))
                &&& fill.len() == ctx.filled().len()
            };
        assert forall|k: int| 0 <= k < ctx.column_sources.len() implies (
        #[trigger] batch_columns(b)[k]).cells == written_cells(
            ctx,
            batch,
            keep_rows,
            targets,
            k,
        ) by {
            match ctx.column_sources@[k] {
                WriteColumnSource::Input(i) => {
                    assert(takes_rows(
                        batch_columns(batch)[i as int],
                        keep_rows,
                        batch_columns(filtered)[i as int],
                    ));
                    assert(batch_columns(b)[k] == batch_columns(filtered)[i as int]);
                },
                WriteColumnSource::FillFromTarget(j) => {
                    assert(batch_columns(b)[k] == fill[j as int]);
                },
            }
            assert(batch_columns(b)[k].cells =~= written_cells(
                ctx,
                batch,
                keep_rows,
                targets,
                k,
            ));
        }
        assert(batch_columns(b)[0].cells.len() == keep_rows.len());
    } else {
        assert forall|k: int| 0 <= k < ctx.column_sources.len() implies (
        #[trigger] batch_columns(b)[k]).cells == written_cells(
            ctx,
            batch,
            keep_rows,
            targets,
            k,
        ) by {
            assert(batch_columns(b)[k].cells =~= written_cells(
                ctx,
                batch,
                keep_rows,
                targets,
                k,
            ));
        }
    }
}

/// Rows that are kept together are written as they are in two batches, one after
/// the other.
pub proof fn law_joined_rows_are_written_in_turn(
    ctx: WriteStreamContext,
    batch: Batch,
    first: Seq<u32>,
    second: Seq<u32>,
    targets: Seq<spec_fn(u64) -> Option<int>>,
    a: Batch,
    b: Batch,
    both: Batch,
)
    requires
        ctx.wf(),
        ctx.fits(batch),
        writes(ctx, batch, first, targets, a),
        writes(ctx, batch, second, targets, b),
        writes(ctx, batch, first + second, targets, both),
    ensures
        batch_fields(both) == batch_fields(a),
        batch_fields(both) == batch_fields(b),
        batch_rows(both) == batch_rows(a) + batch_rows(b),
        batch_columns(both).len() == batch_columns(a).len(),
        batch_columns(both).len() == batch_columns(b).len(),
        forall|k: int|
            0 <= k < batch_columns(both).len() ==> (#[trigger] batch_columns(both)[k]).cells
                == batch_columns(a)[k].cells + batch_columns(b)[k].cells,
{
    law_written_cells(ctx, batch, first, targets, a);
    law_written_cells(ctx, batch, second, targets, b);
    law_written_cells(ctx, batch, first + second, targets, both);
    let addrs = selected_addrs(ctx, batch, first);
    let more = selected_addrs(ctx, batch, second);
    assert(selected_addrs(ctx, batch, first + second) =~= addrs + more);
    assert forall|k: int| 0 <= k < batch_columns(both).len() implies (
    #[trigger] batch_columns(both)[k]).cells == batch_columns(a)[k].cells
        + batch_columns(b)[k].cells by {
        if let WriteColumnSource::FillFromTarget(j) = ctx.column_sources@[k] {
            lemma_values_join(targets[j as int], addrs, more);
        }
        assert(batch_columns(both)[k].cells =~= batch_columns(a)[k].cells
            + batch_columns(b)[k].cells);
    }
}

} // verus!
