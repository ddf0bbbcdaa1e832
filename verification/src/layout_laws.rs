//! Where the columns that are written come from, column by column and by name.

use crate::arrow::{batch_columns, first_named, lemma_first_named, schema_fields, Batch};
use crate::error::{ControlColumn, MergeError};
use crate::layout::{
    last_named, layout_error, lemma_last_named, lemma_missing_fields_len, provided_by,
    provides_any, source_of, WriteColumnSource, WriteStreamContext,
};
use crate::types::{field_model, FieldModel};
use crate::write_laws::{
    law_columns_follow_the_dataset, law_full_source_fills_nothing, lemma_missing_grow,
};
use vstd::prelude::*;

verus! {

/// A dataset column comes from the input exactly if the input has a column of its
/// name and the name is none of `_rowaddr`, `_rowid`, `__action` and the sentinel:
/// then it is the last input column of that name, written under the input's field.
/// Any other dataset column is filled, and written under the dataset's field, made
/// nullable.
pub proof fn law_columns_come_from_the_input_by_name(
    ctx: WriteStreamContext,
    input: Seq<FieldModel>,
    dataset: Seq<FieldModel>,
    sentinel: Seq<char>,
    k: int,
)
    requires
        ctx.lays_out(input, dataset, sentinel),
        input.len() <= usize::MAX,
        dataset.len() <= usize::MAX,
        0 <= k < dataset.len(),
    ensures
        ctx.column_sources@.len() == dataset.len(),
        schema_fields(ctx.output_schema).len() == dataset.len(),
        ctx.column_sources@[k] is Input <==> {
            &&& dataset[k].name != "_rowaddr"@
            &&& dataset[k].name != "_rowid"@
            &&& dataset[k].name != "__action"@
            &&& dataset[k].name != sentinel
            &&& exists|i: int| 0 <= i < input.len() && (#[trigger] input[i]).name == dataset[k].name
        },
        match ctx.column_sources@[k] {
            WriteColumnSource::Input(i) => {
                &&& i < input.len()
                &&& input[i as int].name == dataset[k].name
                &&& forall|j: int|
                    i < j < input.len() ==> (#[trigger] input[j]).name != dataset[k].name
                &&& schema_fields(ctx.output_schema)[k] == input[i as int]
            },
            WriteColumnSource::FillFromTarget(j) => {
                &&& ctx.filler is Some
                &&& j < (ctx.filler->0).fields@.len()
                &&& field_model((ctx.filler->0).fields@[j as int]) == (FieldModel {
                    nullable: true,
                    ..dataset[k]
                })
                &&& schema_fields(ctx.output_schema)[k] == (FieldModel {
                    nullable: true,
                    ..dataset[k]
                })
            },
        },
{
    law_columns_follow_the_dataset(ctx, input, dataset, sentinel, k);
    lemma_last_named(input, dataset[k].name);
    assert(ctx.column_sources@[k] == source_of(input, dataset, sentinel, k));
    if let Some(i) = last_named(input, dataset[k].name) {
        assert(input[i].name == dataset[k].name);
    }
}

/// Nothing is filled exactly if every dataset column has a name that the input has
/// and that is none of `_rowaddr`, `_rowid`, `__action` and the sentinel. The filled
/// columns stand in the dataset's order.
pub proof fn law_filled_columns_are_those_missing(
    ctx: WriteStreamContext,
    input: Seq<FieldModel>,
    dataset: Seq<FieldModel>,
    sentinel: Seq<char>,
)
    requires
        ctx.lays_out(input, dataset, sentinel),
        input.len() <= usize::MAX,
        dataset.len() <= usize::MAX,
    ensures
        ctx.filler is None <==> forall|k: int|
            0 <= k < dataset.len() ==> {
                &&& (#[trigger] dataset[k]).name != "_rowaddr"@
                &&& dataset[k].name != "_rowid"@
                &&& dataset[k].name != "__action"@
                &&& dataset[k].name != sentinel
                &&& exists|i: int|
                    0 <= i < input.len() && (#[trigger] input[i]).name == dataset[k].name
            },
        ctx.filler is Some ==> (ctx.filler->0).fields@.len() > 0,
        forall|k: int, m: int|
            0 <= k < m < dataset.len() && ctx.column_sources@[k] is FillFromTarget
                && ctx.column_sources@[m] is FillFromTarget ==> (
            #[trigger] ctx.column_sources@[k])->FillFromTarget_0 < (
            #[trigger] ctx.column_sources@[m])->FillFromTarget_0,
{
    law_full_source_fills_nothing(ctx, input, dataset, sentinel);
    assert forall|k: int| 0 <= k < dataset.len() implies (provided_by(
        input,
        (#[trigger] dataset[k]).name,
        sentinel,
    ) is Some <==> {
        &&& dataset[k].name != "_rowaddr"@
        &&& dataset[k].name != "_rowid"@
        &&& dataset[k].name != "__action"@
        &&& dataset[k].name != sentinel
        &&& exists|i: int| 0 <= i < input.len() && (#[trigger] input[i]).name == dataset[k].name
    }) by {
        lemma_last_named(input, dataset[k].name);
        if let Some(i) = last_named(input, dataset[k].name) {
            assert(input[i].name == dataset[k].name);
        }
    }
    assert forall|k: int, m: int|
        0 <= k < m < dataset.len() && ctx.column_sources@[k] is FillFromTarget
            && ctx.column_sources@[m] is FillFromTarget implies (
    #[trigger] ctx.column_sources@[k])->FillFromTarget_0 < (
    #[trigger] ctx.column_sources@[m])->FillFromTarget_0 by {
        assert(ctx.column_sources@[k] == source_of(input, dataset, sentinel, k));
        assert(ctx.column_sources@[m] == source_of(input, dataset, sentinel, m));
        lemma_missing_fields_len(input, dataset.take(k), sentinel);
        lemma_missing_fields_len(input, dataset.take(m), sentinel);
        let upto = dataset.take(k + 1);
        assert(upto.drop_last() =~= dataset.take(k));
        assert(upto.last() == dataset[k]);
        lemma_missing_grow(input, dataset.take(m), sentinel, k + 1);
        assert(dataset.take(m).take(k + 1) =~= upto);
    }
}

/// The control columns are the first input columns of their names.
pub proof fn law_control_columns_are_found_by_name(
    ctx: WriteStreamContext,
    input: Seq<FieldModel>,
    dataset: Seq<FieldModel>,
    sentinel: Seq<char>,
)
    requires
        ctx.lays_out(input, dataset, sentinel),
    ensures
        ctx.rowaddr_idx < input.len(),
        input[ctx.rowaddr_idx as int].name == "_rowaddr"@,
        forall|i: int|
            0 <= i < ctx.rowaddr_idx ==> (#[trigger] input[i]).name != "_rowaddr"@,
        ctx.rowid_idx < input.len(),
        input[ctx.rowid_idx as int].name == "_rowid"@,
        forall|i: int| 0 <= i < ctx.rowid_idx ==> (#[trigger] input[i]).name != "_rowid"@,
        ctx.action_idx < input.len(),
        input[ctx.action_idx as int].name == "__action"@,
        forall|i: int| 0 <= i < ctx.action_idx ==> (#[trigger] input[i]).name != "__action"@,
{
    lemma_first_named(input, "_rowaddr"@);
    lemma_first_named(input, "_rowid"@);
    lemma_first_named(input, "__action"@);
}

/// There is a layout exactly if the input has columns `_rowaddr`, `_rowid` and
/// `__action`, and a column of the name of a dataset column other than these and
/// the sentinel. The first of these that is lacking is the error.
pub proof fn law_layouts_fail_for_a_reason(
    input: Seq<FieldModel>,
    dataset: Seq<FieldModel>,
    sentinel: Seq<char>,
)
    ensures
        ({
            let error = layout_error(input, dataset, sentinel);
            let has_addr = exists|i: int|
                0 <= i < input.len() && (#[trigger] input[i]).name == "_rowaddr"@;
            let has_id = exists|i: int|
                0 <= i < input.len() && (#[trigger] input[i]).name == "_rowid"@;
            let has_action = exists|i: int|
                0 <= i < input.len() && (#[trigger] input[i]).name == "__action"@;
            let has_data = exists|k: int, i: int|
                {
                    &&& 0 <= k < dataset.len()
                    &&& 0 <= i < input.len()
                    &&& (#[trigger] input[i]).name == (#[trigger] dataset[k]).name
                    &&& dataset[k].name != "_rowaddr"@
                    &&& dataset[k].name != "_rowid"@
                    &&& dataset[k].name != "__action"@
                    &&& dataset[k].name != sentinel
                };
            &&& error is None <==> has_addr && has_id && has_action && has_data
            &&& !has_addr ==> error == Some(
                MergeError::MissingInputColumn { column: ControlColumn::RowAddr },
            )
            &&& has_addr && !has_id ==> error == Some(
                MergeError::MissingInputColumn { column: ControlColumn::RowId },
            )
            &&& has_addr && has_id && !has_action ==> error == Some(
                MergeError::MissingInputColumn { column: ControlColumn::Action },
            )
            &&& has_addr && has_id && has_action && !has_data ==> error == Some(
                MergeError::NoDataColumns,
            )
        }),
{
    lemma_first_named(input, "_rowaddr"@);
    lemma_first_named(input, "_rowid"@);
    lemma_first_named(input, "__action"@);
    if let Some(i) = first_named(input, "_rowaddr"@) {
        assert(input[i].name == "_rowaddr"@);
    }
    if let Some(i) = first_named(input, "_rowid"@) {
        assert(input[i].name == "_rowid"@);
    }
    if let Some(i) = first_named(input, "__action"@) {
        assert(input[i].name == "__action"@);
    }
    if provides_any(input, dataset, sentinel) {
        let k = choose|k: int|
            0 <= k < dataset.len() && provided_by(input, (#[trigger] dataset[k]).name, sentinel) is Some;
        lemma_last_named(input, dataset[k].name);
        let i = last_named(input, dataset[k].name)->0;
        assert(input[i].name == dataset[k].name);
    } else {
        assert forall|k: int, i: int|
            0 <= k < dataset.len() && 0 <= i < input.len() && (#[trigger] input[i]).name == (
            #[trigger] dataset[k]).name implies dataset[k].name == "_rowaddr"@ || dataset[k].name
            == "_rowid"@ || dataset[k].name == "__action"@ || dataset[k].name == sentinel by {
            lemma_last_named(input, dataset[k].name);
            assert(provided_by(input, dataset[k].name, sentinel) is None);
        }
    }
}

/// A batch with as many columns as the input has every column that the layout
/// reads.
pub proof fn law_layout_fits_batches_of_its_input(
    ctx: WriteStreamContext,
    input: Seq<FieldModel>,
    dataset: Seq<FieldModel>,
    sentinel: Seq<char>,
    batch: Batch,
)
    requires
        ctx.lays_out(input, dataset, sentinel),
        input.len() <= usize::MAX,
        dataset.len() <= usize::MAX,
        batch_columns(batch).len() == input.len(),
    ensures
        ctx.fits(batch),
{
    law_control_columns_are_found_by_name(ctx, input, dataset, sentinel);
    assert forall|k: int| 0 <= k < ctx.column_sources.len() implies (
    #[trigger] ctx.column_sources@[k] matches WriteColumnSource::Input(i) ==> i < batch_columns(
        batch,
    ).len()) by {
        law_columns_come_from_the_input_by_name(ctx, input, dataset, sentinel, k);
    }
}

} // verus!
