//! Where the columns that are written come from.

use crate::arrow::{
    batch_columns, column_with_name, first_named, new_schema, num_columns, num_fields,
    schema_fields, Batch,
};
use crate::error::{ControlColumn, MergeError, MERGE_ACTION_COLUMN, ROW_ADDR, ROW_ID};
use crate::types::{can_hold_nulls, field_model, field_models, nulls_fit, FieldModel};
use arrow_schema::{Field, Schema};
use vstd::prelude::*;

verus! {

/// Where a column of the output comes from.
#[derive(Clone, Copy, Debug, PartialEq, Eq, Structural)]
pub enum WriteColumnSource {
    /// The input column at this position.
    Input(usize),
    /// The source does not provide the column. It is read from the target, as
    /// the column at this position of those that are read.
    FillFromTarget(usize),
}

/// Fills the columns that the source does not provide with the values of the
/// matched target rows.
///
/// The values are read for one batch at a time, by the addresses of its
/// matched rows, so that memory is bounded by the size of a batch and not by
/// that of the target.
pub struct TargetColumnFiller {
    /// The filled fields. They are nullable, because an inserted row matches no
    /// target row and gets NULL.
    pub fields: Vec<Field>,
}

/// The layout of what is written: where the control columns are in the input,
/// where each output column comes from, and which columns are filled.
pub struct WriteStreamContext {
    pub rowaddr_idx: usize,
    pub rowid_idx: usize,
    pub action_idx: usize,
    pub column_sources: Vec<WriteColumnSource>,
    pub filler: Option<TargetColumnFiller>,
    pub output_schema: Schema,
}

/// A column of this name steers the merge and is not written. `sentinel` is
/// the name of the column that marks rows of the source.
pub open spec fn is_control_name(name: Seq<char>, sentinel: Seq<char>) -> bool {
    name == ROW_ADDR@ || name == ROW_ID@ || name == MERGE_ACTION_COLUMN@ || name == sentinel
}

/// The last field of this name.
pub open spec fn last_named(fields: Seq<FieldModel>, name: Seq<char>) -> Option<int>
    decreases fields.len(),
{
    if fields.len() == 0 {
        None
    } else if fields.last().name == name {
        Some(fields.len() - 1)
    } else {
        last_named(fields.drop_last(), name)
    }
}

/// The input column that provides the dataset column of this name.
pub open spec fn provided_by(
    input: Seq<FieldModel>,
    name: Seq<char>,
    sentinel: Seq<char>,
) -> Option<int> {
    if is_control_name(name, sentinel) {
        None
    } else {
        last_named(input, name)
    }
}

/// The dataset fields that the input does not provide, in order and nullable.
pub open spec fn missing_fields(
    input: Seq<FieldModel>,
    dataset: Seq<FieldModel>,
    sentinel: Seq<char>,
) -> Seq<FieldModel>
    decreases dataset.len(),
{
    if dataset.len() == 0 {
        Seq::empty()
    } else {
        let before = missing_fields(input, dataset.drop_last(), sentinel);
        if provided_by(input, dataset.last().name, sentinel) is Some {
            before
        } else {
            before.push(FieldModel { nullable: true, ..dataset.last() })
        }
    }
}

/// Where column `k` of the dataset comes from.
pub open spec fn source_of(
    input: Seq<FieldModel>,
    dataset: Seq<FieldModel>,
    sentinel: Seq<char>,
    k: int,
) -> WriteColumnSource {
    match provided_by(input, dataset[k].name, sentinel) {
        Some(i) => WriteColumnSource::Input(i as usize),
        None => WriteColumnSource::FillFromTarget(
            missing_fields(input, dataset.take(k), sentinel).len() as usize,
        ),
    }
}

/// The field under which column `k` of the dataset is written.
pub open spec fn written_field(
    input: Seq<FieldModel>,
    dataset: Seq<FieldModel>,
    sentinel: Seq<char>,
    k: int,
) -> FieldModel {
    match provided_by(input, dataset[k].name, sentinel) {
        Some(i) => input[i],
        None => FieldModel { nullable: true, ..dataset[k] },
    }
}

/// The input provides some column of the dataset.
pub open spec fn provides_any(
    input: Seq<FieldModel>,
    dataset: Seq<FieldModel>,
    sentinel: Seq<char>,
) -> bool {
    exists|k: int|
        0 <= k < dataset.len() && provided_by(input, (#[trigger] dataset[k]).name, sentinel) is Some
}

/// Why there is no layout, if there is none.
pub open spec fn layout_error(
    input: Seq<FieldModel>,
    dataset: Seq<FieldModel>,
    sentinel: Seq<char>,
) -> Option<MergeError> {
    if first_named(input, ROW_ADDR@) is None {
        Some(MergeError::MissingInputColumn { column: ControlColumn::RowAddr })
    } else if first_named(input, ROW_ID@) is None {
        Some(MergeError::MissingInputColumn { column: ControlColumn::RowId })
    } else if first_named(input, MERGE_ACTION_COLUMN@) is None {
        Some(MergeError::MissingInputColumn { column: ControlColumn::Action })
    } else if !provides_any(input, dataset, sentinel) {
        Some(MergeError::NoDataColumns)
    } else {
        None
    }
}

impl TargetColumnFiller {
    /// What the filled fields are.
    pub open spec fn models(&self) -> Seq<FieldModel> {
        field_models(self.fields@)
    }

    /// The names of the columns to read from the target.
    pub fn column_names(&self) -> (r: Vec<String>)
        ensures
            r@.map_values(|s: String| s@) == self.models().map_values(|f: FieldModel| f.name),
            r@.len() == self.fields@.len(),
            forall|k: int|
                0 <= k < r@.len() ==> (#[trigger] r@[k])@ == field_model(self.fields@[k]).name,
    {
        let n: usize = self.fields.len();
        let mut names: Vec<String> = Vec::with_capacity(n);
        for i in 0..n
            invariant
                n == self.fields.len(),
                names.len() == i,
                forall|j: int|
                    0 <= j < i ==> (#[trigger] names@[j])@ == field_model(self.fields@[j]).name,
        {
            names.push(self.fields[i].name().clone());
        }
        assert(names@.map_values(|s: String| s@) =~= self.models().map_values(
            |f: FieldModel| f.name,
        ));
        names
    }
}

/// A name, and whether it is one of a column that steers the merge.
fn is_control(name: &String, sentinel: &str) -> (r: bool)
    ensures
        r == is_control_name(name@, sentinel@),
        r == (name@ == "_rowaddr"@ || name@ == "_rowid"@ || name@ == "__action"@ || name@
            == sentinel@),
{
    *name == ROW_ADDR.to_owned() || *name == ROW_ID.to_owned() || *name
        == MERGE_ACTION_COLUMN.to_owned() || *name == sentinel.to_owned()
}

/// The position of the input column that provides a dataset column.
fn find_provider(input: &Schema, name: &String, sentinel: &str) -> (r: Option<usize>)
    ensures
        match r {
            Some(i) => provided_by(schema_fields(*input), name@, sentinel@) == Some(i as int),
            None => provided_by(schema_fields(*input), name@, sentinel@) is None,
        },
{
    if is_control(name, sentinel) {
        return None;
    }
    let ghost fields = schema_fields(*input);
    let mut i: usize = num_fields(input);
    assert(fields.take(i as int) =~= fields);
    while i > 0
        invariant
            i <= fields.len(),
            fields == schema_fields(*input),
            !is_control_name(name@, sentinel@),
            last_named(fields, name@) == last_named(fields.take(i as int), name@),
        decreases i,
    {
        i = i - 1;
        let here: &String = input.field(i).name();
        assert(fields.take(i + 1).drop_last() =~= fields.take(i as int));
        assert(fields.take(i + 1).last() == fields[i as int]);
        if *here == *name {
            return Some(i);
        }
    }
    None
}

/// The field that is found has the name and is the last to have it; if none is
/// found, no field has the name.
pub proof fn lemma_last_named(fields: Seq<FieldModel>, name: Seq<char>)
    ensures
        match last_named(fields, name) {
            Some(i) => {
                &&& 0 <= i < fields.len()
                &&& fields[i].name == name
                &&& forall|j: int| i < j < fields.len() ==> (#[trigger] fields[j]).name != name
            },
            None => forall|j: int| 0 <= j < fields.len() ==> (#[trigger] fields[j]).name != name,
        },
    decreases fields.len(),
{
    if fields.len() > 0 {
        lemma_last_named(fields.drop_last(), name);
        assert forall|j: int| 0 <= j < fields.len() - 1 implies #[trigger] fields[j]
            == fields.drop_last()[j] by {}
    }
}

/// There are no more missing fields than fields.
pub proof fn lemma_missing_fields_len(
    input: Seq<FieldModel>,
    dataset: Seq<FieldModel>,
    sentinel: Seq<char>,
)
    ensures
        missing_fields(input, dataset, sentinel).len() <= dataset.len(),
    decreases dataset.len(),
{
    if dataset.len() > 0 {
        lemma_missing_fields_len(input, dataset.drop_last(), sentinel);
    }
}

impl WriteStreamContext {
    /// What the filled fields are; none if nothing is filled.
    pub open spec fn filled(&self) -> Seq<FieldModel> {
        match self.filler {
            Some(filler) => filler.models(),
            None => Seq::empty(),
        }
    }

    /// This is the layout for an input and a dataset of these fields.
    pub open spec fn lays_out(
        &self,
        input: Seq<FieldModel>,
        dataset: Seq<FieldModel>,
        sentinel: Seq<char>,
    ) -> bool {
        &&& first_named(input, ROW_ADDR@) == Some(self.rowaddr_idx as int)
        &&& first_named(input, ROW_ID@) == Some(self.rowid_idx as int)
        &&& first_named(input, MERGE_ACTION_COLUMN@) == Some(self.action_idx as int)
        &&& self.column_sources@ == Seq::new(
            dataset.len(),
            |k: int| source_of(input, dataset, sentinel, k),
        )
        &&& schema_fields(self.output_schema) == Seq::new(
            dataset.len(),
            |k: int| written_field(input, dataset, sentinel, k),
        )
        &&& self.filled() == missing_fields(input, dataset, sentinel)
        &&& self.filler is Some <==> missing_fields(input, dataset, sentinel).len() > 0
    }

    /// Every filled column is one of the filler's.
    pub open spec fn wf(&self) -> bool {
        &&& self.column_sources.len() == schema_fields(self.output_schema).len()
        &&& forall|k: int|
            0 <= k < self.column_sources.len() ==> (#[trigger] self.column_sources@[k] matches
                WriteColumnSource::FillFromTarget(j) ==> j < self.filled().len())
    }

    /// The written fields are those of the input where they come from there, and
    /// otherwise the filled ones, which are nullable.
    pub open spec fn made_for(&self, input: Seq<FieldModel>) -> bool {
        &&& self.column_sources.len() > 0
        &&& forall|k: int|
            0 <= k < self.column_sources.len() ==> match #[trigger] self.column_sources@[k] {
                WriteColumnSource::Input(i) => {
                    &&& i < input.len()
                    &&& schema_fields(self.output_schema)[k] == input[i as int]
                },
                WriteColumnSource::FillFromTarget(j) => {
                    &&& j < self.filled().len()
                    &&& schema_fields(self.output_schema)[k] == self.filled()[j as int]
                    &&& self.filled()[j as int].nullable
                },
            }
    }

    /// The batch has every column that the layout reads.
    pub open spec fn fits(&self, batch: Batch) -> bool {
        &&& self.rowaddr_idx < batch_columns(batch).len()
        &&& self.rowid_idx < batch_columns(batch).len()
        &&& self.action_idx < batch_columns(batch).len()
        &&& forall|k: int|
            0 <= k < self.column_sources.len() ==> (#[trigger] self.column_sources@[k] matches
                WriteColumnSource::Input(i) ==> i < batch_columns(batch).len())
    }

    /// Empty columns can be built for all written fields.
    pub open spec fn empty_buildable(&self) -> bool {
        forall|k: int|
            0 <= k < schema_fields(self.output_schema).len() ==> nulls_fit(
                (#[trigger] schema_fields(self.output_schema)[k]).inside,
                0,
            )
    }

    /// Columns of NULL can be built for `rows` rows of all filled fields.
    pub open spec fn nulls_buildable(&self, rows: nat) -> bool {
        forall|k: int|
            0 <= k < self.filled().len() ==> nulls_fit(
                (#[trigger] self.filled()[k]).inside,
                rows,
            )
    }

    /// Whether the batch has every column that the layout reads.
    pub fn is_fit_for(&self, batch: &Batch) -> (r: bool)
        ensures
            r == self.fits(*batch),
    {
        let columns: usize = num_columns(batch);
        if self.rowaddr_idx >= columns || self.rowid_idx >= columns || self.action_idx >= columns {
            return false;
        }
        let n: usize = self.column_sources.len();
        for k in 0..n
            invariant
                n == self.column_sources.len(),
                columns == batch_columns(*batch).len(),
                forall|j: int|
                    0 <= j < k ==> (#[trigger] self.column_sources@[j] matches
                        WriteColumnSource::Input(i) ==> i < columns),
        {
            match self.column_sources[k] {
                WriteColumnSource::Input(i) => {
                    if i >= columns {
                        assert(self.column_sources@[k as int] == WriteColumnSource::Input(i));
                        return false;
                    }
                },
                WriteColumnSource::FillFromTarget(_) => {},
            }
        }
        true
    }

    /// Whether empty columns can be built for all written fields.
    pub fn can_build_empty(&self) -> (r: bool)
        ensures
            r == self.empty_buildable(),
    {
        let n: usize = num_fields(&self.output_schema);
        for k in 0..n
            invariant
                n == schema_fields(self.output_schema).len(),
                forall|j: int|
                    0 <= j < k ==> nulls_fit(
                        (#[trigger] schema_fields(self.output_schema)[j]).inside,
                        0,
                    ),
        {
            if !can_hold_nulls(self.output_schema.field(k).data_type(), 0) {
                assert(!nulls_fit(schema_fields(self.output_schema)[k as int].inside, 0));
                return false;
            }
        }
        true
    }

    /// Whether columns of NULL can be built for `rows` rows of all filled
    /// fields.
    pub fn can_build_nulls(&self, rows: usize) -> (r: bool)
        ensures
            r == self.nulls_buildable(rows as nat),
    {
        if let Some(filler) = &self.filler {
            let m: usize = filler.fields.len();
            for k in 0..m
                invariant
                    m == filler.fields.len(),
                    self.filled() == filler.models(),
                    forall|j: int|
                        0 <= j < k ==> nulls_fit(
                            (#[trigger] self.filled()[j]).inside,
                            rows as nat,
                        ),
            {
                assert(self.filled()[k as int] == field_model(filler.fields@[k as int]));
                if !can_hold_nulls(filler.fields[k].data_type(), rows as u64) {
                    assert(!nulls_fit(self.filled()[k as int].inside, rows as nat));
                    return false;
                }
            }
        }
        true
    }
}

/// Lays out the columns to write: those of the dataset, in the dataset's order
/// and matched by name. A column that the input provides comes from there; the
/// others are filled from the target. The control columns of the input are
/// never written.
pub fn prepare_stream_schema(input: &Schema, dataset: &Schema, sentinel: &str) -> (r: Result<
    WriteStreamContext,
    MergeError,
>)
    ensures
        match r {
            Ok(ctx) => {
                &&& layout_error(
                    schema_fields(*input),
                    schema_fields(*dataset),
                    sentinel@,
                ) is None
                &&& ctx.lays_out(schema_fields(*input), schema_fields(*dataset), sentinel@)
                &&& ctx.wf()
            },
            Err(e) => layout_error(schema_fields(*input), schema_fields(*dataset), sentinel@)
                == Some(e),
        },
        r matches Ok(ctx) ==> forall|k: int|
            #![trigger ctx.column_sources@[k]]
            0 <= k < schema_fields(*dataset).len() ==> {
                let name = schema_fields(*dataset)[k].name;
                ctx.column_sources@[k] is Input <==> {
                    &&& name != "_rowaddr"@
                    &&& name != "_rowid"@
                    &&& name != "__action"@
                    &&& name != sentinel@
                    &&& exists|i: int|
                        0 <= i < schema_fields(*input).len() && (#[trigger] schema_fields(
                            *input,
                        )[i]).name == name
                }
            },
{
    let ghost ins = schema_fields(*input);
    let ghost data = schema_fields(*dataset);
    let rowaddr_idx: usize = match column_with_name(input, ROW_ADDR) {
        Some(i) => i,
        None => {
            return Err(MergeError::MissingInputColumn { column: ControlColumn::RowAddr });
        },
    };
    let rowid_idx: usize = match column_with_name(input, ROW_ID) {
        Some(i) => i,
        None => {
            return Err(MergeError::MissingInputColumn { column: ControlColumn::RowId });
        },
    };
    let action_idx: usize = match column_with_name(input, MERGE_ACTION_COLUMN) {
        Some(i) => i,
        None => {
            return Err(MergeError::MissingInputColumn { column: ControlColumn::Action });
        },
    };
    let n: usize = num_fields(dataset);
    let mut column_sources: Vec<WriteColumnSource> = Vec::with_capacity(n);
    let mut fill_fields: Vec<Field> = Vec::new();
    let mut output_fields: Vec<Field> = Vec::with_capacity(n);
    let mut num_input_columns: usize = 0;
    assert(data.take(0) =~= Seq::<FieldModel>::empty());
    assert(field_models(fill_fields@) =~= Seq::<FieldModel>::empty());
    for k in 0..n
        invariant
            n == data.len(),
            data == schema_fields(*dataset),
            ins == schema_fields(*input),
            num_input_columns <= k,
            num_input_columns > 0 <==> (exists|j: int|
                0 <= j < k && provided_by(ins, (#[trigger] data[j]).name, sentinel@) is Some),
            column_sources.len() == k,
            output_fields.len() == k,
            field_models(fill_fields@) == missing_fields(ins, data.take(k as int), sentinel@),
            forall|j: int|
                0 <= j < k ==> #[trigger] column_sources@[j] == source_of(
                    ins,
                    data,
                    sentinel@,
                    j,
                ),
            forall|j: int|
                0 <= j < k ==> field_model(#[trigger] output_fields@[j]) == written_field(
                    ins,
                    data,
                    sentinel@,
                    j,
                ),
            forall|j: int|
                0 <= j < k ==> (#[trigger] column_sources@[j] matches
                    WriteColumnSource::FillFromTarget(t) ==> t < fill_fields.len()),
    {
        let dataset_field: &Field = dataset.field(k);
        proof {
            assert(data.take(k + 1).drop_last() =~= data.take(k as int));
            assert(data.take(k + 1).last() == data[k as int]);
            lemma_missing_fields_len(ins, data.take(k as int), sentinel@);
            lemma_last_named(ins, data[k as int].name);
        }
        match find_provider(input, dataset_field.name(), sentinel) {
            Some(idx) => {
                column_sources.push(WriteColumnSource::Input(idx));
                output_fields.push(input.field(idx).clone());
                num_input_columns = num_input_columns + 1;
                assert(provided_by(ins, data[k as int].name, sentinel@) is Some);
            },
            None => {
                // Nullable whatever the dataset says: an inserted row has no
                // target row to read from.
                let field: Field = dataset_field.clone().with_nullable(true);
                let ghost before = fill_fields@;
                column_sources.push(WriteColumnSource::FillFromTarget(fill_fields.len()));
                fill_fields.push(field.clone());
                proof {
                    assert(field_models(before.push(fill_fields@.last())) =~= field_models(
                        before,
                    ).push(field_model(fill_fields@.last())));
                    assert(fill_fields@ =~= before.push(fill_fields@.last()));
                }
                output_fields.push(field);
            },
        }
    }
    assert(data.take(n as int) =~= data);
    if num_input_columns == 0 {
        return Err(MergeError::NoDataColumns);
    }
    let filler: Option<TargetColumnFiller> = if fill_fields.len() == 0 {
        None
    } else {
        Some(TargetColumnFiller { fields: fill_fields })
    };
    assert(field_models(output_fields@) =~= Seq::new(
        data.len(),
        |k: int| written_field(ins, data, sentinel@, k),
    ));
    assert(column_sources@ =~= Seq::new(
        data.len(),
        |k: int| source_of(ins, data, sentinel@, k),
    ));
    assert(match filler {
        Some(f) => f.models(),
        None => Seq::<FieldModel>::empty(),
    } =~= missing_fields(ins, data, sentinel@));
    proof {
        assert forall|k: int|
            #![trigger column_sources@[k]]
            0 <= k < data.len() implies (column_sources@[k] is Input <==> {
            &&& data[k].name != "_rowaddr"@
            &&& data[k].name != "_rowid"@
            &&& data[k].name != "__action"@
            &&& data[k].name != sentinel@
            &&& exists|i: int| 0 <= i < ins.len() && (#[trigger] ins[i]).name == data[k].name
        }) by {
            assert(column_sources@[k] == source_of(ins, data, sentinel@, k));
            lemma_last_named(ins, data[k].name);
            if let Some(i) = last_named(ins, data[k].name) {
                assert(ins[i].name == data[k].name);
            }
        }
    }
    Ok(
        WriteStreamContext {
            rowaddr_idx,
            rowid_idx,
            action_idx,
            column_sources,
            filler,
            output_schema: new_schema(output_fields),
        },
    )
}

} // verus!
