//! What a merge is asked to do, and of which dataset.

use crate::merge_state::SourceDedupeBehavior;
use crate::text::{join, joined, texts};
use vstd::prelude::*;

verus! {

/// What to do with a source row that matches a target row.
#[derive(Debug, PartialEq, Eq)]
pub enum WhenMatched {
    DoNothing,
    UpdateAll,
    /// Update if this condition holds.
    UpdateIf(String),
    /// Update if an expression holds; this is how it reads.
    UpdateIfExpr(String),
    Fail,
    Delete,
}

/// What to do with a target row that no source row matches.
#[derive(Clone, Copy, Debug, PartialEq, Eq, Structural)]
pub enum WhenNotMatchedBySource {
    Keep,
    Delete,
    DeleteIf,
}

/// How a merge is to be done.
#[derive(Debug, PartialEq, Eq)]
pub struct MergeInsertParams {
    /// The columns to join on.
    pub on: Vec<String>,
    pub when_matched: WhenMatched,
    /// Whether source rows that match no target row are inserted.
    pub insert_not_matched: bool,
    pub delete_not_matched_by_source: WhenNotMatchedBySource,
    pub source_dedupe_behavior: SourceDedupeBehavior,
}

impl WhenMatched {
    /// The name of the choice.
    pub open spec fn text(self) -> Seq<char> {
        match self {
            WhenMatched::DoNothing => "DoNothing"@,
            WhenMatched::UpdateAll => "UpdateAll"@,
            WhenMatched::UpdateIf(condition) => "UpdateIf("@ + condition@ + ")"@,
            WhenMatched::UpdateIfExpr(expr) => "UpdateIf("@ + expr@ + ")"@,
            WhenMatched::Fail => "Fail"@,
            WhenMatched::Delete => "Delete"@,
        }
    }

    /// Appends the name of the choice to `out`.
    pub fn append_to(&self, out: &mut String)
        ensures
            final(out)@ == old(out)@ + self.text(),
    {
        match self {
            WhenMatched::DoNothing => out.append("DoNothing"),
            WhenMatched::UpdateAll => out.append("UpdateAll"),
            WhenMatched::UpdateIf(condition) => {
                out.append("UpdateIf(");
                out.append(condition.as_str());
                out.append(")");
            },
            WhenMatched::UpdateIfExpr(expr) => {
                out.append("UpdateIf(");
                out.append(expr.as_str());
                out.append(")");
            },
            WhenMatched::Fail => out.append("Fail"),
            WhenMatched::Delete => out.append("Delete"),
        }
        assert(out@ =~= old(out)@ + self.text());
    }
}

impl WhenNotMatchedBySource {
    /// The name of the choice.
    pub open spec fn text(self) -> Seq<char> {
        match self {
            WhenNotMatchedBySource::Keep => "Keep"@,
            WhenNotMatchedBySource::Delete => "Delete"@,
            WhenNotMatchedBySource::DeleteIf => "DeleteIf"@,
        }
    }

    /// The name of the choice.
    pub fn name(self) -> (r: &'static str)
        ensures
            r@ == self.text(),
    {
        match self {
            WhenNotMatchedBySource::Keep => "Keep",
            WhenNotMatchedBySource::Delete => "Delete",
            WhenNotMatchedBySource::DeleteIf => "DeleteIf",
        }
    }
}

/// What is done with source rows that match no target row.
pub open spec fn not_matched_text(insert_not_matched: bool) -> Seq<char> {
    if insert_not_matched {
        "InsertAll"@
    } else {
        "DoNothing"@
    }
}

impl MergeInsertParams {
    /// The merge in one line, as a plan shows it.
    pub open spec fn line(self) -> Seq<char> {
        "MergeInsert: on=["@ + joined(texts(self.on@), ", "@) + "], when_matched="@
            + self.when_matched.text() + ", when_not_matched="@ + not_matched_text(
            self.insert_not_matched,
        ) + ", when_not_matched_by_source="@ + self.delete_not_matched_by_source.text()
    }

    /// The merge in one line, as a plan shows it.
    pub fn describe(&self) -> (r: String)
        ensures
            r@ == self.line(),
    {
        let mut out: String = String::new();
        out.append("MergeInsert: on=[");
        let on: String = join(&self.on, ", ");
        out.append(on.as_str());
        out.append("], when_matched=");
        self.when_matched.append_to(&mut out);
        out.append(", when_not_matched=");
        if self.insert_not_matched {
            out.append("InsertAll");
        } else {
            out.append("DoNothing");
        }
        out.append(", when_not_matched_by_source=");
        out.append(self.delete_not_matched_by_source.name());
        assert(out@ =~= self.line());
        out
    }
}

/// A field of a dataset.
#[derive(Debug, PartialEq, Eq)]
pub struct DatasetField {
    /// The path to the field from the top of the schema.
    pub path: String,
    /// The id of the field.
    pub id: i32,
}

/// The dataset that a merge changes.
#[derive(Debug, PartialEq, Eq)]
pub struct DatasetInfo {
    /// Where it is.
    pub uri: String,
    /// The version that the merge reads.
    pub version: u64,
    /// Whether it uses stable row ids.
    pub stable_row_ids: bool,
    /// All its fields, nested ones included, each before those inside it.
    pub fields: Vec<DatasetField>,
    /// The ids of the fields of its primary key; empty if it has none.
    pub primary_key: Vec<i32>,
}

/// The id of the first field with this path.
pub open spec fn field_id(fields: Seq<DatasetField>, path: Seq<char>) -> Option<i32>
    decreases fields.len(),
{
    if fields.len() == 0 {
        None
    } else if fields[0].path@ == path {
        Some(fields[0].id)
    } else {
        field_id(fields.drop_first(), path)
    }
}

/// The ids of the named fields, in the order of the names. Names of no field
/// are left out.
pub open spec fn field_ids(fields: Seq<DatasetField>, names: Seq<Seq<char>>) -> Seq<i32>
    decreases names.len(),
{
    if names.len() == 0 {
        Seq::empty()
    } else {
        let before = field_ids(fields, names.drop_last());
        match field_id(fields, names.last()) {
            Some(id) => before.push(id),
            None => before,
        }
    }
}

impl DatasetInfo {
    /// The fields with these names are exactly those of the primary key, in
    /// its order, and there is a primary key.
    pub open spec fn is_primary_key(&self, names: Seq<Seq<char>>) -> bool {
        self.primary_key@.len() > 0 && field_ids(self.fields@, names) == self.primary_key@
    }

    /// The ids of all fields, as unsigned numbers.
    pub open spec fn all_field_ids(&self) -> Seq<u32> {
        self.fields@.map_values(|f: DatasetField| f.id as u32)
    }

    /// The id of the field with this path.
    pub fn field_id(&self, path: &String) -> (r: Option<i32>)
        ensures
            r == field_id(self.fields@, path@),
            r is None <==> forall|i: int|
                0 <= i < self.fields@.len() ==> (#[trigger] self.fields@[i]).path@ != path@,
            r matches Some(id) ==> exists|i: int|
                {
                    &&& 0 <= i < self.fields@.len()
                    &&& (#[trigger] self.fields@[i]).path@ == path@
                    &&& self.fields@[i].id == id
                    &&& forall|j: int|
                        0 <= j < i ==> (#[trigger] self.fields@[j]).path@ != path@
                },
    {
        let n: usize = self.fields.len();
        assert(self.fields@.skip(0) =~= self.fields@);
        for i in 0..n
            invariant
                n == self.fields.len(),
                field_id(self.fields@, path@) == field_id(self.fields@.skip(i as int), path@),
                forall|j: int| 0 <= j < i ==> (#[trigger] self.fields@[j]).path@ != path@,
        {
            assert(self.fields@.skip(i as int).drop_first() =~= self.fields@.skip(i + 1));
            assert(self.fields@.skip(i as int)[0] == self.fields@[i as int]);
            if self.fields[i].path == *path {
                return Some(self.fields[i].id);
            }
        }
        None
    }

    /// The ids of the named fields. Names of no field are left out.
    pub fn field_ids(&self, names: &Vec<String>) -> (r: Vec<i32>)
        ensures
            r@ == field_ids(self.fields@, texts(names@)),
    {
        let n: usize = names.len();
        let mut ids: Vec<i32> = Vec::new();
        for i in 0..n
            invariant
                n == names.len(),
                ids@ == field_ids(self.fields@, texts(names@.take(i as int))),
        {
            proof {
                let upto = texts(names@.take(i + 1));
                assert(upto.drop_last() =~= texts(names@.take(i as int)));
                assert(upto.last() == names@[i as int]@);
            }
            if let Some(id) = self.field_id(&names[i]) {
                ids.push(id);
            }
        }
        assert(names@.take(n as int) =~= names@);
        ids
    }

    /// Whether the fields with these names are exactly those of the primary
    /// key.
    pub fn matches_primary_key(&self, names: &Vec<String>) -> (r: bool)
        ensures
            r == self.is_primary_key(texts(names@)),
            r == (self.primary_key@.len() > 0 && field_ids(self.fields@, texts(names@))
                == self.primary_key@),
    {
        let ids: Vec<i32> = self.field_ids(names);
        let n: usize = self.primary_key.len();
        if n == 0 || ids.len() != n {
            return false;
        }
        for i in 0..n
            invariant
                n == self.primary_key.len(),
                n == ids.len(),
                ids@ == field_ids(self.fields@, texts(names@)),
                forall|j: int| 0 <= j < i ==> ids@[j] == self.primary_key@[j],
        {
            if ids[i] != self.primary_key[i] {
                return false;
            }
        }
        assert(ids@ =~= self.primary_key@);
        true
    }

    /// The ids of all fields, nested ones included.
    pub fn preserved_field_ids(&self) -> (r: Vec<u32>)
        ensures
            r@ == self.all_field_ids(),
            r@.len() == self.fields@.len(),
            forall|k: int|
                0 <= k < self.fields@.len() ==> #[trigger] r@[k] == self.fields@[k].id as u32,
    {
        let n: usize = self.fields.len();
        let mut ids: Vec<u32> = Vec::with_capacity(n);
        for i in 0..n
            invariant
                n == self.fields.len(),
                ids@ == self.all_field_ids().take(i as int),
        {
            ids.push(self.fields[i].id as u32);
            assert(ids@ =~= self.all_field_ids().take(i + 1));
        }
        assert(ids@ =~= self.all_field_ids());
        ids
    }
}

/// All fields are named, nested ones too: there are as many ids as fields, and the
/// k-th is the id of the k-th field.
pub proof fn law_all_fields_are_named(dataset: DatasetInfo)
    ensures
        dataset.all_field_ids().len() == dataset.fields@.len(),
        forall|k: int|
            0 <= k < dataset.fields@.len() ==> #[trigger] dataset.all_field_ids()[k]
                == dataset.fields@[k].id as u32,
{
}

/// A path leads to the first field that has it, and nowhere if no field has it.
pub proof fn law_paths_lead_to_their_first_field(
    fields: Seq<DatasetField>,
    path: Seq<char>,
    i: int,
)
    ensures
        0 <= i < fields.len() && fields[i].path@ == path && (forall|j: int|
            0 <= j < i ==> (#[trigger] fields[j]).path@ != path) ==> field_id(fields, path) == Some(
            fields[i].id,
        ),
        field_id(fields, path) is None <==> forall|j: int|
            0 <= j < fields.len() ==> (#[trigger] fields[j]).path@ != path,
    decreases fields.len(),
{
    if fields.len() > 0 {
        let rest = fields.drop_first();
        assert forall|j: int| 0 <= j < rest.len() implies #[trigger] rest[j] == fields[j + 1] by {}
        law_paths_lead_to_their_first_field(rest, path, i - 1);
        if fields[0].path@ != path {
            if 0 <= i < fields.len() && fields[i].path@ == path && (forall|j: int|
                0 <= j < i ==> (#[trigger] fields[j]).path@ != path) {
                assert(i > 0);
                assert(rest[i - 1] == fields[i]);
                assert forall|j: int| 0 <= j < i - 1 implies (#[trigger] rest[j]).path@ != path by {
                    assert(fields[j + 1].path@ != path);
                }
            }
            if field_id(fields, path) is None {
                assert forall|j: int| 0 <= j < fields.len() implies (#[trigger] fields[j]).path@
                    != path by {
                    if j > 0 {
                        assert(rest[j - 1].path@ != path);
                    }
                }
            } else {
                if forall|j: int| 0 <= j < fields.len() ==> (#[trigger] fields[j]).path@ != path {
                    assert forall|j: int| 0 <= j < rest.len() implies (#[trigger] rest[j]).path@
                        != path by {
                        assert(fields[j + 1].path@ != path);
                    }
                }
            }
        }
    }
}

/// The ids of named fields follow the names: one more name adds the id of the
/// first field with that path, or nothing if there is none.
pub proof fn law_ids_follow_the_names(
    fields: Seq<DatasetField>,
    names: Seq<Seq<char>>,
    name: Seq<char>,
    i: int,
)
    ensures
        field_ids(fields, Seq::empty()) == Seq::<i32>::empty(),
        0 <= i < fields.len() && fields[i].path@ == name && (forall|j: int|
            0 <= j < i ==> (#[trigger] fields[j]).path@ != name) ==> field_ids(
            fields,
            names.push(name),
        ) == field_ids(fields, names).push(fields[i].id),
        (forall|j: int| 0 <= j < fields.len() ==> (#[trigger] fields[j]).path@ != name)
            ==> field_ids(fields, names.push(name)) == field_ids(fields, names),
{
    assert(names.push(name).drop_last() =~= names);
    law_paths_lead_to_their_first_field(fields, name, i);
}

/// Names that all lead to fields, name `i` to field `at[i]`, are those of the
/// primary key exactly if there is one and these fields are its fields, in its
/// order.
pub proof fn law_primary_key_is_matched_in_order(
    dataset: DatasetInfo,
    names: Seq<Seq<char>>,
    at: Seq<int>,
)
    requires
        at.len() == names.len(),
        forall|i: int|
            0 <= i < names.len() ==> {
                &&& 0 <= #[trigger] at[i] < dataset.fields@.len()
                &&& dataset.fields@[at[i]].path@ == names[i]
                &&& forall|j: int|
                    0 <= j < at[i] ==> (#[trigger] dataset.fields@[j]).path@ != names[i]
            },
    ensures
        dataset.is_primary_key(names) <==> {
            &&& dataset.primary_key@.len() > 0
            &&& dataset.primary_key@.len() == names.len()
            &&& forall|i: int|
                0 <= i < names.len() ==> dataset.fields@[#[trigger] at[i]].id
                    == dataset.primary_key@[i]
        },
{
    lemma_ids_at(dataset.fields@, names, at);
    let ids = field_ids(dataset.fields@, names);
    if dataset.primary_key@.len() == names.len() && (forall|i: int|
        0 <= i < names.len() ==> dataset.fields@[#[trigger] at[i]].id == dataset.primary_key@[i]) {
        assert forall|i: int| 0 <= i < ids.len() implies ids[i] == dataset.primary_key@[i] by {
            assert(ids[i] == dataset.fields@[at[i]].id);
        }
        assert(ids =~= dataset.primary_key@);
    }
    if dataset.is_primary_key(names) {
        assert forall|i: int| 0 <= i < names.len() implies dataset.fields@[#[trigger] at[i]].id
            == dataset.primary_key@[i] by {
            assert(ids[i] == dataset.fields@[at[i]].id);
        }
    }
}

/// The ids of names that all lead to fields.
proof fn lemma_ids_at(fields: Seq<DatasetField>, names: Seq<Seq<char>>, at: Seq<int>)
    requires
        at.len() == names.len(),
        forall|i: int|
            0 <= i < names.len() ==> {
                &&& 0 <= #[trigger] at[i] < fields.len()
                &&& fields[at[i]].path@ == names[i]
                &&& forall|j: int| 0 <= j < at[i] ==> (#[trigger] fields[j]).path@ != names[i]
            },
    ensures
        field_ids(fields, names).len() == names.len(),
        forall|i: int|
            0 <= i < names.len() ==> #[trigger] field_ids(fields, names)[i] == fields[at[i]].id,
    decreases names.len(),
{
    if names.len() > 0 {
        let n = names.len() - 1;
        assert forall|i: int| 0 <= i < n implies {
            &&& 0 <= #[trigger] at.drop_last()[i] < fields.len()
            &&& fields[at.drop_last()[i]].path@ == names.drop_last()[i]
            &&& forall|j: int|
                0 <= j < at.drop_last()[i] ==> (#[trigger] fields[j]).path@ != names.drop_last()[i]
        } by {
            assert(at.drop_last()[i] == at[i]);
        }
        lemma_ids_at(fields, names.drop_last(), at.drop_last());
        assert(0 <= at[n] < fields.len());
        law_ids_follow_the_names(fields, names.drop_last(), names.last(), at[n]);
        assert(names.drop_last().push(names.last()) =~= names);
    }
}

/// The line of a merge names every column that it joins on, in order, and what it
/// does with each sort of rows.
pub proof fn law_line_shows_the_merge(params: MergeInsertParams, columns: Seq<Seq<char>>)
    requires
        columns.len() == params.on@.len(),
        forall|i: int| 0 <= i < columns.len() ==> #[trigger] columns[i] == params.on@[i]@,
    ensures
        params.line() == "MergeInsert: on=["@ + joined(columns, ", "@) + "], when_matched="@ + (
        match params.when_matched {
            WhenMatched::DoNothing => "DoNothing"@,
            WhenMatched::UpdateAll => "UpdateAll"@,
            WhenMatched::UpdateIf(condition) => "UpdateIf("@ + condition@ + ")"@,
            WhenMatched::UpdateIfExpr(expr) => "UpdateIf("@ + expr@ + ")"@,
            WhenMatched::Fail => "Fail"@,
            WhenMatched::Delete => "Delete"@,
        }) + ", when_not_matched="@ + (if params.insert_not_matched {
            "InsertAll"@
        } else {
            "DoNothing"@
        }) + ", when_not_matched_by_source="@ + (match params.delete_not_matched_by_source {
            WhenNotMatchedBySource::Keep => "Keep"@,
            WhenNotMatchedBySource::Delete => "Delete"@,
            WhenNotMatchedBySource::DeleteIf => "DeleteIf"@,
        }),
{
    assert(texts(params.on@) =~= columns);
}

} // verus!
