//! Reading the columns that the source does not provide from the target.

use std::collections::HashMap;

use crate::arrow::{
    as_uint64, batch_columns, batch_fields, batch_rows, column_by_name, column_model, first_named,
    new_null_column, ArrayModel, Batch, Column,
};
use crate::columns::{UInt64Column, UInt64Model};
use crate::error::{ControlColumn, MergeError, ROW_ADDR};
use crate::fill_laws::{
    law_addresses_to_read_are_those_of_the_rows, law_only_unread_addresses_are_reported,
    law_rows_are_found_where_they_were_read,
};
use crate::filling::{can_fill, fill_values, fills_well, is_fillable, lie_inside};
use crate::layout::TargetColumnFiller;
use crate::types::{field_model, nulls_fit, FieldModel};
use arrow_schema::{ArrowError, Field};
use vstd::prelude::*;

verus! {

broadcast use vstd::std_specs::hash::group_hash_axioms;

/// Why a batch cannot be written.
#[derive(Debug)]
pub enum BatchError {
    /// The merge does not allow it.
    Merge(MergeError),
    /// Arrow could not build it.
    Arrow(ArrowError),
}

/// Each value is smaller than the next.
pub open spec fn increasing(s: Seq<u64>) -> bool {
    forall|i: int, j: int| 0 <= i < j < s.len() ==> s[i] < s[j]
}

/// `slice::sort_unstable`: the same values, in order.
#[verifier::external_body]
fn sort_addrs(addrs: Vec<u64>) -> (r: Vec<u64>)
    ensures
        forall|i: int, j: int| 0 <= i <= j < r.len() ==> r@[i] <= r@[j],
        r@.to_multiset() == addrs@.to_multiset(),
{
    let mut sorted = addrs;
    sorted.sort_unstable();
    sorted
}

/// Leaves out repeated values of an ordered vector.
fn drop_repeated(sorted: &Vec<u64>) -> (r: Vec<u64>)
    requires
        forall|i: int, j: int| 0 <= i <= j < sorted.len() ==> sorted@[i] <= sorted@[j],
    ensures
        increasing(r@),
        forall|a: u64| r@.contains(a) <==> #[trigger] sorted@.contains(a),
        r.len() <= sorted.len(),
{
    let n: usize = sorted.len();
    let mut out: Vec<u64> = Vec::new();
    for i in 0..n
        invariant
            n == sorted.len(),
            forall|i: int, j: int| 0 <= i <= j < sorted.len() ==> sorted@[i] <= sorted@[j],
            increasing(out@),
            out.len() <= i,
            i > 0 ==> out.len() > 0 && out@.last() == sorted@[i - 1],
            forall|k: int| 0 <= k < out.len() ==> sorted@.contains(#[trigger] out@[k]),
            forall|k: int| 0 <= k < i ==> out@.contains(#[trigger] sorted@[k]),
    {
        let a: u64 = sorted[i];
        let ghost before = out@;
        if i == 0 || out[out.len() - 1] != a {
            out.push(a);
            proof {
                assert(out@[before.len() as int] == a);
                assert forall|k: int| 0 <= k < i implies out@.contains(#[trigger] sorted@[k]) by {
                    assert(before.contains(sorted@[k]));
                    let m = choose|m: int| 0 <= m < before.len() && before[m] == sorted@[k];
                    assert(out@[m] == sorted@[k]);
                }
                assert forall|x: int, y: int| 0 <= x < y < out@.len() implies out@[x] < out@[y] by {
                    if y == before.len() {
                        assert(before[x] <= before.last());
                        assert(sorted@[i - 1] <= sorted@[i as int]);
                    }
                }
            }
        } else {
            assert(out@[out@.len() - 1] == a);
        }
    }
    assert forall|a: u64| out@.contains(a) <==> #[trigger] sorted@.contains(a) by {
        if out@.contains(a) {
            let k = choose|k: int| 0 <= k < out@.len() && out@[k] == a;
            assert(sorted@.contains(out@[k]));
        }
        if sorted@.contains(a) {
            let k = choose|k: int| 0 <= k < sorted@.len() && sorted@[k] == a;
            assert(out@.contains(sorted@[k]));
        }
    }
    out
}

/// The addresses that occur in a column, in order and each once.
pub open spec fn addresses_of(row_addrs: Seq<Option<u64>>, addrs: Seq<u64>) -> bool {
    &&& increasing(addrs)
    &&& forall|a: u64| addrs.contains(a) <==> #[trigger] row_addrs.contains(Some(a))
    &&& addrs.len() <= row_addrs.len()
}

/// The addresses to read for a batch: those of its matched rows, in order and
/// each once.
pub fn addresses_to_read(row_addrs: &UInt64Column) -> (r: Vec<u64>)
    requires
        row_addrs.wf(),
    ensures
        addresses_of(row_addrs@.options(), r@),
        forall|i: int, j: int| 0 <= i < j < r@.len() ==> r@[i] < r@[j],
        forall|i: int|
            0 <= i < row_addrs.values@.len() && row_addrs.valid@[i] ==> r@.contains(
                #[trigger] row_addrs.values@[i],
            ),
        forall|a: u64| #[trigger]
            r@.contains(a) ==> exists|i: int|
                0 <= i < row_addrs.values@.len() && row_addrs.valid@[i]
                    && #[trigger] row_addrs.values@[i] == a,
{
    let n: usize = row_addrs.len();
    let mut valid: Vec<u64> = Vec::new();
    for i in 0..n
        invariant
            n == row_addrs@.options().len(),
            row_addrs.wf(),
            valid.len() <= i,
            forall|k: int|
                0 <= k < valid.len() ==> row_addrs@.options().contains(Some(#[trigger] valid@[k])),
            forall|k: int|
                0 <= k < i ==> (#[trigger] row_addrs@.options()[k] matches Some(a) ==> valid@.contains(a)),
    {
        if !row_addrs.is_null(i) {
            let a: u64 = row_addrs.value(i);
            let ghost before = valid@;
            valid.push(a);
            proof {
                assert(row_addrs@.options()[i as int] == Some(a));
                assert(valid@[before.len() as int] == a);
                assert forall|k: int| 0 <= k < i implies (#[trigger] row_addrs@.options()[k] matches Some(b)
                    ==> valid@.contains(b)) by {
                    if let Some(b) = row_addrs@.options()[k] {
                        let m = choose|m: int| 0 <= m < before.len() && before[m] == b;
                        assert(valid@[m] == b);
                    }
                }
            }
        }
    }
    let ghost found = valid@;
    let sorted: Vec<u64> = sort_addrs(valid);
    let r: Vec<u64> = drop_repeated(&sorted);
    proof {
        broadcast use vstd::seq_lib::group_to_multiset_ensures;

        assert(sorted@.len() == found.len()) by {
            assert(sorted@.to_multiset().len() == found.to_multiset().len());
        }
        assert forall|a: u64| r@.contains(a) <==> #[trigger] row_addrs@.options().contains(Some(a)) by {
            assert(sorted@.contains(a) <==> found.contains(a)) by {
                assert(sorted@.to_multiset().contains(a) <==> found.to_multiset().contains(a));
            }
            if found.contains(a) {
                let k = choose|k: int| 0 <= k < found.len() && found[k] == a;
                assert(row_addrs@.options().contains(Some(found[k])));
            }
            if row_addrs@.options().contains(Some(a)) {
                let k = choose|k: int| 0 <= k < row_addrs@.options().len() && row_addrs@.options()[k] == Some(a);
                assert(row_addrs@.options()[k] matches Some(b) ==> found.contains(b));
            }
        }
        law_addresses_to_read_are_those_of_the_rows(row_addrs@, r@);
    }
    r
}

/// The last position of a value.
pub open spec fn last_position(values: Seq<u64>, a: u64) -> Option<int>
    decreases values.len(),
{
    if values.len() == 0 {
        None
    } else if values.last() == a {
        Some(values.len() - 1)
    } else {
        last_position(values.drop_last(), a)
    }
}

/// The position that is found holds the value and is the last to hold it; if
/// none is found, the value does not occur.
pub proof fn lemma_last_position(values: Seq<u64>, a: u64)
    ensures
        match last_position(values, a) {
            Some(i) => {
                &&& 0 <= i < values.len()
                &&& values[i] == a
                &&& forall|j: int| i < j < values.len() ==> #[trigger] values[j] != a
            },
            None => !values.contains(a),
        },
    decreases values.len(),
{
    if values.len() > 0 {
        lemma_last_position(values.drop_last(), a);
        let front = values.drop_last();
        assert forall|j: int| 0 <= j < values.len() - 1 implies #[trigger] values[j] == front[j] by {}
        if last_position(values, a) is None {
            assert forall|j: int| 0 <= j < values.len() implies values[j] != a by {
                if j < values.len() - 1 && values[j] == a {
                    assert(front[j] == a);
                    assert(front.contains(a));
                }
            }
        }
    }
}

/// The first address that was asked for and not read.
pub open spec fn first_unread(values: Seq<u64>, row_addrs: Seq<Option<u64>>) -> Option<u64>
    decreases row_addrs.len(),
{
    if row_addrs.len() == 0 {
        None
    } else {
        match first_unread(values, row_addrs.drop_last()) {
            Some(a) => Some(a),
            None => match row_addrs.last() {
                Some(a) => if last_position(values, a) is None {
                    Some(a)
                } else {
                    None
                },
                None => None,
            },
        }
    }
}

/// An address that was not read among the first rows is still the first one
/// among all rows.
proof fn lemma_first_unread_stays(values: Seq<u64>, row_addrs: Seq<Option<u64>>, n: int)
    requires
        0 <= n <= row_addrs.len(),
        first_unread(values, row_addrs.take(n)) is Some,
    ensures
        first_unread(values, row_addrs) == first_unread(values, row_addrs.take(n)),
    decreases row_addrs.len(),
{
    if n < row_addrs.len() {
        assert(row_addrs.drop_last().take(n) =~= row_addrs.take(n));
        lemma_first_unread_stays(values, row_addrs.drop_last(), n);
    } else {
        assert(row_addrs.take(n) =~= row_addrs);
    }
}

/// Where the row of an address was read to. Positions are cut to 32 bits.
pub open spec fn position_of(values: Seq<u64>, addr: Option<u64>) -> Option<u32> {
    match addr {
        None => None,
        Some(a) => Some(last_position(values, a)->0 as u32),
    }
}

/// Where the rows of addresses were read to.
pub open spec fn positions_of(values: Seq<u64>, row_addrs: Seq<Option<u64>>) -> Seq<Option<u32>> {
    row_addrs.map_values(|a: Option<u64>| position_of(values, a))
}

/// The map leads from each value to its last position.
spec fn maps_to_last(m: Map<u64, u32>, values: Seq<u64>) -> bool {
    &&& forall|a: u64| #[trigger] m.contains_key(a) <==> last_position(values, a) is Some
    &&& forall|a: u64| #[trigger]
        m.contains_key(a) ==> m[a] == last_position(values, a)->0 as u32
}

/// One more value is found at its own position, and the others where they were.
proof fn lemma_maps_to_last_push(m: Map<u64, u32>, values: Seq<u64>, n: int)
    requires
        0 <= n < values.len(),
        maps_to_last(m, values.take(n)),
    ensures
        maps_to_last(m.insert(values[n], n as u32), values.take(n + 1)),
{
    let after = m.insert(values[n], n as u32);
    assert(values.take(n + 1).drop_last() =~= values.take(n));
    assert(values.take(n + 1).last() == values[n]);
    assert forall|a: u64| #[trigger] after.contains_key(a) <==> last_position(
        values.take(n + 1),
        a,
    ) is Some by {
        assert(m.contains_key(a) <==> last_position(values.take(n), a) is Some);
    }
    assert forall|a: u64| #[trigger] after.contains_key(a) implies after[a] == last_position(
        values.take(n + 1),
        a,
    )->0 as u32 by {
        if a != values[n] {
            assert(m.contains_key(a));
        }
    }
}

/// For each row, the position among the rows that were read of the one at its
/// address. The order in which rows were read does not matter.
pub fn locate(taken: &UInt64Column, row_addrs: &UInt64Column) -> (r: Result<
    Vec<Option<u32>>,
    MergeError,
>)
    requires
        row_addrs.wf(),
    ensures
        match r {
            Ok(positions) => {
                &&& first_unread(taken@.values, row_addrs@.options()) is None
                &&& positions@ == positions_of(taken@.values, row_addrs@.options())
            },
            Err(e) => {
                &&& first_unread(taken@.values, row_addrs@.options()) matches Some(a)
                &&& e == MergeError::RowNotTaken { row_addr: a }
            },
        },
        r is Ok <==> forall|i: int|
            0 <= i < row_addrs.values@.len() && row_addrs.valid@[i] ==> taken.values@.contains(
                #[trigger] row_addrs.values@[i],
            ),
        r matches Err(e) ==> e is RowNotTaken && !taken.values@.contains(e->row_addr),
        r matches Ok(positions) ==> {
            &&& positions@.len() == row_addrs.values@.len()
            &&& taken.values@.len() <= 0x1_0000_0000 ==> forall|i: int|
                0 <= i < positions@.len() ==> match #[trigger] positions@[i] {
                    None => !row_addrs.valid@[i],
                    Some(p) => {
                        &&& row_addrs.valid@[i]
                        &&& p < taken.values@.len()
                        &&& taken.values@[p as int] == row_addrs.values@[i]
                    },
                }
        },
{
    proof {
        lemma_locate(taken.values@, row_addrs@);
    }
    let ghost values = taken@.values;
    let read: usize = taken.values.len();
    let mut addr_to_taken_idx: HashMap<u64, u32> = HashMap::new();
    for idx in 0..read
        invariant
            read == taken.values.len(),
            values == taken@.values,
            maps_to_last(addr_to_taken_idx@, values.take(idx as int)),
    {
        proof {
            lemma_maps_to_last_push(addr_to_taken_idx@, values, idx as int);
        }
        let addr: u64 = taken.values[idx];
        addr_to_taken_idx.insert(addr, idx as u32);
    }
    assert(values.take(read as int) =~= values);
    let n: usize = row_addrs.len();
    let mut positions: Vec<Option<u32>> = Vec::with_capacity(n);
    for i in 0..n
        invariant
            n == row_addrs@.options().len(),
            row_addrs.wf(),
            values == taken@.values,
            maps_to_last(addr_to_taken_idx@, values),
            first_unread(values, row_addrs@.options().take(i as int)) is None,
            positions.len() == i,
            forall|j: int|
                0 <= j < i ==> #[trigger] positions@[j] == position_of(values, row_addrs@.options()[j]),
    {
        proof {
            assert(row_addrs@.options().take(i + 1).drop_last() =~= row_addrs@.options().take(i as int));
            assert(row_addrs@.options().take(i + 1).last() == row_addrs@.options()[i as int]);
        }
        if row_addrs.is_null(i) {
            positions.push(None);
        } else {
            let addr: u64 = row_addrs.value(i);
            assert(addr_to_taken_idx@.contains_key(addr) == (last_position(
                values,
                addr,
            ) is Some));
            match addr_to_taken_idx.get(&addr) {
                Some(p) => {
                    positions.push(Some(*p));
                },
                None => {
                    proof {
                        lemma_first_unread_stays(values, row_addrs@.options(), i + 1);
                        lemma_locate(taken.values@, row_addrs@);
                    }
                    return Err(MergeError::RowNotTaken { row_addr: addr });
                },
            }
        }
    }
    assert(row_addrs@.options().take(n as int) =~= row_addrs@.options());
    assert(positions@ =~= positions_of(values, row_addrs@.options()));
    Ok(positions)
}

/// An address that is not found was not read, and one that is found was read at
/// the position that is found.
proof fn lemma_locate(read: Seq<u64>, rows: UInt64Model)
    requires
        rows.values.len() == rows.valid.len(),
    ensures
        first_unread(read, rows.options()) is None <==> forall|i: int|
            0 <= i < rows.values.len() && rows.valid[i] ==> read.contains(#[trigger] rows.values[i]),
        first_unread(read, rows.options()) matches Some(a) ==> !read.contains(a),
        first_unread(read, rows.options()) is None && read.len() <= 0x1_0000_0000 ==> {
            let positions = positions_of(read, rows.options());
            forall|i: int|
                0 <= i < positions.len() ==> match #[trigger] positions[i] {
                    None => !rows.valid[i],
                    Some(p) => {
                        &&& rows.valid[i]
                        &&& p < read.len()
                        &&& read[p as int] == rows.values[i]
                    },
                }
        },
{
    law_only_unread_addresses_are_reported(read, rows);
    if first_unread(read, rows.options()) is None && read.len() <= 0x1_0000_0000 {
        law_rows_are_found_where_they_were_read(read, rows);
    }
}

/// What is wrong with the rows that were read, before any column of them is
/// looked at.
pub open spec fn reading_error(
    fields: Seq<FieldModel>,
    columns: Seq<ArrayModel>,
    row_addrs: Seq<Option<u64>>,
) -> Option<MergeError> {
    match first_named(fields, ROW_ADDR@) {
        None => Some(MergeError::TakeMissingRowAddr),
        Some(i) => match columns[i].uint64 {
            None => Some(MergeError::WrongColumnType { column: ControlColumn::RowAddr }),
            Some(taken) => match first_unread(taken.values, row_addrs) {
                Some(a) => Some(MergeError::RowNotTaken { row_addr: a }),
                None => None,
            },
        },
    }
}

/// The addresses of the rows that were read.
pub open spec fn read_addresses(fields: Seq<FieldModel>, columns: Seq<ArrayModel>) -> Seq<u64> {
    columns[first_named(fields, ROW_ADDR@)->0].uint64->0.values
}

/// `to` has the values of `from` at the rows' addresses: for each row with an
/// address, that of the row read from there, and NULL for each row without.
pub open spec fn filled_from(
    from: ArrayModel,
    read: Seq<u64>,
    row_addrs: Seq<Option<u64>>,
    to: ArrayModel,
) -> bool {
    &&& to.data_type == from.data_type
    &&& to.cells.len() == row_addrs.len()
    &&& forall|i: int|
        0 <= i < row_addrs.len() ==> match row_addrs[i] {
            Some(a) => #[trigger] to.cells[i] == from.cells[position_of(
                read,
                row_addrs[i],
            )->0 as int],
            None => to.cells[i] is None,
        }
}

/// Arrow makes the filled column: strings do not outgrow their offsets.
pub open spec fn fills_surely(
    from: ArrayModel,
    read: Seq<u64>,
    row_addrs: Seq<Option<u64>>,
) -> bool {
    fills_well(from, positions_of(read, row_addrs))
}

impl TargetColumnFiller {
    /// The column of the rows that were read which fills field `k`.
    pub open spec fn reading_column(&self, taken: Batch, k: int) -> Option<int> {
        first_named(batch_fields(taken), self.models()[k].name)
    }

    /// Arrow can give the values that fill field `k` from the rows that were read.
    pub open spec fn takeable(&self, taken: Batch, row_addrs: Seq<Option<u64>>, k: int) -> bool {
        self.reading_column(taken, k) matches Some(i) ==> can_fill(
            batch_columns(taken)[i],
            positions_of(read_addresses(batch_fields(taken), batch_columns(taken)), row_addrs),
        )
    }

    /// The filled columns where no row has a target row: NULL throughout.
    pub fn null_columns(&self, rows: usize) -> (r: Vec<Column>)
        requires
            forall|k: int|
                0 <= k < self.models().len() ==> nulls_fit(
                    (#[trigger] self.models()[k]).inside,
                    rows as nat,
                ),
        ensures
            r.len() == self.models().len(),
            forall|k: int|
                0 <= k < r.len() ==> {
                    &&& column_model(#[trigger] r@[k]).data_type == self.models()[k].data_type
                    &&& column_model(r@[k]).cells == Seq::new(rows as nat, |i: int| None::<int>)
                },
    {
        let n: usize = self.fields.len();
        let mut columns: Vec<Column> = Vec::with_capacity(n);
        for k in 0..n
            invariant
                n == self.fields.len(),
                n == self.models().len(),
                columns.len() == k,
                forall|k: int|
                    0 <= k < self.models().len() ==> nulls_fit(
                        (#[trigger] self.models()[k]).inside,
                        rows as nat,
                    ),
                forall|j: int|
                    0 <= j < k ==> {
                        &&& column_model(#[trigger] columns@[j]).data_type
                            == self.models()[j].data_type
                        &&& column_model(columns@[j]).cells == Seq::new(
                            rows as nat,
                            |i: int| None::<int>,
                        )
                    },
        {
            let field: &Field = &self.fields[k];
            assert(self.models()[k as int] == field_model(*field));
            columns.push(new_null_column(field.data_type(), rows));
        }
        columns
    }

    /// Whether Arrow can give the values that fill the fields from the rows that
    /// were read. Where these are not the rows asked for, it need not.
    pub fn is_alignable(&self, taken: &Batch, row_addrs: &UInt64Column) -> (r: bool)
        requires
            row_addrs.wf(),
        ensures
            r == (reading_error(batch_fields(*taken), batch_columns(*taken), row_addrs@.options()) is None
                ==> forall|k: int|
                0 <= k < self.models().len() ==> self.takeable(*taken, row_addrs@.options(), k)),
    {
        let addr_column: Column = match column_by_name(taken, ROW_ADDR) {
            Some(c) => c,
            None => {
                return true;
            },
        };
        let taken_addrs: UInt64Column = match as_uint64(&addr_column) {
            Some(c) => c,
            None => {
                return true;
            },
        };
        let positions: Vec<Option<u32>> = match locate(&taken_addrs, row_addrs) {
            Ok(p) => p,
            Err(_) => {
                return true;
            },
        };
        let ghost read = read_addresses(batch_fields(*taken), batch_columns(*taken));
        proof {
            lemma_positions_are_read(read, row_addrs@.options());
        }
        let n: usize = self.fields.len();
        for k in 0..n
            invariant
                n == self.fields.len(),
                n == self.models().len(),
                reading_error(batch_fields(*taken), batch_columns(*taken), row_addrs@.options()) is None,
                read == read_addresses(batch_fields(*taken), batch_columns(*taken)),
                read.len() == batch_rows(*taken),
                positions@ == positions_of(read, row_addrs@.options()),
                are_read(positions@, read.len()),
                forall|j: int| 0 <= j < k ==> self.takeable(*taken, row_addrs@.options(), j),
        {
            assert(self.models()[k as int] == field_model(self.fields@[k as int]));
            if let Some(column) = column_by_name(taken, self.fields[k].name().as_str()) {
                assert(lie_inside(positions@, column_model(column)));
                if !is_fillable(&column, &positions) {
                    assert(!self.takeable(*taken, row_addrs@.options(), k as int));
                    return false;
                }
            }
        }
        true
    }

    /// The filled columns, from the rows that were read for them.
    pub fn align(&self, taken: &Batch, row_addrs: &UInt64Column) -> (r: Result<
        Vec<Column>,
        BatchError,
    >)
        requires
            row_addrs.wf(),
            reading_error(batch_fields(*taken), batch_columns(*taken), row_addrs@.options()) is None
                ==> forall|k: int|
                0 <= k < self.models().len() ==> self.takeable(*taken, row_addrs@.options(), k),
        ensures
            match reading_error(batch_fields(*taken), batch_columns(*taken), row_addrs@.options()) {
                Some(e) => r == Err::<Vec<Column>, BatchError>(BatchError::Merge(e)),
                None => match r {
                    Ok(columns) => {
                        &&& columns.len() == self.models().len()
                        &&& forall|k: int|
                            0 <= k < columns.len() ==> {
                                &&& self.reading_column(*taken, k) is Some
                                &&& filled_from(
                                    batch_columns(*taken)[self.reading_column(*taken, k)->0],
                                    read_addresses(batch_fields(*taken), batch_columns(*taken)),
                                    row_addrs@.options(),
                                    column_model(#[trigger] columns@[k]),
                                )
                            }
                    },
                    Err(BatchError::Merge(e)) => exists|k: int|
                        {
                            &&& 0 <= k < self.models().len()
                            &&& #[trigger] self.reading_column(*taken, k) is None
                            &&& forall|j: int|
                                0 <= j < k ==> #[trigger] self.reading_column(*taken, j) is Some
                            &&& e matches MergeError::TakeMissingColumn { name }
                            &&& name@ == self.models()[k].name
                        },
                    Err(BatchError::Arrow(_)) => exists|k: int|
                        {
                            &&& 0 <= k < self.models().len()
                            &&& #[trigger] self.reading_column(*taken, k) matches Some(i)
                            &&& !fills_surely(
                                batch_columns(*taken)[i],
                                read_addresses(batch_fields(*taken), batch_columns(*taken)),
                                row_addrs@.options(),
                            )
                            &&& forall|j: int|
                                0 <= j < k ==> #[trigger] self.reading_column(*taken, j) is Some
                        },
                },
            },
    {
        let addr_column: Column = match column_by_name(taken, ROW_ADDR) {
            Some(c) => c,
            None => {
                return Err(BatchError::Merge(MergeError::TakeMissingRowAddr));
            },
        };
        let taken_addrs: UInt64Column = match as_uint64(&addr_column) {
            Some(c) => c,
            None => {
                return Err(
                    BatchError::Merge(
                        MergeError::WrongColumnType { column: ControlColumn::RowAddr },
                    ),
                );
            },
        };
        let ghost read = taken_addrs@.values;
        assert(read == read_addresses(batch_fields(*taken), batch_columns(*taken)));
        let positions: Vec<Option<u32>> = match locate(&taken_addrs, row_addrs) {
            Ok(p) => p,
            Err(e) => {
                return Err(BatchError::Merge(e));
            },
        };
        proof {
            lemma_positions_are_read(read, row_addrs@.options());
        }
        let n: usize = self.fields.len();
        let mut columns: Vec<Column> = Vec::with_capacity(n);
        for k in 0..n
            invariant
                n == self.fields.len(),
                n == self.models().len(),
                columns.len() == k,
                reading_error(batch_fields(*taken), batch_columns(*taken), row_addrs@.options()) is None,
                read == read_addresses(batch_fields(*taken), batch_columns(*taken)),
                read.len() == batch_rows(*taken),
                positions@ == positions_of(read, row_addrs@.options()),
                forall|k: int|
                    0 <= k < self.models().len() ==> self.takeable(*taken, row_addrs@.options(), k),
                are_read(positions@, read.len()),
                forall|j: int|
                    0 <= j < k ==> {
                        &&& self.reading_column(*taken, j) is Some
                        &&& filled_from(
                            batch_columns(*taken)[self.reading_column(*taken, j)->0],
                            read,
                            row_addrs@.options(),
                            column_model(#[trigger] columns@[j]),
                        )
                    },
                forall|j: int| 0 <= j < k ==> #[trigger] self.reading_column(*taken, j) is Some,
        {
            let field: &Field = &self.fields[k];
            assert(self.models()[k as int] == field_model(*field));
            let column: Column = match column_by_name(taken, field.name().as_str()) {
                Some(c) => c,
                None => {
                    let name: String = field.name().clone();
                    assert(self.reading_column(*taken, k as int) is None);
                    return Err(BatchError::Merge(MergeError::TakeMissingColumn { name }));
                },
            };
            assert(self.reading_column(*taken, k as int) is Some);
            assert(self.takeable(*taken, row_addrs@.options(), k as int));
            assert(lie_inside(positions@, column_model(column)));
            match fill_values(&column, &positions) {
                Ok(filled) => {
                    assert(filled_from(
                        column_model(column),
                        read,
                        row_addrs@.options(),
                        column_model(filled),
                    )) by {
                        let to = column_model(filled);
                        let from = column_model(column);
                        assert forall|i: int| 0 <= i < row_addrs@.options().len() implies match row_addrs@.options()[i] {
                            Some(a) => #[trigger] to.cells[i] == from.cells[position_of(
                                read,
                                row_addrs@.options()[i],
                            )->0 as int],
                            None => to.cells[i] is None,
                        } by {
                            assert(positions@[i] == position_of(read, row_addrs@.options()[i]));
                        }
                    }
                    columns.push(filled);
                },
                Err(e) => {
                    return Err(BatchError::Arrow(e));
                },
            }
        }
        Ok(columns)
    }
}

/// The positions are among those of `n` rows.
pub open spec fn are_read(positions: Seq<Option<u32>>, n: nat) -> bool {
    forall|i: int|
        0 <= i < positions.len() ==> (#[trigger] positions[i] matches Some(p) ==> p < n)
}

/// Where every address was read, the positions are among those of the rows that
/// were read.
pub proof fn lemma_positions_are_read(read: Seq<u64>, row_addrs: Seq<Option<u64>>)
    requires
        first_unread(read, row_addrs) is None,
    ensures
        are_read(positions_of(read, row_addrs), read.len()),
{
    let positions = positions_of(read, row_addrs);
    assert forall|i: int| 0 <= i < positions.len() implies (#[trigger] positions[i] matches Some(p)
        ==> p < read.len()) by {
        if row_addrs[i] is Some {
            lemma_read_position(read, row_addrs, i);
        }
    }
}

/// Where every address was read, the position of a row's address is one of the
/// rows that were read.
pub proof fn lemma_read_position(read: Seq<u64>, row_addrs: Seq<Option<u64>>, i: int)
    requires
        first_unread(read, row_addrs) is None,
        0 <= i < row_addrs.len(),
        row_addrs[i] is Some,
    ensures
        last_position(read, row_addrs[i]->0) matches Some(p) && 0 <= p < read.len()
            && read[p] == row_addrs[i]->0,
        (position_of(read, row_addrs[i])->0 as int) < read.len(),
    decreases row_addrs.len(),
{
    let front = row_addrs.drop_last();
    if i < row_addrs.len() - 1 {
        assert(front[i] == row_addrs[i]);
        lemma_read_position(read, front, i);
    } else {
        lemma_last_position(read, row_addrs[i]->0);
        let p = last_position(read, row_addrs[i]->0)->0;
        lemma_cut_is_not_larger(p as nat);
    }
}

/// Cutting a number to 32 bits does not make it larger.
pub proof fn lemma_cut_is_not_larger(n: nat)
    ensures
        (n as u32) as int <= n,
        n <= u32::MAX ==> (n as u32) as int == n,
{
    if n > u32::MAX {
        assert((n as u32) as int <= u32::MAX);
    }
}

/// The rows that were read show a target: at each address, its value there.
pub open spec fn shows(from: ArrayModel, read: Seq<u64>, target: spec_fn(u64) -> Option<int>) -> bool {
    forall|p: int| 0 <= p < read.len() ==> #[trigger] from.cells[p] == target(read[p])
}

/// The values of a target at addresses, and NULL where there is none.
pub open spec fn values_at(
    target: spec_fn(u64) -> Option<int>,
    row_addrs: Seq<Option<u64>>,
) -> Seq<Option<int>> {
    row_addrs.map_values(
        |a: Option<u64>|
            match a {
                Some(a) => target(a),
                None => None,
            },
    )
}

/// A filled column has the target's value at each row's address, and NULL for
/// each row without one, in whatever order the rows were read and however often
/// an address occurs. This is so where no more rows were read than positions can
/// count.
pub proof fn law_fill_shows_the_target(
    from: ArrayModel,
    read: Seq<u64>,
    row_addrs: Seq<Option<u64>>,
    to: ArrayModel,
    target: spec_fn(u64) -> Option<int>,
)
    requires
        filled_from(from, read, row_addrs, to),
        first_unread(read, row_addrs) is None,
        shows(from, read, target),
        read.len() <= 0x1_0000_0000,
    ensures
        to.cells == values_at(target, row_addrs),
{
    assert forall|i: int| 0 <= i < row_addrs.len() implies to.cells[i] == #[trigger] values_at(
        target,
        row_addrs,
    )[i] by {
        let cell = to.cells[i];
        if row_addrs[i] is Some {
            lemma_read_position(read, row_addrs, i);
            let p = last_position(read, row_addrs[i]->0)->0;
            lemma_cut_is_not_larger(p as nat);
            assert(from.cells[p] == target(read[p]));
        }
    }
    assert(to.cells =~= values_at(target, row_addrs));
}

/// The order in which rows are read does not matter: two readings of one target
/// fill alike.
pub proof fn law_fill_ignores_reading_order(
    from: ArrayModel,
    read: Seq<u64>,
    to: ArrayModel,
    other_from: ArrayModel,
    other_read: Seq<u64>,
    other_to: ArrayModel,
    row_addrs: Seq<Option<u64>>,
    target: spec_fn(u64) -> Option<int>,
)
    requires
        filled_from(from, read, row_addrs, to),
        filled_from(other_from, other_read, row_addrs, other_to),
        first_unread(read, row_addrs) is None,
        first_unread(other_read, row_addrs) is None,
        shows(from, read, target),
        shows(other_from, other_read, target),
        read.len() <= 0x1_0000_0000,
        other_read.len() <= 0x1_0000_0000,
    ensures
        to.cells == other_to.cells,
{
    law_fill_shows_the_target(from, read, row_addrs, to, target);
    law_fill_shows_the_target(other_from, other_read, row_addrs, other_to, target);
}

/// Rows in another order are filled in that order: if each row of the second
/// filling has the address of row `order[i]` of the first, it has its value.
pub proof fn law_fill_follows_the_addresses(
    from: ArrayModel,
    read: Seq<u64>,
    row_addrs: Seq<Option<u64>>,
    to: ArrayModel,
    other_from: ArrayModel,
    other_read: Seq<u64>,
    other_to: ArrayModel,
    order: Seq<int>,
    target: spec_fn(u64) -> Option<int>,
)
    requires
        forall|i: int| 0 <= i < order.len() ==> 0 <= #[trigger] order[i] < row_addrs.len(),
        filled_from(from, read, row_addrs, to),
        filled_from(other_from, other_read, order.map_values(|i: int| row_addrs[i]), other_to),
        first_unread(read, row_addrs) is None,
        first_unread(other_read, order.map_values(|i: int| row_addrs[i])) is None,
        shows(from, read, target),
        shows(other_from, other_read, target),
        read.len() <= 0x1_0000_0000,
        other_read.len() <= 0x1_0000_0000,
    ensures
        other_to.cells == order.map_values(|i: int| to.cells[i]),
{
    let reordered = order.map_values(|i: int| row_addrs[i]);
    law_fill_shows_the_target(from, read, row_addrs, to, target);
    law_fill_shows_the_target(other_from, other_read, reordered, other_to, target);
    assert(other_to.cells =~= order.map_values(|i: int| to.cells[i]));
}

/// The values of a target at joined addresses are those at the one part and then
/// those at the other.
pub proof fn lemma_values_join(
    target: spec_fn(u64) -> Option<int>,
    a: Seq<Option<u64>>,
    b: Seq<Option<u64>>,
)
    ensures
        values_at(target, a + b) == values_at(target, a) + values_at(target, b),
{
    assert(values_at(target, a + b) =~= values_at(target, a) + values_at(target, b));
}

/// Rows that are filled together are filled as they are one part after the
/// other: the fill of joined addresses is the fill of the one part and then that
/// of the other, each from what was read for it.
pub proof fn law_fill_joins(
    a: Seq<Option<u64>>,
    from_a: ArrayModel,
    read_a: Seq<u64>,
    to_a: ArrayModel,
    b: Seq<Option<u64>>,
    from_b: ArrayModel,
    read_b: Seq<u64>,
    to_b: ArrayModel,
    from: ArrayModel,
    read: Seq<u64>,
    to: ArrayModel,
    target: spec_fn(u64) -> Option<int>,
)
    requires
        filled_from(from_a, read_a, a, to_a),
        filled_from(from_b, read_b, b, to_b),
        filled_from(from, read, a + b, to),
        first_unread(read_a, a) is None,
        first_unread(read_b, b) is None,
        first_unread(read, a + b) is None,
        shows(from_a, read_a, target),
        shows(from_b, read_b, target),
        shows(from, read, target),
        read_a.len() <= 0x1_0000_0000,
        read_b.len() <= 0x1_0000_0000,
        read.len() <= 0x1_0000_0000,
    ensures
        to.cells == to_a.cells + to_b.cells,
{
    law_fill_shows_the_target(from_a, read_a, a, to_a, target);
    law_fill_shows_the_target(from_b, read_b, b, to_b, target);
    law_fill_shows_the_target(from, read, a + b, to, target);
    lemma_values_join(target, a, b);
}

} // verus!
