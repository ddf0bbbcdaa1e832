//! The values of an array at positions, and NULL where there is no position.
//!
//! Arrow takes values so, except from a union or runs, which have no null buffer:
//! there it gives the first value in place of NULL. These are interleaved with a
//! NULL instead.

use crate::arrow::{
    column_model, interleave_null, len_of, new_null_column, take_values, type_of, ArrayModel,
    Column,
};
use crate::copying::{can_interleave, is_interleavable};
use crate::taking::{can_count, can_take, is_takeable};
use crate::types::{can_hold_nulls, nulls_fit, parts_of_type, type_model, TypeParts};
use arrow_schema::{ArrowError, DataType};
use vstd::prelude::*;

verus! {

/// The positions lie in an array, as far as they are not missing.
pub open spec fn lie_inside(positions: Seq<Option<u32>>, a: ArrayModel) -> bool {
    forall|i: int|
        0 <= i < positions.len() ==> (#[trigger] positions[i] matches Some(p) ==> p
            < a.cells.len())
}

/// A position is missing, and the array has no null buffer to say so.
pub open spec fn adds_nulls(a: ArrayModel, positions: Seq<Option<u32>>) -> bool {
    a.inside.unmasked() && positions.contains(None)
}

/// Positions as picks from an array and a NULL.
pub open spec fn picks_of(positions: Seq<Option<u32>>) -> Seq<(usize, usize)> {
    positions.map_values(
        |position: Option<u32>|
            match position {
                Some(p) => (0usize, p as usize),
                None => (1usize, 0usize),
            },
    )
}

/// Arrow can give the values at these positions, and NULL where one is missing.
pub open spec fn can_fill(a: ArrayModel, positions: Seq<Option<u32>>) -> bool {
    if adds_nulls(a, positions) {
        nulls_fit(a.inside, 1) && can_interleave(a, picks_of(positions))
    } else {
        can_take(a, positions)
    }
}

/// Arrow gives them without an error. A column without strings gives none.
pub open spec fn fills_well(a: ArrayModel, positions: Seq<Option<u32>>) -> bool {
    adds_nulls(a, positions) || can_count(a, positions)
}

/// Whether a data type is one of unions or runs.
fn is_unmasked(d: &DataType) -> (r: bool)
    ensures
        r == type_model(*d).unmasked(),
{
    match parts_of_type(d) {
        TypeParts::SparseUnion(_) | TypeParts::DenseUnion(_) | TypeParts::RunEndEncoded(..) => true,
        _ => false,
    }
}

/// Whether a position is missing.
fn is_one_missing(positions: &Vec<Option<u32>>) -> (r: bool)
    ensures
        r == positions@.contains(None),
{
    let n: usize = positions.len();
    for i in 0..n
        invariant
            n == positions.len(),
            forall|j: int| 0 <= j < i ==> #[trigger] positions@[j] is Some,
    {
        if positions[i].is_none() {
            assert(positions@[i as int] == None::<u32>);
            return true;
        }
    }
    false
}

/// Positions as picks from an array and a NULL.
fn as_picks(positions: &Vec<Option<u32>>) -> (r: Vec<(usize, usize)>)
    ensures
        r@ == picks_of(positions@),
{
    let n: usize = positions.len();
    let mut picks: Vec<(usize, usize)> = Vec::with_capacity(n);
    for i in 0..n
        invariant
            n == positions.len(),
            picks.len() == i,
            forall|j: int| 0 <= j < i ==> #[trigger] picks@[j] == picks_of(positions@)[j],
    {
        let pick: (usize, usize) = match positions[i] {
            Some(p) => (0, p as usize),
            None => (1, 0),
        };
        picks.push(pick);
    }
    assert(picks@ =~= picks_of(positions@));
    picks
}

/// Whether Arrow can give the values at these positions, and NULL where one is
/// missing.
pub fn is_fillable(column: &Column, positions: &Vec<Option<u32>>) -> (r: bool)
    requires
        lie_inside(positions@, column_model(*column)),
    ensures
        r == can_fill(column_model(*column), positions@),
{
    let d: DataType = type_of(column);
    if is_unmasked(&d) && is_one_missing(positions) {
        let len: usize = len_of(column);
        let picks: Vec<(usize, usize)> = as_picks(positions);
        assert forall|i: int| 0 <= i < picks.len() implies (#[trigger] picks@[i]).1
            < usize::MAX by {
            assert(positions@[i] matches Some(p) ==> p < len);
        }
        can_hold_nulls(&d, 1) && is_interleavable(column, &picks)
    } else {
        is_takeable(column, positions)
    }
}

/// The values at these positions, and NULL where one is missing.
pub fn fill_values(column: &Column, positions: &Vec<Option<u32>>) -> (r: Result<Column, ArrowError>)
    requires
        lie_inside(positions@, column_model(*column)),
        can_fill(column_model(*column), positions@),
    ensures
        fills_well(column_model(*column), positions@) ==> r is Ok,
        r matches Ok(c) ==> {
            &&& column_model(c).data_type == column_model(*column).data_type
            &&& column_model(c).cells.len() == positions.len()
            &&& forall|i: int|
                0 <= i < positions.len() ==> #[trigger] column_model(c).cells[i] == (
                match positions@[i] {
                    Some(p) => column_model(*column).cells[p as int],
                    None => None,
                })
        },
{
    let d: DataType = type_of(column);
    if is_unmasked(&d) && is_one_missing(positions) {
        let null: Column = new_null_column(&d, 1);
        let picks: Vec<(usize, usize)> = as_picks(positions);
        assert forall|i: int| 0 <= i < picks.len() implies (#[trigger] picks@[i]).0 == 0
            && picks@[i].1 < column_model(*column).cells.len() || picks@[i] == (1usize, 0usize) by {
            assert(positions@[i] matches Some(p) ==> p < column_model(*column).cells.len());
        }
        interleave_null(column, &null, &picks)
    } else {
        let filled: Result<Column, ArrowError> = take_values(column, positions);
        if let Ok(c) = &filled {
            assert forall|i: int| 0 <= i < positions.len() implies #[trigger] column_model(
                *c,
            ).cells[i] == (match positions@[i] {
                Some(p) => column_model(*column).cells[p as int],
                None => None,
            }) by {
                assert(positions@.contains(positions@[i]));
            }
        }
        filled
    }
}

} // verus!
