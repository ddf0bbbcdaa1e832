//! Which arrays Arrow can build, take from and copy, data type by data type.

use crate::arrow::{
    batch_columns, batch_fields, batch_rows, conforms, lemma_first_named, schema_fields,
    ArrayModel, Batch,
};
use crate::cell_laws::law_target_is_read_where_rows_match;
use crate::columns::UInt64Model;
use crate::copying::{added, can_copy, can_interleave, picked_nulls, picked_ranges};
use crate::fill_laws::{
    law_reading_fails_for_a_reason, law_rows_are_found_where_they_were_read,
};
use crate::filler::{fills_surely, positions_of, read_addresses, reading_error};
use crate::filling::{can_fill, fills_well, picks_of};
use crate::layout::{TargetColumnFiller, WriteStreamContext};
use crate::ranges::{held, lie_in, of_member, runs_held, slots, total};
use crate::taking::{
    are_in, are_reached, can_count, can_take, can_take_at, expanded, from_rows, is_member,
    is_valid, known, or_first, present, runs_taken, widened,
};
use crate::types::{field_model, nulls_fit, FieldModel, LeafType, TypeModel};
use crate::write_batch::{promises_rows, resumable, writable};
use vstd::prelude::*;

verus! {

/// Arrays of NULL of a type with no other type inside: as many as half a `usize`
/// counts in bytes. Those of fixed size take no more bytes than 31 bits count, and
/// a time of day has a unit that goes with its width.
pub proof fn law_nulls_of_plain_types(leaf: LeafType, len: nat)
    ensures
        ({
            let fits = nulls_fit(TypeModel::Leaf(leaf), len);
            let few = len <= usize::MAX / 128;
            match leaf {
                LeafType::FixedSizeBinary(n) => fits <==> few && n >= 0 && n * len <= 0x7fff_ffff,
                LeafType::Time32(unit) => fits <==> few && (unit is Second || unit is Millisecond),
                LeafType::Time64(unit) => fits <==> few && (unit is Microsecond
                    || unit is Nanosecond),
                _ => fits <==> few,
            }
        }),
{
}

/// Arrays of NULL of a type with others inside are those whose arrays inside Arrow
/// can build: none of the values of a list, so many of each for a list of fixed
/// size, and one of each for a struct. Run ends count to what their type has.
pub proof fn law_nulls_of_nested_types(
    f: FieldModel,
    n: i32,
    fields: Seq<FieldModel>,
    values: FieldModel,
    len: nat,
)
    ensures
        ({
            let few = len <= usize::MAX / 128;
            let run_end = if f.inside == TypeModel::Leaf(LeafType::Int16) {
                0x7fffint
            } else if f.inside == TypeModel::Leaf(LeafType::Int32) {
                0x7fff_ffff
            } else if f.inside == TypeModel::Leaf(LeafType::Int64) {
                0x7fff_ffff_ffff_ffff
            } else {
                -1
            };
            &&& nulls_fit(TypeModel::List(Box::new(f)), len) <==> few && nulls_fit(f.inside, 0)
            &&& nulls_fit(TypeModel::LargeList(Box::new(f)), len) <==> few && nulls_fit(
                f.inside,
                0,
            )
            &&& nulls_fit(TypeModel::ListView(Box::new(f)), len) <==> few && nulls_fit(
                f.inside,
                0,
            )
            &&& nulls_fit(TypeModel::LargeListView(Box::new(f)), len) <==> few && nulls_fit(
                f.inside,
                0,
            )
            &&& nulls_fit(TypeModel::FixedSizeList(Box::new(f), n), len) <==> few && n >= 0
                && nulls_fit(f.inside, (n * len) as nat)
            &&& nulls_fit(TypeModel::Struct(fields), len) <==> few && forall|k: int|
                0 <= k < fields.len() ==> nulls_fit((#[trigger] fields[k]).inside, len)
            &&& nulls_fit(TypeModel::RunEndEncoded(Box::new(f), Box::new(values)), len) <==> few
                && len <= run_end && nulls_fit(
                values.inside,
                if len == 0 {
                    0
                } else {
                    1
                },
            )
        }),
{
}

/// Where Arrow can build NULL so many times, it can build it fewer times.
pub proof fn law_fewer_nulls_fit(t: TypeModel, more: nat, fewer: nat)
    requires
        nulls_fit(t, more),
        fewer <= more,
    ensures
        nulls_fit(t, fewer),
    decreases t,
{
    match t {
        TypeModel::Leaf(LeafType::FixedSizeBinary(n)) => {
            assert(n * fewer <= n * more) by (nonlinear_arith)
                requires
                    n >= 0,
                    fewer <= more,
            ;
        },
        TypeModel::FixedSizeList(f, n) => {
            assert(0 <= n * fewer <= n * more) by (nonlinear_arith)
                requires
                    n >= 0,
                    0 <= fewer <= more,
            ;
            law_fewer_nulls_fit(f.inside, (n * more) as nat, (n * fewer) as nat);
        },
        TypeModel::Struct(fields) => {
            assert forall|k: int| 0 <= k < fields.len() implies nulls_fit(
                (#[trigger] fields[k]).inside,
                fewer,
            ) by {
                assert(decreases_to!(t => t->Struct_0[k].inside));
                law_fewer_nulls_fit(fields[k].inside, more, fewer);
            }
        },
        TypeModel::SparseUnion(members) => {
            assert forall|k: int| 0 <= k < members.len() implies (#[trigger] members[k]).0 >= 0
                && nulls_fit(members[k].1.inside, fewer) by {
                assert(decreases_to!(t => t->SparseUnion_0[k].1.inside));
                law_fewer_nulls_fit(members[k].1.inside, more, fewer);
            }
        },
        TypeModel::DenseUnion(members) => {
            assert forall|k: int| 0 <= k < members.len() implies (#[trigger] members[k]).0 >= 0
                && nulls_fit(
                members[k].1.inside,
                if k == 0 {
                    fewer
                } else {
                    0
                },
            ) by {
                assert(decreases_to!(t => t->DenseUnion_0[k].1.inside));
                law_fewer_nulls_fit(
                    members[k].1.inside,
                    if k == 0 {
                        more
                    } else {
                        0
                    },
                    if k == 0 {
                        fewer
                    } else {
                        0
                    },
                );
            }
        },
        TypeModel::RunEndEncoded(_, values) => {
            if fewer == 0 && more > 0 {
                law_fewer_nulls_fit(values.inside, 1, 0);
            }
        },
        _ => {},
    }
}

/// The positions are positions of the array, as far as they are not missing.
pub open spec fn are_within(a: ArrayModel, positions: Seq<Option<u32>>) -> bool {
    forall|i: int|
        0 <= i < positions.len() && positions[i] is Some ==> (#[trigger] positions[i])->0
            < a.cells.len()
}

/// What values at positions hold together of the values or bytes inside them. A
/// value that is NULL, and a missing position, hold nothing.
pub open spec fn held_at(a: ArrayModel, positions: Seq<Option<u32>>) -> nat
    decreases positions.len(),
{
    if positions.len() == 0 {
        0
    } else {
        let before = held_at(a, positions.drop_last());
        match positions.last() {
            Some(p) => if a.mask is None || (a.mask->0)[p as int] {
                let (start, end) = a.spans[p as int];
                before + if start < end {
                    (end - start) as nat
                } else {
                    0
                }
            } else {
                before
            },
            None => before,
        }
    }
}

/// What is held at positions, as Arrow adds it up.
proof fn lemma_held_at(a: ArrayModel, positions: Seq<Option<u32>>)
    requires
        are_within(a, positions),
        a.cells.len() <= usize::MAX,
    ensures
        total(a.listed(widened(positions))) == held_at(a, positions),
    decreases positions.len(),
{
    let wide = widened(positions);
    if positions.len() > 0 {
        let front = positions.drop_last();
        assert forall|i: int| 0 <= i < front.len() && front[i] is Some implies (
        #[trigger] front[i])->0 < a.cells.len() by {
            assert(front[i] == positions[i]);
        }
        lemma_held_at(a, front);
        assert(positions[positions.len() - 1] is Some ==> positions.last()->0 < a.cells.len());
        assert(wide.drop_last() =~= widened(front));
        assert(wide.last() == match positions.last() {
            Some(p) => Some(p as usize),
            None => None,
        });
        let before = present(wide.drop_last(), a.mask);
        if let Some(p) = wide.last() {
            if is_valid(a.mask, p) {
                let ranges = before.push((p, (p + 1) as usize));
                assert(present(wide, a.mask) == ranges);
                assert(ranges.drop_last() =~= before);
                let inner = held(a.spans, before).push((a.spans[p as int].0, a.spans[p as int].1));
                assert(held(a.spans, ranges) == inner);
                assert(inner.drop_last() =~= held(a.spans, before));
            }
        }
    } else {
        assert(wide =~= Seq::empty());
        assert(present(wide, a.mask) =~= Seq::empty());
        assert(held(a.spans, present(wide, a.mask)) =~= Seq::empty());
    }
}

/// Numbers, dates, spans of time and views of text can be taken at any positions of
/// the array, however many, and missing ones too.
pub proof fn law_plain_values_can_be_taken(a: ArrayModel, positions: Seq<Option<u32>>, leaf: LeafType)
    requires
        a.inside == TypeModel::Leaf(leaf),
        !(leaf is FixedSizeBinary || leaf is Time32 || leaf is Time64 || leaf is Utf8
            || leaf is LargeUtf8 || leaf is Binary || leaf is LargeBinary),
    ensures
        can_take(a, positions) <==> are_within(a, positions),
        can_count(a, positions) <==> are_within(a, positions),
{
    lemma_within(a, positions);
    law_nulls_of_plain_types(leaf, 0);
}

/// Positions in the array, as numbers of either width.
proof fn lemma_within(a: ArrayModel, positions: Seq<Option<u32>>)
    ensures
        are_in(widened(positions), a.cells.len()) <==> are_within(a, positions),
        widened(positions).len() == positions.len(),
{
    let wide = widened(positions);
    if are_within(a, positions) {
        assert forall|i: int| 0 <= i < wide.len() implies (#[trigger] wide[i] matches Some(p) ==> p
            < a.cells.len()) by {
            if wide[i] is Some {
                assert(positions[i] is Some);
            }
        }
    }
    if are_in(wide, a.cells.len()) {
        assert forall|i: int| 0 <= i < positions.len() && positions[i] is Some implies (
        #[trigger] positions[i])->0 < a.cells.len() by {
            assert(wide[i] is Some);
        }
    }
}

/// Text and bytes can be taken at any positions of the array. Arrow succeeds exactly
/// if what is taken has no more bytes than offsets count.
pub proof fn law_text_can_be_taken(a: ArrayModel, positions: Seq<Option<u32>>, leaf: LeafType)
    requires
        a.inside == TypeModel::Leaf(leaf),
        leaf is Utf8 || leaf is Binary || leaf is LargeUtf8 || leaf is LargeBinary,
        a.cells.len() <= usize::MAX,
    ensures
        can_take(a, positions) <==> are_within(a, positions),
        leaf is Utf8 || leaf is Binary ==> (can_count(a, positions) <==> are_within(a, positions)
            && held_at(a, positions) <= 0x7fff_ffff),
        leaf is LargeUtf8 || leaf is LargeBinary ==> (can_count(a, positions) <==> are_within(
            a,
            positions,
        ) && held_at(a, positions) <= 0x7fff_ffff_ffff_ffff),
{
    lemma_within(a, positions);
    if are_within(a, positions) {
        lemma_held_at(a, positions);
    }
    law_nulls_of_plain_types(leaf, 0);
}

/// A struct can be taken from at positions exactly if each of its members can, is of
/// its field's data type and as long as the struct, and where the field does not
/// allow NULL none is taken from a struct that is there.
pub proof fn law_structs_are_taken_by_member(
    a: ArrayModel,
    positions: Seq<Option<u32>>,
    fields: Seq<FieldModel>,
)
    requires
        a.inside == TypeModel::Struct(fields),
        positions.len() > 0,
        nulls_fit(a.inside, 0),
    ensures
        can_take(a, positions) <==> {
            &&& are_within(a, positions)
            &&& a.parts.len() == fields.len()
            &&& forall|k: int|
                0 <= k < fields.len() ==> {
                    &&& (#[trigger] a.parts[k]).data_type == fields[k].data_type
                    &&& a.parts[k].cells.len() == a.cells.len()
                    &&& can_take(a.parts[k], positions)
                }
            &&& forall|k: int, i: int|
                0 <= k < fields.len() && 0 <= i < positions.len() && !fields[k].nullable
                    && positions[i] is Some && (a.mask is None || (
                a.mask->0)[positions[i]->0 as int]) ==> (
                #[trigger] a.parts[k]).cells[(#[trigger] positions[i])->0 as int] is Some
        },
{
    lemma_within(a, positions);
    let wide = widened(positions);
    assert(a.taken_parts() == a.parts);
    if can_take(a, positions) {
        assert forall|k: int| 0 <= k < fields.len() implies {
            &&& (#[trigger] a.parts[k]).data_type == fields[k].data_type
            &&& a.parts[k].cells.len() == a.cells.len()
            &&& can_take(a.parts[k], positions)
        } by {
            assert(can_take_at(
                a.taken_parts()[k],
                a.inner_positions(wide, k),
                a.inner_last(0xffff_ffff),
                false,
            ));
        }
        assert forall|k: int, i: int|
            0 <= k < fields.len() && 0 <= i < positions.len() && !fields[k].nullable
                && positions[i] is Some && (a.mask is None || (
            a.mask->0)[positions[i]->0 as int]) implies (#[trigger] a.parts[k]).cells[(
        #[trigger] positions[i])->0 as int] is Some by {
            assert(is_member(a, fields[k], a.parts[k], wide));
            assert(wide[i] == Some(positions[i]->0 as usize));
        }
    }
    if {
        &&& are_within(a, positions)
        &&& a.parts.len() == fields.len()
        &&& forall|k: int|
            0 <= k < fields.len() ==> {
                &&& (#[trigger] a.parts[k]).data_type == fields[k].data_type
                &&& a.parts[k].cells.len() == a.cells.len()
                &&& can_take(a.parts[k], positions)
            }
        &&& forall|k: int, i: int|
            0 <= k < fields.len() && 0 <= i < positions.len() && !fields[k].nullable
                && positions[i] is Some && (a.mask is None || (a.mask->0)[positions[i]->0 as int])
                ==> (#[trigger] a.parts[k]).cells[(#[trigger] positions[i])->0 as int] is Some
    } {
        assert forall|k: int| 0 <= k < fields.len() implies is_member(
            a,
            fields[k],
            #[trigger] a.parts[k],
            wide,
        ) by {
            if !fields[k].nullable {
                assert forall|i: int| 0 <= i < wide.len() implies (#[trigger] wide[i] matches Some(p)
                    ==> a.parts[k].cells[p as int] is Some || !is_valid(a.mask, p)) by {
                    if wide[i] is Some {
                        assert(positions[i] is Some);
                    }
                }
            }
        }
        assert forall|k: int| 0 <= k < a.taken_parts().len() implies can_take_at(
            #[trigger] a.taken_parts()[k],
            a.inner_positions(wide, k),
            a.inner_last(0xffff_ffff),
            false,
        ) by {
            assert(can_take(a.parts[k], positions));
        }
    }
}

/// Lists can be taken at positions exactly if the positions are those of the array,
/// what is taken has no more values than offsets count, there is room for as many
/// values as lists have on average, and Arrow can copy the values.
pub proof fn law_lists_are_taken_with_their_values(a: ArrayModel, positions: Seq<Option<u32>>)
    requires
        a.inside is List || a.inside is LargeList || a.inside is Entries,
        positions.len() > 0,
        nulls_fit(a.inside, 0),
        a.parts.len() == 1,
        0 < a.cells.len() <= usize::MAX,
    ensures
        ({
            let room = a.parts[0].cells.len() / a.cells.len() * positions.len();
            can_take(a, positions) <==> {
                &&& are_within(a, positions)
                &&& held_at(a, positions) <= if a.inside is LargeList {
                    0x7fff_ffff_ffff_ffffint
                } else {
                    0x7fff_ffff
                }
                &&& room <= usize::MAX / 128
                &&& can_copy(a.parts[0], a.listed(widened(positions)), None, room as usize)
            }
        }),
{
    lemma_within(a, positions);
    if are_within(a, positions) {
        lemma_held_at(a, positions);
    }
    assert(a.taken_parts() =~= Seq::<ArrayModel>::empty());
}

/// Numbers can be copied range by range, as long as the ranges lie in the array and
/// the room and what is copied can be counted.
pub proof fn law_plain_values_can_be_copied(
    a: ArrayModel,
    ranges: Seq<(usize, usize)>,
    room: usize,
    leaf: LeafType,
)
    requires
        a.inside == TypeModel::Leaf(leaf),
        !(leaf is FixedSizeBinary || leaf is Utf8 || leaf is LargeUtf8 || leaf is Binary
            || leaf is LargeBinary),
    ensures
        can_copy(a, ranges, None, room) <==> {
            &&& room <= usize::MAX / 128
            &&& forall|i: int|
                0 <= i < ranges.len() ==> (#[trigger] ranges[i]).0 <= ranges[i].1 && ranges[i].1
                    <= a.cells.len()
            &&& slots(ranges).len() <= usize::MAX / 2
        },
{
    lemma_total_is_slots(ranges);
    assert(a.copied_parts(None) =~= Seq::<ArrayModel>::empty());
}

/// Ranges have as many values as they have slots.
proof fn lemma_total_is_slots(ranges: Seq<(usize, usize)>)
    ensures
        total(ranges) == slots(ranges).len(),
    decreases ranges.len(),
{
    if ranges.len() > 0 {
        lemma_total_is_slots(ranges.drop_last());
    }
}

/// The slots of ranges are those of the one part and then those of the other, and
/// the slots of one range are the numbers from its start up to its end.
pub proof fn law_slots_are_those_of_the_ranges(
    ranges: Seq<(usize, usize)>,
    range: (usize, usize),
)
    requires
        range.0 <= range.1,
    ensures
        slots(ranges.push(range)).len() == slots(ranges).len() + (range.1 - range.0),
        forall|i: int|
            0 <= i < slots(ranges).len() ==> #[trigger] slots(ranges.push(range))[i]
                == slots(ranges)[i],
        forall|i: int|
            slots(ranges).len() <= i < slots(ranges.push(range)).len() ==> #[trigger] slots(
                ranges.push(range),
            )[i] == range.0 + (i - slots(ranges).len()),
        slots(Seq::empty()) == Seq::<usize>::empty(),
{
    assert(ranges.push(range).drop_last() =~= ranges);
}

/// The rows that picks from the first of two arrays name.
pub open spec fn rows_picked(picks: Seq<(usize, usize)>) -> Seq<usize>
    decreases picks.len(),
{
    if picks.len() == 0 {
        Seq::empty()
    } else if picks.last().0 == 0 {
        rows_picked(picks.drop_last()).push(picks.last().1)
    } else {
        rows_picked(picks.drop_last())
    }
}

/// The ranges that picks stand for hold the rows that are picked from the first
/// array, in order and as often as they are picked. All other picks are NULL.
pub proof fn law_picked_ranges_hold_the_picked_rows(picks: Seq<(usize, usize)>)
    requires
        forall|i: int| 0 <= i < picks.len() ==> (#[trigger] picks[i]).1 < usize::MAX,
    ensures
        slots(picked_ranges(picks)) == rows_picked(picks),
        rows_picked(picks).len() + picked_nulls(picks) == picks.len(),
        picks.len() > 0 && picks.last().0 == 0 ==> picked_ranges(picks).len() > 0
            && picked_ranges(picks).last().0 < picked_ranges(picks).last().1
            && picked_ranges(picks).last().1 == picks.last().1 + 1,
    decreases picks.len(),
{
    if picks.len() > 0 {
        let front = picks.drop_last();
        let before = picked_ranges(front);
        let (array, row) = picks.last();
        assert forall|i: int| 0 <= i < front.len() implies (#[trigger] front[i]).1 < usize::MAX by {
            assert(front[i] == picks[i]);
        }
        law_picked_ranges_hold_the_picked_rows(front);
        assert(picks[picks.len() - 1].1 < usize::MAX);
        if array == 0 {
            if picks.len() > 1 && picks[picks.len() - 2].0 == 0 && picks[picks.len() - 2].1 + 1
                == row {
                assert(front.last() == picks[picks.len() - 2]);
                let longer = (before.last().0, (row + 1) as usize);
                let after = before.drop_last().push(longer);
                assert(picked_ranges(picks) == after);
                assert(after.drop_last() =~= before.drop_last());
                assert(slots(after) =~= slots(before).push(row));
            } else {
                let single = (row, (row + 1) as usize);
                assert(before.push(single).drop_last() =~= before);
                assert(slots(before.push(single)) =~= slots(before).push(row));
            }
        }
    }
}

/// A position is picked from the array, and a missing one from the NULL beside it.
pub proof fn law_positions_are_picked_in_order(positions: Seq<Option<u32>>)
    ensures
        picks_of(positions).len() == positions.len(),
        forall|i: int|
            0 <= i < positions.len() ==> #[trigger] picks_of(positions)[i] == (match positions[i] {
                Some(p) => (0usize, p as usize),
                None => (1usize, 0usize),
            }),
{
}

/// Values can be filled in from an array exactly if they can be taken from it,
/// unless it is one of a union or of runs and a position is missing: then exactly if
/// Arrow can build a NULL of its type and interleave the two.
pub proof fn law_values_are_filled_in_as_taken(a: ArrayModel, positions: Seq<Option<u32>>)
    ensures
        ({
            let bare = a.inside is SparseUnion || a.inside is DenseUnion || a.inside is RunEndEncoded;
            let missing = exists|i: int| 0 <= i < positions.len() && #[trigger] positions[i] is None;
            &&& !(bare && missing) ==> can_fill(a, positions) == can_take(a, positions)
                && fills_well(a, positions) == can_count(a, positions)
            &&& bare && missing ==> can_fill(a, positions) == (nulls_fit(a.inside, 1)
                && can_interleave(a, picks_of(positions))) && fills_well(a, positions)
        }),
{
    if positions.contains(None) {
        let i = choose|i: int| 0 <= i < positions.len() && positions[i] == None::<u32>;
        assert(positions[i] is None);
    }
    if exists|i: int| 0 <= i < positions.len() && #[trigger] positions[i] is None {
        let i = choose|i: int| 0 <= i < positions.len() && #[trigger] positions[i] is None;
        assert(positions[i] == None::<u32>);
        assert(positions.contains(None));
    }
}

/// Dictionaries and list views share what is inside them, so they can be taken at
/// any positions of the array.
pub proof fn law_shared_values_can_be_taken(a: ArrayModel, positions: Seq<Option<u32>>)
    requires
        a.inside is Dictionary || a.inside is ListView || a.inside is LargeListView,
        nulls_fit(a.inside, 0),
    ensures
        can_take(a, positions) <==> are_within(a, positions),
        can_count(a, positions) <==> are_within(a, positions),
{
    lemma_within(a, positions);
    assert(a.taken_parts() =~= Seq::<ArrayModel>::empty());
}

/// Values of fixed size can be taken as far as 31 bits count their bytes. Where
/// Arrow takes such values in one piece, their buffers have to be whole.
pub proof fn law_fixed_sizes_can_be_taken(a: ArrayModel, positions: Seq<Option<u32>>, n: i32)
    requires
        a.inside == TypeModel::Leaf(LeafType::FixedSizeBinary(n)),
        positions.len() > 0,
    ensures
        can_take(a, positions) == can_count(a, positions),
        can_take(a, positions) <==> {
            &&& n >= 0
            &&& are_within(a, positions)
            &&& n * positions.len() <= 0x7fff_ffff
            &&& n == 1 || n == 2 || n == 4 || n == 8 || n == 16 ==> forall|b: int|
                0 <= b < a.buffers.len() ==> #[trigger] a.buffers[b] % (n as usize) == 0
        },
{
    lemma_within(a, positions);
    law_nulls_of_plain_types(LeafType::FixedSizeBinary(n), 0);
    assert(n * 0 == 0);
    assert(a.taken_parts() =~= Seq::<ArrayModel>::empty());
}

/// Lists of fixed size are taken with the values inside them: for each position of
/// a list, the positions of its values one after the other.
pub proof fn law_fixed_size_lists_are_taken_with_their_values(
    positions: Seq<Option<usize>>,
    size: nat,
    position: Option<usize>,
    j: int,
)
    requires
        0 <= j < size,
    ensures
        ({
            let before = expanded(positions, size);
            let after = expanded(positions.push(position), size);
            &&& after.len() == before.len() + size
            &&& after.take(before.len() as int) == before
            &&& after[before.len() + j] == (match position {
                Some(p) => Some((p * size + j) as usize),
                None => None,
            })
        }),
        expanded(Seq::empty(), size) == Seq::<Option<usize>>::empty(),
{
    assert(positions.push(position).drop_last() =~= positions);
    let before = expanded(positions, size);
    assert(expanded(positions.push(position), size).take(before.len() as int) =~= before);
}

/// Every value belongs to a run that is taken, a run is not taken again for the
/// value that follows in it, and the runs are taken in the order of the values.
pub proof fn law_runs_are_taken_once_in_a_row(places: Seq<usize>, at: Seq<usize>)
    ensures
        runs_taken(places, at).len() <= at.len(),
        at.len() > 0 ==> runs_taken(places, at).len() > 0 && runs_taken(places, at).last()
            == places[at.last() as int],
        forall|i: int|
            0 <= i < at.len() ==> runs_taken(places, at).contains(
                places[#[trigger] at[i] as int],
            ),
        forall|k: int|
            0 < k < runs_taken(places, at).len() ==> #[trigger] runs_taken(places, at)[k]
                != runs_taken(places, at)[k - 1],
    decreases at.len(),
{
    if at.len() > 0 {
        let front = at.drop_last();
        let before = runs_taken(places, front);
        let after = runs_taken(places, at);
        law_runs_are_taken_once_in_a_row(places, front);
        let run = places[at.last() as int];
        if at.len() > 1 && places[at[at.len() - 2] as int] == run {
            assert(front.last() == at[at.len() - 2]);
        }
        assert(after[after.len() - 1] == run);
        assert forall|i: int| 0 <= i < at.len() implies after.contains(
            places[#[trigger] at[i] as int],
        ) by {
            if i < front.len() {
                assert(before.contains(places[front[i] as int]));
                let k = choose|k: int|
                    0 <= k < before.len() && before[k] == places[front[i] as int];
                assert(after[k] == before[k]);
            }
        }
        assert forall|k: int| 0 < k < after.len() implies #[trigger] after[k] != after[k - 1] by {
            if k < before.len() {
                assert(before[k] != before[k - 1]);
            } else if at.len() > 1 {
                assert(front.last() == at[at.len() - 2]);
            }
        }
    }
}

/// Of the values of a union, a member has those with its type id, each where the
/// union says, in the order of the values.
pub proof fn law_members_have_their_own_values(
    ids: Seq<i8>,
    places: Seq<usize>,
    at: Seq<usize>,
    p: usize,
    id: i8,
)
    ensures
        of_member(ids, places, Seq::empty(), id) == Seq::<usize>::empty(),
        ids[p as int] == id ==> of_member(ids, places, at.push(p), id) == of_member(
            ids,
            places,
            at,
            id,
        ).push(places[p as int]),
        ids[p as int] != id ==> of_member(ids, places, at.push(p), id) == of_member(
            ids,
            places,
            at,
            id,
        ),
{
    assert(at.push(p).drop_last() =~= at);
}

/// What goes along with a range of values: of lists, from where its first list
/// starts to where its last one ends; of runs, from the run of its first value to
/// that of its last. An empty range has nothing go along.
pub proof fn law_ranges_go_along(
    spans: Seq<(usize, usize)>,
    places: Seq<usize>,
    ranges: Seq<(usize, usize)>,
    range: (usize, usize),
)
    ensures
        range.0 < range.1 ==> held(spans, ranges.push(range)) == held(spans, ranges).push(
            (spans[range.0 as int].0, spans[range.1 - 1].1),
        ),
        range.0 >= range.1 ==> held(spans, ranges.push(range)) == held(spans, ranges),
        range.0 < range.1 ==> runs_held(places, ranges.push(range)) == runs_held(
            places,
            ranges,
        ).push((places[range.0 as int], (places[range.1 - 1] + 1) as usize)),
        range.0 >= range.1 ==> runs_held(places, ranges.push(range)) == runs_held(places, ranges),
{
    assert(ranges.push(range).drop_last() =~= ranges);
}

/// A batch of numbers can always be written: whatever rows of it are kept, Arrow can
/// take them, and does so without an error.
pub proof fn law_numbers_can_be_written(
    ctx: WriteStreamContext,
    batch: Batch,
    keep_rows: Seq<u32>,
    leaves: Seq<LeafType>,
)
    requires
        keep_rows.len() > 0,
        ctx.filler is None,
        leaves.len() == batch_columns(batch).len(),
        forall|k: int|
            0 <= k < leaves.len() ==> {
                &&& batch_columns(batch)[k].inside == TypeModel::Leaf(#[trigger] leaves[k])
                &&& !(leaves[k] is FixedSizeBinary || leaves[k] is Time32 || leaves[k] is Time64
                    || leaves[k] is Utf8 || leaves[k] is LargeUtf8 || leaves[k] is Binary
                    || leaves[k] is LargeBinary)
                &&& batch_columns(batch)[k].cells.len() == batch_rows(batch)
            },
        forall|i: int| 0 <= i < keep_rows.len() ==> #[trigger] keep_rows[i] < batch_rows(batch),
    ensures
        writable(ctx, batch, keep_rows),
        ctx.made_for(batch_fields(batch)) && conforms(batch_fields(batch), batch_columns(batch))
            ==> promises_rows(ctx, batch, keep_rows),
{
    let positions = from_rows(keep_rows);
    assert forall|k: int| 0 <= k < batch_columns(batch).len() implies can_take(
        #[trigger] batch_columns(batch)[k],
        positions,
    ) && can_count(batch_columns(batch)[k], positions) by {
        let a = batch_columns(batch)[k];
        assert(a.inside == TypeModel::Leaf(leaves[k]));
        assert forall|i: int| 0 <= i < positions.len() && positions[i] is Some implies (
        #[trigger] positions[i])->0 < a.cells.len() by {
            assert(keep_rows[i] < batch_rows(batch));
        }
        law_plain_values_can_be_taken(a, positions, leaves[k]);
    }
}

/// Where a column is filled and no row to keep matches a target row, the rows can be
/// written exactly if Arrow can take them and build as many NULLs of every filled
/// field.
pub proof fn law_unmatched_rows_need_nulls(
    ctx: WriteStreamContext,
    batch: Batch,
    keep_rows: Seq<u32>,
    filler: TargetColumnFiller,
    addrs: UInt64Model,
)
    requires
        keep_rows.len() > 0,
        ctx.filler == Some(filler),
        batch_columns(batch)[ctx.rowaddr_idx as int].uint64 == Some(addrs),
        forall|k: int|
            0 <= k < batch_columns(batch).len() ==> can_take(
                #[trigger] batch_columns(batch)[k],
                from_rows(keep_rows),
            ),
    ensures
        writable(ctx, batch, keep_rows) <==> {
            ||| exists|i: int|
                0 <= i < keep_rows.len() && addrs.valid[#[trigger] keep_rows[i] as int]
            ||| forall|k: int|
                0 <= k < filler.fields@.len() ==> nulls_fit(
                    field_model(#[trigger] filler.fields@[k]).inside,
                    keep_rows.len(),
                )
        },
{
    law_target_is_read_where_rows_match(ctx, batch, keep_rows, addrs);
    assert(ctx.filled() == filler.models());
    if ctx.nulls_buildable(keep_rows.len()) {
        assert forall|k: int| 0 <= k < filler.fields@.len() implies nulls_fit(
            field_model(#[trigger] filler.fields@[k]).inside,
            keep_rows.len(),
        ) by {
            assert(ctx.filled()[k] == field_model(filler.fields@[k]));
        }
    }
    if forall|k: int|
        0 <= k < filler.fields@.len() ==> nulls_fit(
            field_model(#[trigger] filler.fields@[k]).inside,
            keep_rows.len(),
        ) {
        assert forall|k: int| 0 <= k < ctx.filled().len() implies nulls_fit(
            (#[trigger] ctx.filled()[k]).inside,
            keep_rows.len(),
        ) by {
            assert(ctx.filled()[k] == field_model(filler.fields@[k]));
        }
    }
}

/// Rows are positions that are not missing, each the number of its row.
pub proof fn law_rows_are_positions(rows: Seq<u32>)
    ensures
        from_rows(rows).len() == rows.len(),
        forall|i: int| 0 <= i < rows.len() ==> #[trigger] from_rows(rows)[i] == Some(rows[i]),
{
}

/// Without rows to keep, a batch can be written exactly if Arrow can build an empty
/// column of every written field.
pub proof fn law_empty_batches_need_empty_columns(ctx: WriteStreamContext, batch: Batch)
    ensures
        writable(ctx, batch, Seq::empty()) <==> forall|k: int|
            0 <= k < schema_fields(ctx.output_schema).len() ==> nulls_fit(
                (#[trigger] schema_fields(ctx.output_schema)[k]).inside,
                0,
            ),
{
}

/// Columns of numbers can always be filled: where every address asked for was read,
/// Arrow can take the values, and does so without an error.
pub proof fn law_numbers_can_be_filled(
    ctx: WriteStreamContext,
    taken: Batch,
    rows: UInt64Model,
    filler: TargetColumnFiller,
    at: int,
    read: UInt64Model,
    leaves: Seq<LeafType>,
)
    requires
        ctx.filler == Some(filler),
        rows.values.len() == rows.valid.len(),
        0 <= at < batch_fields(taken).len(),
        batch_fields(taken)[at].name == "_rowaddr"@,
        forall|i: int| 0 <= i < at ==> (#[trigger] batch_fields(taken)[i]).name != "_rowaddr"@,
        batch_columns(taken)[at].uint64 == Some(read),
        read.values.len() <= 0x1_0000_0000,
        leaves.len() == batch_columns(taken).len(),
        batch_fields(taken).len() == batch_columns(taken).len(),
        forall|k: int|
            0 <= k < leaves.len() ==> {
                &&& batch_columns(taken)[k].inside == TypeModel::Leaf(#[trigger] leaves[k])
                &&& !(leaves[k] is FixedSizeBinary || leaves[k] is Time32 || leaves[k] is Time64
                    || leaves[k] is Utf8 || leaves[k] is LargeUtf8 || leaves[k] is Binary
                    || leaves[k] is LargeBinary)
                &&& batch_columns(taken)[k].cells.len() == read.values.len()
            },
    ensures
        resumable(ctx, taken, rows.options()),
        (forall|i: int|
            0 <= i < rows.values.len() && rows.valid[i] ==> read.values.contains(
                #[trigger] rows.values[i],
            )) ==> forall|f: int|
            0 <= f < batch_columns(taken).len() ==> fills_surely(
                #[trigger] batch_columns(taken)[f],
                read.values,
                rows.options(),
            ),
{
    law_reading_fails_for_a_reason(batch_fields(taken), batch_columns(taken), rows, at, read);
    let positions = positions_of(read.values, rows.options());
    if reading_error(batch_fields(taken), batch_columns(taken), rows.options()) is None {
        law_rows_are_found_where_they_were_read(read.values, rows);
        assert forall|f: int| 0 <= f < batch_columns(taken).len() implies can_fill(
            #[trigger] batch_columns(taken)[f],
            positions,
        ) && fills_surely(batch_columns(taken)[f], read.values, rows.options()) by {
            let a = batch_columns(taken)[f];
            assert(a.inside == TypeModel::Leaf(leaves[f]));
            assert forall|i: int| 0 <= i < positions.len() && positions[i] is Some implies (
            #[trigger] positions[i])->0 < a.cells.len() by {
                assert(rows.valid[i]);
            }
            law_plain_values_can_be_taken(a, positions, leaves[f]);
            law_values_are_filled_in_as_taken(a, positions);
        }
        assert forall|k: int| 0 <= k < filler.models().len() implies filler.takeable(
            taken,
            rows.options(),
            k,
        ) by {
            lemma_first_named(batch_fields(taken), filler.models()[k].name);
            if let Some(f) = filler.reading_column(taken, k) {
                assert(can_fill(batch_columns(taken)[f], positions));
            }
        }
    }
}

/// Arrays of NULL of dictionaries, maps and unions. Keys are integers, the entries
/// of a map have two parts, and a union has members with type ids; the NULLs of a
/// dense union are those of its first member, at positions of 31 bits.
pub proof fn law_nulls_of_shared_types(
    key: TypeModel,
    values: TypeModel,
    entries: FieldModel,
    members: Seq<(i8, FieldModel)>,
    len: nat,
)
    ensures
        ({
            let few = len <= usize::MAX / 128;
            &&& nulls_fit(TypeModel::Dictionary(Box::new(key), Box::new(values)), len) <==> few
                && nulls_fit(values, 0) && (key == TypeModel::Leaf(LeafType::Int8) || key
                == TypeModel::Leaf(LeafType::Int16) || key == TypeModel::Leaf(LeafType::Int32)
                || key == TypeModel::Leaf(LeafType::Int64) || key == TypeModel::Leaf(
                LeafType::UInt8,
            ) || key == TypeModel::Leaf(LeafType::UInt16) || key == TypeModel::Leaf(
                LeafType::UInt32,
            ) || key == TypeModel::Leaf(LeafType::UInt64))
            &&& nulls_fit(TypeModel::Entries(Box::new(entries)), len) <==> few
                && entries.inside is Struct && entries.inside->Struct_0.len() == 2 && nulls_fit(
                entries.inside,
                0,
            )
            &&& nulls_fit(TypeModel::SparseUnion(members), len) <==> few && members.len() > 0
                && forall|k: int|
                0 <= k < members.len() ==> (#[trigger] members[k]).0 >= 0 && nulls_fit(
                    members[k].1.inside,
                    len,
                )
            &&& nulls_fit(TypeModel::DenseUnion(members), len) <==> few && len <= 0x7fff_ffff
                && members.len() > 0 && (forall|k: int|
                0 <= k < members.len() ==> (#[trigger] members[k]).0 >= 0) && nulls_fit(
                members[0].1.inside,
                len,
            ) && forall|k: int|
                0 < k < members.len() ==> nulls_fit((#[trigger] members[k]).1.inside, 0)
        }),
{
    let t = TypeModel::DenseUnion(members);
    if nulls_fit(t, len) {
        assert(members[0].0 >= 0);
        assert forall|k: int| 0 < k < members.len() implies nulls_fit(
            (#[trigger] members[k]).1.inside,
            0,
        ) by {}
    }
}

/// Lists of fixed size can be taken exactly if the values inside them can, at
/// positions that 32 bits count.
pub proof fn law_fixed_size_lists_can_be_taken(
    a: ArrayModel,
    positions: Seq<Option<u32>>,
    f: FieldModel,
    n: i32,
)
    requires
        a.inside == TypeModel::FixedSizeList(Box::new(f), n),
        positions.len() > 0,
        a.parts.len() == 1,
        nulls_fit(a.inside, 0),
    ensures
        can_take(a, positions) <==> {
            &&& are_within(a, positions)
            &&& n * positions.len() <= 0xffff_ffff
            &&& forall|i: int|
                0 <= i < positions.len() && positions[i] is Some ==> ((#[trigger] positions[i])->0
                    + 1) * n <= 0xffff_ffff
            &&& can_take_at(
                a.parts[0],
                expanded(widened(positions), n as nat),
                0xffff_ffff,
                false,
            )
        },
{
    lemma_within(a, positions);
    let wide = widened(positions);
    assert(a.taken_parts() == a.parts);
    assert(forall|i: int|
        0 <= i < positions.len() ==> #[trigger] wide[i] == (match positions[i] {
            Some(p) => Some(p as usize),
            None => None,
        }));
    if are_reached(wide, n as nat) {
        assert forall|i: int| 0 <= i < positions.len() && positions[i] is Some implies ((
        #[trigger] positions[i])->0 + 1) * n <= 0xffff_ffff by {
            assert(wide[i] is Some);
            assert((wide[i]->0 + 1) * (n as nat) == (positions[i]->0 + 1) * n);
        }
    }
    if forall|i: int|
        0 <= i < positions.len() && positions[i] is Some ==> ((#[trigger] positions[i])->0 + 1) * n
            <= 0xffff_ffff {
        assert forall|i: int| 0 <= i < wide.len() implies (#[trigger] wide[i] matches Some(p) ==> (p
            + 1) * (n as nat) <= u32::MAX) by {
            if wide[i] is Some {
                assert(positions[i] is Some);
                assert((wide[i]->0 + 1) * (n as nat) == (positions[i]->0 + 1) * n);
            }
        }
    }
    if can_take(a, positions) {
        assert(can_take_at(
            a.taken_parts()[0],
            a.inner_positions(wide, 0),
            a.inner_last(0xffff_ffff),
            false,
        ));
    }
}

/// A sparse union can be taken from exactly if it has a value and each of its
/// members can be taken from at the same positions.
pub proof fn law_sparse_unions_are_taken_by_member(a: ArrayModel, positions: Seq<Option<u32>>)
    requires
        a.inside is SparseUnion,
        positions.len() > 0,
        nulls_fit(a.inside, 0),
    ensures
        can_take(a, positions) <==> {
            &&& a.cells.len() > 0
            &&& are_within(a, positions)
            &&& forall|k: int|
                0 <= k < a.parts.len() ==> can_take(#[trigger] a.parts[k], positions)
        },
{
    lemma_within(a, positions);
    let wide = widened(positions);
    assert(a.taken_parts() == a.parts);
    if can_take(a, positions) {
        assert forall|k: int| 0 <= k < a.parts.len() implies can_take(
            #[trigger] a.parts[k],
            positions,
        ) by {
            assert(can_take_at(
                a.taken_parts()[k],
                a.inner_positions(wide, k),
                a.inner_last(0xffff_ffff),
                false,
            ));
        }
    }
    if forall|k: int| 0 <= k < a.parts.len() ==> can_take(#[trigger] a.parts[k], positions) {
        assert forall|k: int| 0 <= k < a.taken_parts().len() implies can_take_at(
            #[trigger] a.taken_parts()[k],
            a.inner_positions(wide, k),
            a.inner_last(0xffff_ffff),
            false,
        ) by {
            assert(can_take(a.parts[k], positions));
        }
    }
}

/// Runs can only be taken as far as their run ends count.
pub proof fn law_taken_runs_can_be_counted(a: ArrayModel, positions: Seq<Option<u32>>)
    requires
        a.inside is RunEndEncoded,
        positions.len() > 0,
        can_take(a, positions),
    ensures
        are_within(a, positions),
        ({
            let ends = a.inside->RunEndEncoded_0.inside;
            ||| ends == TypeModel::Leaf(LeafType::Int16) && positions.len() <= 0x7fff
            ||| ends == TypeModel::Leaf(LeafType::Int32) && positions.len() <= 0x7fff_ffff
            ||| ends == TypeModel::Leaf(LeafType::Int64) && positions.len() <= 0x7fff_ffff_ffff_ffff
        }),
{
    lemma_within(a, positions);
}

/// Text and bytes can be copied range by range as far as their offsets count what
/// the ranges hold.
pub proof fn law_text_can_be_copied(
    a: ArrayModel,
    ranges: Seq<(usize, usize)>,
    room: usize,
    leaf: LeafType,
)
    requires
        a.inside == TypeModel::Leaf(leaf),
        leaf is Utf8 || leaf is Binary || leaf is LargeUtf8 || leaf is LargeBinary,
    ensures
        can_copy(a, ranges, None, room) <==> {
            &&& room <= usize::MAX / 128
            &&& forall|i: int|
                0 <= i < ranges.len() ==> (#[trigger] ranges[i]).0 <= ranges[i].1 && ranges[i].1
                    <= a.cells.len()
            &&& slots(ranges).len() <= usize::MAX / 2
            &&& slots(held(a.spans, ranges)).len() <= if leaf is Utf8 || leaf is Binary {
                0x7fff_ffffint
            } else {
                0x7fff_ffff_ffff_ffff
            }
        },
{
    lemma_total_is_slots(ranges);
    lemma_total_is_slots(held(a.spans, ranges));
    assert(a.copied_parts(None) =~= Seq::<ArrayModel>::empty());
}

/// Rows can be written where no column is filled exactly if Arrow can take them of
/// every column. Arrow does so without an error if the layout was made for the batch
/// and what is taken of every column can be counted.
pub proof fn law_rows_that_can_be_taken_can_be_written(
    ctx: WriteStreamContext,
    batch: Batch,
    keep_rows: Seq<u32>,
)
    requires
        keep_rows.len() > 0,
    ensures
        ctx.filler is None ==> (writable(ctx, batch, keep_rows) <==> forall|k: int|
            0 <= k < batch_columns(batch).len() ==> can_take(
                #[trigger] batch_columns(batch)[k],
                from_rows(keep_rows),
            )),
        promises_rows(ctx, batch, keep_rows) <==> {
            &&& ctx.made_for(batch_fields(batch))
            &&& conforms(batch_fields(batch), batch_columns(batch))
            &&& forall|k: int|
                0 <= k < batch_columns(batch).len() ==> can_count(
                    #[trigger] batch_columns(batch)[k],
                    from_rows(keep_rows),
                )
        },
{
}

/// Column `f` of the rows that were read is the first with the name of filled field
/// `k`.
pub open spec fn is_read_for(filler: TargetColumnFiller, taken: Batch, k: int, f: int) -> bool {
    &&& 0 <= k < filler.fields@.len()
    &&& 0 <= f < batch_fields(taken).len()
    &&& batch_fields(taken)[f].name == field_model(filler.fields@[k]).name
    &&& forall|g: int|
        0 <= g < f ==> (#[trigger] batch_fields(taken)[g]).name != field_model(
            filler.fields@[k],
        ).name
}

/// A batch can be completed with the rows that were read exactly if, for each filled
/// field, Arrow can fill in the values of the first column read that has its name.
pub proof fn law_columns_that_can_be_filled_can_be_resumed(
    ctx: WriteStreamContext,
    taken: Batch,
    rows: UInt64Model,
    filler: TargetColumnFiller,
)
    requires
        ctx.filler == Some(filler),
        reading_error(batch_fields(taken), batch_columns(taken), rows.options()) is None,
    ensures
        resumable(ctx, taken, rows.options()) <==> forall|k: int, f: int| #[trigger]
            is_read_for(filler, taken, k, f) ==> can_fill(
                batch_columns(taken)[f],
                positions_of(
                    read_addresses(batch_fields(taken), batch_columns(taken)),
                    rows.options(),
                ),
            ),
{
    let positions = positions_of(
        read_addresses(batch_fields(taken), batch_columns(taken)),
        rows.options(),
    );
    assert(filler.models().len() == filler.fields@.len());
    if resumable(ctx, taken, rows.options()) {
        assert(ctx.filler->0 == filler);
        assert(forall|k: int|
            0 <= k < filler.models().len() ==> filler.takeable(taken, rows.options(), k));
        assert forall|k: int, f: int| #[trigger] is_read_for(filler, taken, k, f) implies can_fill(
            batch_columns(taken)[f],
            positions,
        ) by {
            assert(filler.models()[k] == field_model(filler.fields@[k]));
            lemma_first_named(batch_fields(taken), filler.models()[k].name);
            assert(filler.takeable(taken, rows.options(), k));
        }
    }
    if forall|k: int, f: int| #[trigger]
        is_read_for(filler, taken, k, f) ==> can_fill(batch_columns(taken)[f], positions) {
        assert forall|k: int| 0 <= k < filler.models().len() implies filler.takeable(
            taken,
            rows.options(),
            k,
        ) by {
            assert(filler.models()[k] == field_model(filler.fields@[k]));
            lemma_first_named(batch_fields(taken), filler.models()[k].name);
            if let Some(f) = filler.reading_column(taken, k) {
                assert(is_read_for(filler, taken, k, f));
            }
        }
    }
}

/// The largest key of a type of keys is the largest number that the type has.
pub proof fn law_keys_are_as_large_as_their_type()
    ensures
        LeafType::Int8.last_key() == Some(i8::MAX as u64),
        LeafType::UInt8.last_key() == Some(u8::MAX as u64),
        LeafType::Int16.last_key() == Some(i16::MAX as u64),
        LeafType::UInt16.last_key() == Some(u16::MAX as u64),
        LeafType::Int32.last_key() == Some(i32::MAX as u64),
        LeafType::UInt32.last_key() == Some(u32::MAX as u64),
        LeafType::Int64.last_key() == Some(i64::MAX as u64),
        LeafType::UInt64.last_key() == Some(u64::MAX),
{
}

/// A dense union can be taken from exactly if it has a value, and each of its
/// members can be taken from where the union says that its values are, at positions
/// of 31 bits.
pub proof fn law_dense_unions_are_taken_by_member(
    a: ArrayModel,
    positions: Seq<Option<u32>>,
    members: Seq<(i8, FieldModel)>,
)
    requires
        a.inside == TypeModel::DenseUnion(members),
        a.parts.len() == members.len(),
        positions.len() > 0,
        nulls_fit(a.inside, 0),
    ensures
        can_take(a, positions) <==> {
            &&& a.cells.len() > 0
            &&& are_within(a, positions)
            &&& forall|k: int|
                0 <= k < members.len() ==> {
                    let places = of_member(
                        a.type_ids,
                        a.places,
                        or_first(widened(positions)),
                        (#[trigger] members[k]).0,
                    );
                    &&& places.len() <= 0x7fff_ffff
                    &&& can_take_at(a.parts[k], known(places), 0x7fff_ffff, false)
                }
        },
{
    lemma_within(a, positions);
    let wide = widened(positions);
    assert(a.taken_parts() == a.parts);
    assert forall|k: int| 0 <= k < members.len() implies a.taken_places(wide, k) == of_member(
        a.type_ids,
        a.places,
        or_first(wide),
        (#[trigger] members[k]).0,
    ) by {}
    if can_take(a, positions) {
        assert forall|k: int| 0 <= k < members.len() implies {
            let places = of_member(
                a.type_ids,
                a.places,
                or_first(wide),
                (#[trigger] members[k]).0,
            );
            &&& places.len() <= 0x7fff_ffff
            &&& can_take_at(a.parts[k], known(places), 0x7fff_ffff, false)
        } by {
            assert(a.taken_places(wide, k).len() <= i32::MAX);
            assert(can_take_at(
                a.taken_parts()[k],
                a.inner_positions(wide, k),
                a.inner_last(0xffff_ffff),
                false,
            ));
        }
    }
    if are_within(a, positions) && a.cells.len() > 0 && (forall|k: int|
        0 <= k < members.len() ==> {
            let places = of_member(
                a.type_ids,
                a.places,
                or_first(wide),
                (#[trigger] members[k]).0,
            );
            &&& places.len() <= 0x7fff_ffff
            &&& can_take_at(a.parts[k], known(places), 0x7fff_ffff, false)
        }) {
        assert forall|k: int| 0 <= k < a.parts.len() implies (#[trigger] a.taken_places(
            wide,
            k,
        )).len() <= i32::MAX by {}
        assert forall|k: int| 0 <= k < a.taken_parts().len() implies can_take_at(
            #[trigger] a.taken_parts()[k],
            a.inner_positions(wide, k),
            a.inner_last(0xffff_ffff),
            false,
        ) by {}
    }
}

/// Runs can be taken exactly if there is a value, run ends count as many values as
/// are taken, 32 bits number the runs that they are in, and these runs can be taken
/// of the values.
pub proof fn law_runs_are_taken_by_value(
    a: ArrayModel,
    positions: Seq<Option<u32>>,
    ends: FieldModel,
    values: FieldModel,
)
    requires
        a.inside == TypeModel::RunEndEncoded(Box::new(ends), Box::new(values)),
        a.parts.len() == 2,
        positions.len() > 0,
        nulls_fit(a.inside, 0),
        nulls_fit(a.parts[0].inside, 0),
    ensures
        ({
            let at = or_first(widened(positions));
            can_take(a, positions) <==> {
                &&& a.cells.len() > 0
                &&& are_within(a, positions)
                &&& positions.len() <= if ends.inside == TypeModel::Leaf(LeafType::Int16) {
                    0x7fffint
                } else if ends.inside == TypeModel::Leaf(LeafType::Int32) {
                    0x7fff_ffff
                } else {
                    0x7fff_ffff_ffff_ffff
                }
                &&& forall|i: int|
                    0 <= i < at.len() ==> a.places[#[trigger] at[i] as int] <= 0xffff_ffff
                &&& can_take_at(a.parts[1], known(runs_taken(a.places, at)), 0xffff_ffff, false)
            }
        }),
{
    lemma_within(a, positions);
    let wide = widened(positions);
    assert(a.taken_parts() == a.parts);
    if can_take(a, positions) {
        assert(can_take_at(
            a.taken_parts()[1],
            a.inner_positions(wide, 1),
            a.inner_last(0xffff_ffff),
            false,
        ));
    }
    assert(can_take_at(a.parts[0], Seq::empty(), 0xffff_ffff, false));
    if can_take_at(
        a.parts[1],
        known(runs_taken(a.places, or_first(wide))),
        0xffff_ffff,
        false,
    ) {
        assert forall|k: int| 0 <= k < a.taken_parts().len() implies can_take_at(
            #[trigger] a.taken_parts()[k],
            a.inner_positions(wide, k),
            a.inner_last(0xffff_ffff),
            false,
        ) by {
            assert(k == 0 || k == 1);
        }
    }
}

/// An array with others inside can be copied range by range exactly if those can be
/// copied with it: the members of a struct in the same ranges, the values of lists
/// from the first to the last of each range, as far as offsets count them, and the
/// values of lists of fixed size in as many times larger ranges.
pub proof fn law_nested_values_are_copied_along(
    a: ArrayModel,
    ranges: Seq<(usize, usize)>,
    room: usize,
)
    requires
        room <= usize::MAX / 128,
        slots(ranges).len() <= usize::MAX / 2,
        forall|i: int|
            0 <= i < ranges.len() ==> (#[trigger] ranges[i]).0 <= ranges[i].1 && ranges[i].1
                <= a.cells.len(),
    ensures
        a.inside is Struct ==> (can_copy(a, ranges, None, room) <==> forall|k: int|
            0 <= k < a.parts.len() ==> can_copy(#[trigger] a.parts[k], ranges, None, room)),
        (a.inside is List || a.inside is LargeList || a.inside is Entries) && a.parts.len() == 1
            ==> (can_copy(a, ranges, None, room) <==> {
            &&& slots(held(a.spans, ranges)).len() <= if a.inside is LargeList {
                0x7fff_ffff_ffff_ffffint
            } else {
                0x7fff_ffff
            }
            &&& can_copy(a.parts[0], held(a.spans, ranges), None, room)
        }),
        a.inside is FixedSizeList && a.parts.len() == 1 ==> {
            let size = a.inside->FixedSizeList_1;
            can_copy(a, ranges, None, room) <==> {
                &&& size >= 0
                &&& size * a.cells.len() <= a.parts[0].cells.len()
                &&& size * room <= usize::MAX / 128
                &&& can_copy(
                    a.parts[0],
                    Seq::new(
                        ranges.len(),
                        |i: int| ((ranges[i].0 * size) as usize, (ranges[i].1 * size) as usize),
                    ),
                    None,
                    (size * room) as usize,
                )
            }
        },
{
    lemma_total_is_slots(ranges);
    lemma_total_is_slots(held(a.spans, ranges));
    let parts = a.copied_parts(None);
    if can_copy(a, ranges, None, room) {
        assert forall|k: int| 0 <= k < parts.len() implies can_copy(
            #[trigger] parts[k],
            a.inner_ranges(ranges, k),
            a.inner_nulls(None, k),
            a.inner_room(room, k),
        ) && a.copies_part(ranges, None, k) by {
            assert(parts[k] == a.copied_parts(None)[k]);
        }
    }
    if a.inside is Struct {
        assert(parts == a.parts);
        if forall|k: int|
            0 <= k < a.parts.len() ==> can_copy(#[trigger] a.parts[k], ranges, None, room) {
            assert(can_copy(a, ranges, None, room));
        }
        if can_copy(a, ranges, None, room) {
            assert forall|k: int| 0 <= k < a.parts.len() implies can_copy(
                #[trigger] a.parts[k],
                ranges,
                None,
                room,
            ) by {
                assert(parts[k] == a.parts[k]);
            }
        }
    }
    if (a.inside is List || a.inside is LargeList || a.inside is Entries) && a.parts.len() == 1 {
        assert(parts == a.parts);
        if can_copy(a, ranges, None, room) {
            assert(parts[0] == a.parts[0]);
        }
    }
    if a.inside is FixedSizeList && a.parts.len() == 1 {
        let size = a.inside->FixedSizeList_1;
        assert(parts == a.parts);
        if size >= 0 {
            assert(a.inner_ranges(ranges, 0) =~= Seq::new(
                ranges.len(),
                |i: int| ((ranges[i].0 * size) as usize, (ranges[i].1 * size) as usize),
            ));
        }
        if can_copy(a, ranges, None, room) {
            assert(parts[0] == a.parts[0]);
        }
    }
}

/// Numbers can be interleaved with NULL at any positions of the array, as far as
/// they can be counted.
pub proof fn law_plain_values_can_be_interleaved(
    a: ArrayModel,
    picks: Seq<(usize, usize)>,
    leaf: LeafType,
)
    requires
        a.inside == TypeModel::Leaf(leaf),
        !(leaf is FixedSizeBinary || leaf is Utf8 || leaf is LargeUtf8 || leaf is Binary
            || leaf is LargeBinary),
        0 < picks.len() <= usize::MAX / 128,
        forall|i: int| 0 <= i < picks.len() ==> (#[trigger] picks[i]).1 < usize::MAX,
        forall|i: int|
            0 <= i < picks.len() && (#[trigger] picks[i]).0 == 0 ==> picks[i].1 < a.cells.len(),
    ensures
        can_interleave(a, picks),
{
    let ranges = picked_ranges(picks);
    law_picked_ranges_hold_the_picked_rows(picks);
    lemma_total_is_slots(ranges);
    lemma_picked_ranges_lie_in(a, picks);
    let nulls = Some((picked_nulls(picks) as u64, 1u64));
    assert(a.copied_parts(nulls) =~= Seq::<ArrayModel>::empty());
    assert(picked_nulls(picks) <= u64::MAX);
    assert(added(nulls) == picked_nulls(picks)) by (nonlinear_arith)
        requires
            added(nulls) == picked_nulls(picks) * 1,
    ;
}

/// Ranges of picked rows lie where the rows do.
proof fn lemma_picked_ranges_lie_in(a: ArrayModel, picks: Seq<(usize, usize)>)
    requires
        forall|i: int| 0 <= i < picks.len() ==> (#[trigger] picks[i]).1 < usize::MAX,
        forall|i: int|
            0 <= i < picks.len() && (#[trigger] picks[i]).0 == 0 ==> picks[i].1 < a.cells.len(),
    ensures
        lie_in(picked_ranges(picks), a.cells.len()),
    decreases picks.len(),
{
    if picks.len() > 0 {
        let front = picks.drop_last();
        let before = picked_ranges(front);
        assert forall|i: int| 0 <= i < front.len() implies #[trigger] front[i] == picks[i] by {}
        lemma_picked_ranges_lie_in(a, front);
        law_picked_ranges_hold_the_picked_rows(front);
        let last = picks[picks.len() - 1];
        assert(last.1 < usize::MAX);
        if last.0 == 0 {
            assert(last.1 < a.cells.len());
            if picks.len() > 1 {
                assert(front.last() == picks[picks.len() - 2]);
            }
            let after = picked_ranges(picks);
            assert forall|i: int| 0 <= i < after.len() implies (#[trigger] after[i]).0
                <= after[i].1 && after[i].1 <= a.cells.len() by {
                if i < after.len() - 1 {
                    assert(after[i] == before[i]);
                } else if before.len() > 0 {
                    assert(before[before.len() - 1] == before.last());
                }
            }
        }
    }
}

} // verus!
