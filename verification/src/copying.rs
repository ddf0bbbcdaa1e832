//! What Arrow can copy of an array.
//!
//! Arrow copies ranges of an array into a new one, and along with them ranges of
//! the arrays inside. It does so for the values of a list that is taken, and where
//! it interleaves an array with NULLs. The new arrays have room set aside, and
//! count their values with numbers of a fixed width. Arrow panics where the room
//! cannot be counted or the numbers end. This module says how far they go.

use crate::arrow::{
    binary_spans, column_model, column_models, entry_spans, large_binary_spans, large_list_spans,
    large_string_spans, len_of, list_spans, long_run_at, parts_of, run_at, short_run_at,
    string_spans, type_of, union_ids, union_places, views_of_large_list, views_of_list,
    ArrayModel, Column,
};
use crate::ranges::{
    add_up, do_lie_in, held, held_by, lemma_slots_lie_in, lie_in, member_places, of_member,
    runs_held, scale, scaled, single_out, singles, slots, slots_of, total, view_at, viewed,
};
use crate::types::{
    field_last_run_end, field_model, long_product, parts_of_type, type_model, LeafType, TypeModel,
    TypeParts,
};
use arrow_schema::{DataType, Field};
use vstd::prelude::*;

verus! {

/// How many values NULLs add: so many times so many.
pub open spec fn added(nulls: Option<(u64, u64)>) -> nat {
    match nulls {
        Some((times, each)) => times as nat * each as nat,
        None => 0,
    }
}

impl ArrayModel {
    /// The arrays inside of which values are copied. The values of a dictionary are
    /// shared, unless NULLs from another array are added.
    pub open spec fn copied_parts(self, nulls: Option<(u64, u64)>) -> Seq<ArrayModel> {
        if self.inside is Leaf || (self.inside is Dictionary && nulls is None) {
            Seq::empty()
        } else {
            self.parts
        }
    }

    /// Where member `k` of a union has the values of ranges that belong to it.
    pub open spec fn copied_places(self, ranges: Seq<(usize, usize)>, k: int) -> Seq<usize> {
        of_member(
            self.type_ids,
            self.places,
            slots(ranges),
            self.inside->DenseUnion_0[k].0,
        )
    }

    /// The ranges of the array inside at `k` that go along with these ranges.
    pub open spec fn inner_ranges(self, ranges: Seq<(usize, usize)>, k: int) -> Seq<
        (usize, usize),
    > {
        match self.inside {
            TypeModel::Leaf(_) => Seq::empty(),
            TypeModel::ListView(_) | TypeModel::LargeListView(_) => viewed(
                self.views,
                slots(ranges),
            ),
            TypeModel::FixedSizeList(_, size) => scaled(ranges, size as nat),
            TypeModel::Struct(_) | TypeModel::SparseUnion(_) => ranges,
            TypeModel::DenseUnion(_) => singles(self.copied_places(ranges, k)),
            TypeModel::RunEndEncoded(..) => if k == 1 {
                runs_held(self.places, ranges)
            } else {
                Seq::empty()
            },
            TypeModel::Dictionary(..) => seq![(0usize, self.parts[k].cells.len() as usize)],
            _ => held(self.spans, ranges),
        }
    }

    /// The NULLs of the array inside at `k` that go along with these. A NULL list
    /// has no values, a NULL of a union is one of its first member, and NULLs that
    /// come together are a single run.
    pub open spec fn inner_nulls(self, nulls: Option<(u64, u64)>, k: int) -> Option<(u64, u64)> {
        match nulls {
            None => None,
            Some((times, each)) => Some(
                match self.inside {
                    TypeModel::FixedSizeList(_, size) => (times, (size * each) as u64),
                    TypeModel::Struct(_) | TypeModel::SparseUnion(_) => (times, each),
                    TypeModel::DenseUnion(_) => if k == 0 {
                        (added(nulls) as u64, 1)
                    } else {
                        (0, 0)
                    },
                    TypeModel::RunEndEncoded(..) => if k == 1 && each > 0 {
                        (times, 1)
                    } else {
                        (0, 0)
                    },
                    _ => (0, 0),
                },
            ),
        }
    }

    /// The room that is set aside for the values of the array inside at `k`.
    pub open spec fn inner_room(self, room: usize, k: int) -> usize {
        match self.inside {
            TypeModel::FixedSizeList(_, size) => (size * room) as usize,
            TypeModel::Dictionary(..) => self.parts[k].cells.len() as usize,
            _ => room,
        }
    }

    /// The array's own room can be counted, and its own numbers go as far as what is
    /// copied of it.
    pub open spec fn copies_itself(
        self,
        ranges: Seq<(usize, usize)>,
        nulls: Option<(u64, u64)>,
        room: usize,
    ) -> bool {
        let count = total(ranges) + added(nulls);
        &&& room <= usize::MAX / 128
        &&& lie_in(ranges, self.cells.len())
        &&& count <= usize::MAX / 2
        &&& match self.inside {
            TypeModel::Leaf(LeafType::FixedSizeBinary(size)) => size > 0 ==> {
                &&& count <= 0x7fff_ffffnat / size as nat
                &&& size * room <= usize::MAX / 128
            },
            TypeModel::Leaf(leaf) => leaf.last_byte() matches Some(last) ==> total(
                held(self.spans, ranges),
            ) <= last,
            TypeModel::Dictionary(key, _) => {
                &&& self.parts.len() == 1
                &&& *key matches TypeModel::Leaf(leaf)
                &&& leaf.last_key() matches Some(last)
                &&& self.parts[0].cells.len() <= last
            },
            TypeModel::ListView(_) | TypeModel::LargeListView(_) => {
                &&& self.parts.len() == 1
                &&& forall|i: int|
                    0 <= i < self.views.len() ==> (#[trigger] self.views[i]).0 + self.views[i].1
                        <= self.parts[0].cells.len()
            },
            TypeModel::FixedSizeList(_, size) => {
                &&& self.parts.len() == 1
                &&& size >= 0
                &&& size * self.cells.len() <= self.parts[0].cells.len()
                &&& size * room <= usize::MAX / 128
                &&& nulls matches Some((_, each)) ==> size * each <= usize::MAX / 128
            },
            TypeModel::DenseUnion(members) => {
                &&& self.parts.len() == members.len()
                &&& added(nulls) <= 0x7fff_ffff
            },
            TypeModel::RunEndEncoded(ends, _) => {
                &&& self.parts.len() == 2
                &&& ends.inside.last_run_end() matches Some(last)
                &&& count <= last
                &&& forall|i: int|
                    0 <= i < ranges.len() && (#[trigger] ranges[i]).0 < ranges[i].1
                        ==> self.places[ranges[i].1 - 1] < self.parts[1].cells.len()
            },
            _ => true,
        }
    }

    /// The array's own numbers go as far as what is copied of the array inside at
    /// `k`.
    pub open spec fn copies_part(
        self,
        ranges: Seq<(usize, usize)>,
        nulls: Option<(u64, u64)>,
        k: int,
    ) -> bool {
        match self.inside {
            TypeModel::DenseUnion(_) => {
                let places = self.copied_places(ranges, k);
                &&& places.len() + added(self.inner_nulls(nulls, k)) <= 0x7fff_ffff
                &&& forall|i: int|
                    0 <= i < places.len() ==> #[trigger] places[i] < self.parts[k].cells.len()
            },
            _ => match self.inside.last_offset() {
                Some(last) => total(self.inner_ranges(ranges, k)) <= last,
                None => true,
            },
        }
    }
}

/// Arrow can copy these ranges of an array, and add NULLs of its type from another
/// one, into a new array with room for so many values. The NULLs come so many times
/// so many together; `None` is for no other array.
pub open spec fn can_copy(
    a: ArrayModel,
    ranges: Seq<(usize, usize)>,
    nulls: Option<(u64, u64)>,
    room: usize,
) -> bool
    decreases a,
{
    &&& a.copies_itself(ranges, nulls, room)
    &&& forall|k: int|
        0 <= k < a.copied_parts(nulls).len() ==> #[trigger] a.copies_part(ranges, nulls, k)
    &&& forall|k: int|
        0 <= k < a.copied_parts(nulls).len() ==> can_copy(
            #[trigger] a.copied_parts(nulls)[k],
            a.inner_ranges(ranges, k),
            a.inner_nulls(nulls, k),
            a.inner_room(room, k),
        )
}

/// The ranges of the first array that picks stand for. Picks that follow each
/// other are one range.
pub open spec fn picked_ranges(picks: Seq<(usize, usize)>) -> Seq<(usize, usize)>
    decreases picks.len(),
{
    if picks.len() == 0 {
        Seq::empty()
    } else {
        let before = picked_ranges(picks.drop_last());
        let (array, row) = picks.last();
        if array != 0 {
            before
        } else if picks.len() > 1 && picks[picks.len() - 2].0 == 0 && picks[picks.len() - 2].1 + 1
            == row {
            before.drop_last().push((before.last().0, (row + 1) as usize))
        } else {
            before.push((row, (row + 1) as usize))
        }
    }
}

/// How often picks stand for the second array.
pub open spec fn picked_nulls(picks: Seq<(usize, usize)>) -> nat
    decreases picks.len(),
{
    if picks.len() == 0 {
        0
    } else {
        picked_nulls(picks.drop_last()) + (if picks.last().0 == 0 {
            0nat
        } else {
            1nat
        })
    }
}

/// Arrow can interleave an array with a NULL of its type, by these picks.
pub open spec fn can_interleave(a: ArrayModel, picks: Seq<(usize, usize)>) -> bool {
    &&& picks.len() > 0
    &&& can_copy(
        a,
        picked_ranges(picks),
        Some((picked_nulls(picks) as u64, 1)),
        picks.len() as usize,
    )
}

/// How many values NULLs add.
fn add_nulls(nulls: Option<(u64, u64)>) -> (r: u128)
    ensures
        r == added(nulls),
{
    match nulls {
        Some((times, each)) => {
            assert(times * each <= 0xffff_ffff_ffff_ffff * 0xffff_ffff_ffff_ffff)
                by (nonlinear_arith)
                requires
                    times <= 0xffff_ffff_ffff_ffff,
                    each <= 0xffff_ffff_ffff_ffff,
            ;
            times as u128 * each as u128
        },
        None => 0,
    }
}

/// The arrays inside of which values are copied.
fn copied_parts_of(column: &Column, d: &DataType, nulls: Option<(u64, u64)>) -> (r: Vec<Column>)
    requires
        type_model(*d) == column_model(*column).inside,
    ensures
        column_models(r@) == column_model(*column).copied_parts(nulls),
{
    let none: Vec<Column> = Vec::new();
    assert(column_models(none@) =~= Seq::<ArrayModel>::empty());
    match parts_of_type(d) {
        TypeParts::Leaf(_) => none,
        TypeParts::Dictionary(..) => {
            if nulls.is_some() {
                parts_of(column)
            } else {
                none
            }
        },
        _ => parts_of(column),
    }
}

/// Which values of the array inside each value of a list or map holds, or which
/// bytes each value of strings or bytes has.
pub(crate) fn spans_of(column: &Column, d: &DataType) -> (r: Vec<(usize, usize)>)
    requires
        type_model(*d) == column_model(*column).inside,
        type_model(*d).is_list() || (type_model(*d) matches TypeModel::Leaf(leaf)
            && leaf.last_byte() is Some),
    ensures
        r@ == column_model(*column).spans,
        r.len() == column_model(*column).cells.len(),
{
    match parts_of_type(d) {
        TypeParts::List(_) => list_spans(column),
        TypeParts::LargeList(_) => large_list_spans(column),
        TypeParts::Entries(_) => entry_spans(column),
        TypeParts::Leaf(LeafType::Utf8) => string_spans(column),
        TypeParts::Leaf(LeafType::Binary) => binary_spans(column),
        TypeParts::Leaf(LeafType::LargeUtf8) => large_string_spans(column),
        _ => large_binary_spans(column),
    }
}

/// Which values of the array inside each value of a list view holds.
fn views_of(column: &Column, d: &DataType) -> (r: Vec<(usize, usize)>)
    requires
        type_model(*d) == column_model(*column).inside,
        type_model(*d).is_view(),
    ensures
        r@ == column_model(*column).views,
        r.len() == column_model(*column).cells.len(),
{
    match parts_of_type(d) {
        TypeParts::ListView(_) => views_of_list(column),
        _ => views_of_large_list(column),
    }
}

/// The run that a value belongs to.
pub(crate) fn run_of(column: &Column, ends: &Field, i: usize) -> (r: usize)
    requires
        column_model(*column).inside matches TypeModel::RunEndEncoded(model, _) && *model
            == field_model(*ends),
        field_model(*ends).inside.last_run_end() is Some,
        i < column_model(*column).cells.len(),
    ensures
        r == column_model(*column).places[i as int],
{
    match parts_of_type(ends.data_type()) {
        TypeParts::Leaf(LeafType::Int16) => short_run_at(column, i),
        TypeParts::Leaf(LeafType::Int32) => run_at(column, i),
        _ => long_run_at(column, i),
    }
}

/// The one array inside, if there is one.
fn only_part(column: &Column) -> (r: Option<Column>)
    ensures
        match r {
            Some(part) => column_model(*column).parts.len() == 1 && column_model(part)
                == column_model(*column).parts[0],
            None => column_model(*column).parts.len() != 1,
        },
{
    let mut parts: Vec<Column> = parts_of(column);
    assert(column_models(parts@).len() == parts.len());
    if parts.len() != 1 {
        return None;
    }
    assert(column_models(parts@)[0] == column_model(parts@[0]));
    parts.pop()
}

/// Whether the views of a list end before the values inside do.
fn do_views_end(column: &Column, d: &DataType) -> (r: bool)
    requires
        type_model(*d) == column_model(*column).inside,
        type_model(*d).is_view(),
    ensures
        r == (column_model(*column).parts.len() == 1 && forall|i: int|
            0 <= i < column_model(*column).views.len() ==> (#[trigger] column_model(
                *column,
            ).views[i]).0 + column_model(*column).views[i].1 <= column_model(
                *column,
            ).parts[0].cells.len()),
{
    let ghost a = column_model(*column);
    let n: usize = match only_part(column) {
        Some(part) => len_of(&part),
        None => {
            return false;
        },
    };
    let views: Vec<(usize, usize)> = views_of(column, d);
    let count: usize = views.len();
    for i in 0..count
        invariant
            count == views.len(),
            views@ == a.views,
            n == a.parts[0].cells.len(),
            a == column_model(*column),
            forall|j: int| 0 <= j < i ==> (#[trigger] a.views[j]).0 + a.views[j].1 <= n,
    {
        let (start, size): (usize, usize) = views[i];
        assert(a.views[i as int] == (start, size));
        if start > n || size > n - start {
            return false;
        }
    }
    true
}

/// Whether the runs that ranges end in have values.
fn do_runs_end(column: &Column, ends: &Field, ranges: &Vec<(usize, usize)>, n: usize) -> (r: bool)
    requires
        column_model(*column).inside matches TypeModel::RunEndEncoded(model, _) && *model
            == field_model(*ends),
        field_model(*ends).inside.last_run_end() is Some,
        lie_in(ranges@, column_model(*column).cells.len()),
    ensures
        r == forall|i: int|
            0 <= i < ranges.len() && (#[trigger] ranges@[i]).0 < ranges@[i].1 ==> column_model(
                *column,
            ).places[ranges@[i].1 - 1] < n,
{
    let ghost a = column_model(*column);
    let count: usize = ranges.len();
    for i in 0..count
        invariant
            count == ranges.len(),
            a == column_model(*column),
            a.inside matches TypeModel::RunEndEncoded(model, _) && *model == field_model(*ends),
            field_model(*ends).inside.last_run_end() is Some,
            lie_in(ranges@, a.cells.len()),
            forall|j: int|
                0 <= j < i && (#[trigger] ranges@[j]).0 < ranges@[j].1 ==> a.places[ranges@[j].1
                    - 1] < n,
    {
        let (start, end): (usize, usize) = ranges[i];
        assert(ranges@[i as int] == (start, end));
        if start < end && run_of(column, ends, end - 1) >= n {
            return false;
        }
    }
    true
}

/// Whether the array's own room can be counted, and its own numbers go as far as
/// what is copied of it.
fn does_copy_itself(
    column: &Column,
    d: &DataType,
    ranges: &Vec<(usize, usize)>,
    nulls: Option<(u64, u64)>,
    room: usize,
) -> (r: bool)
    requires
        type_model(*d) == column_model(*column).inside,
    ensures
        r == column_model(*column).copies_itself(ranges@, nulls, room),
{
    let ghost a = column_model(*column);
    let len: usize = len_of(column);
    if room > usize::MAX / 128 || !do_lie_in(ranges, len) {
        return false;
    }
    let copied: u64 = add_up(ranges);
    let more: u128 = add_nulls(nulls);
    if more > usize::MAX as u128 || copied as u128 + more > (usize::MAX / 2) as u128 {
        return false;
    }
    let count: u64 = (copied as u128 + more) as u64;
    assert(count == total(ranges@) + added(nulls));
    match parts_of_type(d) {
        TypeParts::Leaf(leaf) => match leaf {
            LeafType::FixedSizeBinary(size) => {
                if size <= 0 {
                    return true;
                }
                count <= 0x7fff_ffff / (size as u64) && long_product(size as u32, room as u64) <= (
                usize::MAX / 128) as u128
            },
            _ => match leaf.largest_byte() {
                Some(last) => {
                    let spans: Vec<(usize, usize)> = spans_of(column, d);
                    add_up(&held_by(&spans, ranges)) <= last
                },
                None => true,
            },
        },
        TypeParts::Dictionary(key, _) => match only_part(column) {
            Some(part) => match parts_of_type(key) {
                TypeParts::Leaf(leaf) => match leaf.largest_key() {
                    Some(last) => len_of(&part) as u64 <= last,
                    None => false,
                },
                _ => false,
            },
            None => false,
        },
        TypeParts::ListView(_) | TypeParts::LargeListView(_) => do_views_end(column, d),
        TypeParts::FixedSizeList(_, size) => match only_part(column) {
            Some(part) => {
                if size < 0 || long_product(size as u32, len as u64) > len_of(&part) as u128
                    || long_product(size as u32, room as u64) > (usize::MAX / 128) as u128 {
                    return false;
                }
                match nulls {
                    Some((_, each)) => long_product(size as u32, each) <= (usize::MAX
                        / 128) as u128,
                    None => true,
                }
            },
            None => false,
        },
        TypeParts::DenseUnion(members) => {
            let parts: Vec<Column> = parts_of(column);
            assert(column_models(parts@).len() == parts.len());
            assert(a.inside->DenseUnion_0.len() == members.len());
            parts.len() == members.len() && more <= 0x7fff_ffff
        },
        TypeParts::RunEndEncoded(ends, _) => {
            let parts: Vec<Column> = parts_of(column);
            assert(column_models(parts@).len() == parts.len());
            if parts.len() != 2 {
                return false;
            }
            assert(column_models(parts@)[1] == column_model(parts@[1]));
            match field_last_run_end(ends) {
                Some(last) => count <= last && do_runs_end(column, ends, ranges, len_of(&parts[1])),
                None => false,
            }
        },
        _ => true,
    }
}

/// The runs that ranges of values lie in.
fn runs_of(column: &Column, ends: &Field, ranges: &Vec<(usize, usize)>, n: usize) -> (r: Vec<
    (usize, usize),
>)
    requires
        column_model(*column).inside matches TypeModel::RunEndEncoded(model, _) && *model
            == field_model(*ends),
        field_model(*ends).inside.last_run_end() is Some,
        lie_in(ranges@, column_model(*column).cells.len()),
        forall|i: int|
            0 <= i < ranges.len() && (#[trigger] ranges@[i]).0 < ranges@[i].1 ==> column_model(
                *column,
            ).places[ranges@[i].1 - 1] < n,
    ensures
        r@ == runs_held(column_model(*column).places, ranges@),
{
    let ghost a = column_model(*column);
    let count: usize = ranges.len();
    let mut out: Vec<(usize, usize)> = Vec::with_capacity(count);
    assert(ranges@.take(0) =~= Seq::<(usize, usize)>::empty());
    for i in 0..count
        invariant
            count == ranges.len(),
            a == column_model(*column),
            a.inside matches TypeModel::RunEndEncoded(model, _) && *model == field_model(*ends),
            field_model(*ends).inside.last_run_end() is Some,
            lie_in(ranges@, a.cells.len()),
            forall|j: int|
                0 <= j < ranges.len() && (#[trigger] ranges@[j]).0 < ranges@[j].1
                    ==> a.places[ranges@[j].1 - 1] < n,
            out@ == runs_held(a.places, ranges@.take(i as int)),
    {
        assert(ranges@.take(i + 1).drop_last() =~= ranges@.take(i as int));
        let (start, end): (usize, usize) = ranges[i];
        assert(ranges@[i as int] == (start, end));
        if start < end {
            let first: usize = run_of(column, ends, start);
            let last: usize = run_of(column, ends, end - 1);
            out.push((first, last + 1));
        }
    }
    assert(ranges@.take(count as int) =~= ranges@);
    out
}

/// Ranges once more.
fn copy_of(ranges: &Vec<(usize, usize)>) -> (r: Vec<(usize, usize)>)
    ensures
        r@ == ranges@,
{
    let n: usize = ranges.len();
    let mut out: Vec<(usize, usize)> = Vec::with_capacity(n);
    for i in 0..n
        invariant
            n == ranges.len(),
            out@ == ranges@.take(i as int),
    {
        out.push(ranges[i]);
        assert(ranges@.take(i + 1) =~= ranges@.take(i as int).push(ranges@[i as int]));
    }
    assert(ranges@.take(n as int) =~= ranges@);
    out
}

/// The NULLs of the array inside at `k` that go along with these.
fn inner_nulls_of(
    column: &Column,
    d: &DataType,
    nulls: Option<(u64, u64)>,
    k: usize,
    Ghost(ranges): Ghost<Seq<(usize, usize)>>,
    Ghost(room): Ghost<usize>,
) -> (r: Option<(u64, u64)>)
    requires
        type_model(*d) == column_model(*column).inside,
        column_model(*column).copies_itself(ranges, nulls, room),
    ensures
        r == column_model(*column).inner_nulls(nulls, k as int),
{
    match nulls {
        None => None,
        Some((times, each)) => Some(
            match parts_of_type(d) {
                TypeParts::FixedSizeList(_, size) => (
                    times,
                    long_product(size as u32, each) as u64,
                ),
                TypeParts::Struct(_) | TypeParts::SparseUnion(_) => (times, each),
                TypeParts::DenseUnion(_) => if k == 0 {
                    (add_nulls(nulls) as u64, 1)
                } else {
                    (0, 0)
                },
                TypeParts::RunEndEncoded(..) => if k == 1 && each > 0 {
                    (times, 1)
                } else {
                    (0, 0)
                },
                _ => (0, 0),
            },
        ),
    }
}

/// The room that is set aside for the values of an array inside.
fn inner_room_of(
    column: &Column,
    d: &DataType,
    part: &Column,
    room: usize,
    k: usize,
    Ghost(ranges): Ghost<Seq<(usize, usize)>>,
    Ghost(nulls): Ghost<Option<(u64, u64)>>,
) -> (r: usize)
    requires
        type_model(*d) == column_model(*column).inside,
        column_model(*column).copies_itself(ranges, nulls, room),
        column_model(*part) == column_model(*column).parts[k as int],
    ensures
        r == column_model(*column).inner_room(room, k as int),
{
    match parts_of_type(d) {
        TypeParts::FixedSizeList(_, size) => long_product(size as u32, room as u64) as usize,
        TypeParts::Dictionary(..) => len_of(part),
        _ => room,
    }
}

/// The ranges of the array inside at `k` that go along with these ranges, if the
/// array's own numbers go as far.
fn inner_ranges_of(
    column: &Column,
    d: &DataType,
    part: &Column,
    k: usize,
    ranges: &Vec<(usize, usize)>,
    nulls: Option<(u64, u64)>,
    Ghost(room): Ghost<usize>,
) -> (r: Option<Vec<(usize, usize)>>)
    requires
        type_model(*d) == column_model(*column).inside,
        k < column_model(*column).copied_parts(nulls).len(),
        column_model(*part) == column_model(*column).parts[k as int],
        column_model(*column).copies_itself(ranges@, nulls, room),
    ensures
        match r {
            Some(inner) => column_model(*column).copies_part(ranges@, nulls, k as int) && inner@
                == column_model(*column).inner_ranges(ranges@, k as int),
            None => !column_model(*column).copies_part(ranges@, nulls, k as int),
        },
{
    let ghost a = column_model(*column);
    let n: usize = len_of(part);
    match parts_of_type(d) {
        TypeParts::Leaf(_) => {
            assert(false);
            None
        },
        TypeParts::List(_) | TypeParts::LargeList(_) | TypeParts::Entries(_) => {
            let spans: Vec<(usize, usize)> = spans_of(column, d);
            within(held_by(&spans, ranges), type_last_offset(d))
        },
        TypeParts::ListView(_) | TypeParts::LargeListView(_) => {
            let views: Vec<(usize, usize)> = views_of(column, d);
            let at: Vec<usize> = slots_of(ranges);
            proof {
                lemma_slots_lie_in(ranges@, a.cells.len());
            }
            within(view_at(&views, &at), type_last_offset(d))
        },
        TypeParts::FixedSizeList(_, size) => {
            let len: usize = len_of(column);
            assert(len * size as usize <= n) by (nonlinear_arith)
                requires
                    size * len <= n,
                    size >= 0,
            ;
            Some(scale(ranges, size as usize, len))
        },
        TypeParts::Struct(_) | TypeParts::SparseUnion(_) => Some(copy_of(ranges)),
        TypeParts::DenseUnion(members) => {
            let ghost models = a.inside->DenseUnion_0;
            assert(models[k as int] == (members@[k as int].0, field_model(*members@[k as int].1)));
            let ids: Vec<i8> = union_ids(column);
            let places: Vec<usize> = union_places(column);
            let at: Vec<usize> = slots_of(ranges);
            proof {
                lemma_slots_lie_in(ranges@, a.cells.len());
            }
            let own: Vec<usize> = member_places(&ids, &places, &at, members[k].0);
            assert(own@ == a.copied_places(ranges@, k as int));
            let inner: Option<(u64, u64)> = inner_nulls_of(
                column,
                d,
                nulls,
                k,
                Ghost(ranges@),
                Ghost(room),
            );
            let count: usize = own.len();
            let more: u128 = add_nulls(inner);
            if more > 0x7fff_ffff || count as u128 + more > 0x7fff_ffff {
                return None;
            }
            for i in 0..count
                invariant
                    count == own.len(),
                    own@ == a.copied_places(ranges@, k as int),
                    a == column_model(*column),
                    a.inside is DenseUnion,
                    n == a.parts[k as int].cells.len(),
                    forall|j: int| 0 <= j < i ==> #[trigger] own@[j] < n,
            {
                if own[i] >= n {
                    assert(!(own@[i as int] < n));
                    return None;
                }
            }
            Some(single_out(&own))
        },
        TypeParts::RunEndEncoded(ends, _) => {
            if k != 1 {
                let none: Vec<(usize, usize)> = Vec::new();
                return Some(none);
            }
            Some(runs_of(column, ends, ranges, n))
        },
        TypeParts::Dictionary(..) => {
            let mut all: Vec<(usize, usize)> = Vec::new();
            all.push((0, n));
            assert(all@ =~= a.inner_ranges(ranges@, k as int));
            Some(all)
        },
    }
}

/// The ranges, if they do not have more values than this.
fn within(ranges: Vec<(usize, usize)>, last: Option<u64>) -> (r: Option<Vec<(usize, usize)>>)
    requires
        last matches Some(last) ==> last < u64::MAX,
    ensures
        r == (if (last matches Some(last) ==> total(ranges@) <= last) {
            Some(ranges)
        } else {
            None
        }),
{
    match last {
        Some(last) => if add_up(&ranges) <= last {
            Some(ranges)
        } else {
            None
        },
        None => Some(ranges),
    }
}

/// How many values the offsets of a list count.
pub(crate) fn type_last_offset(d: &DataType) -> (r: Option<u64>)
    ensures
        r == type_model(*d).last_offset(),
{
    match parts_of_type(d) {
        TypeParts::List(_) | TypeParts::Entries(_) | TypeParts::ListView(_) => Some(0x7fff_ffff),
        TypeParts::LargeList(_) | TypeParts::LargeListView(_) => Some(0x7fff_ffff_ffff_ffff),
        _ => None,
    }
}

/// Whether Arrow can copy these ranges of an array, and add NULLs, into a new array
/// with room for so many values.
pub(crate) fn is_copyable(
    column: &Column,
    ranges: &Vec<(usize, usize)>,
    nulls: Option<(u64, u64)>,
    room: usize,
) -> (r: bool)
    ensures
        r == can_copy(column_model(*column), ranges@, nulls, room),
    decreases column_model(*column),
{
    let ghost a = column_model(*column);
    let d: DataType = type_of(column);
    if !does_copy_itself(column, &d, ranges, nulls, room) {
        return false;
    }
    let parts: Vec<Column> = copied_parts_of(column, &d, nulls);
    let n: usize = parts.len();
    for k in 0..n
        invariant
            n == parts.len(),
            a == column_model(*column),
            type_model(d) == a.inside,
            column_models(parts@) == a.copied_parts(nulls),
            a.copies_itself(ranges@, nulls, room),
            forall|j: int| 0 <= j < k ==> #[trigger] a.copies_part(ranges@, nulls, j),
            forall|j: int|
                0 <= j < k ==> can_copy(
                    #[trigger] a.copied_parts(nulls)[j],
                    a.inner_ranges(ranges@, j),
                    a.inner_nulls(nulls, j),
                    a.inner_room(room, j),
                ),
    {
        assert(column_models(parts@).len() == n);
        assert(column_models(parts@)[k as int] == column_model(parts@[k as int]));
        assert(a.copied_parts(nulls)[k as int] == a.parts[k as int]);
        assert(decreases_to!(a => a.parts[k as int]));
        let inner: Vec<(usize, usize)> = match inner_ranges_of(
            column,
            &d,
            &parts[k],
            k,
            ranges,
            nulls,
            Ghost(room),
        ) {
            Some(inner) => inner,
            None => {
                assert(!a.copies_part(ranges@, nulls, k as int));
                return false;
            },
        };
        let below: Option<(u64, u64)> = inner_nulls_of(
            column,
            &d,
            nulls,
            k,
            Ghost(ranges@),
            Ghost(room),
        );
        let space: usize = inner_room_of(
            column,
            &d,
            &parts[k],
            room,
            k,
            Ghost(ranges@),
            Ghost(nulls),
        );
        if !is_copyable(&parts[k], &inner, below, space) {
            assert(!can_copy(
                a.copied_parts(nulls)[k as int],
                a.inner_ranges(ranges@, k as int),
                a.inner_nulls(nulls, k as int),
                a.inner_room(room, k as int),
            ));
            return false;
        }
    }
    true
}

/// Whether Arrow can interleave an array with a NULL of its type, by these picks.
pub(crate) fn is_interleavable(column: &Column, picks: &Vec<(usize, usize)>) -> (r: bool)
    requires
        forall|i: int|
            0 <= i < picks.len() ==> (#[trigger] picks@[i]).1 < usize::MAX,
    ensures
        r == can_interleave(column_model(*column), picks@),
{
    let n: usize = picks.len();
    if n == 0 {
        return false;
    }
    let mut ranges: Vec<(usize, usize)> = Vec::new();
    let mut nulls: u64 = 0;
    assert(picks@.take(0) =~= Seq::<(usize, usize)>::empty());
    for i in 0..n
        invariant
            n == picks.len(),
            forall|j: int| 0 <= j < picks.len() ==> (#[trigger] picks@[j]).1 < usize::MAX,
            ranges@ == picked_ranges(picks@.take(i as int)),
            nulls == picked_nulls(picks@.take(i as int)),
            nulls <= i,
            i > 0 && picks@[i - 1].0 == 0 ==> ranges.len() > 0,
    {
        let ghost before = picks@.take(i as int);
        let ghost after = picks@.take(i + 1);
        assert(after.drop_last() =~= before);
        let (array, row): (usize, usize) = picks[i];
        assert(picks@[i as int] == (array, row));
        assert(after.last() == (array, row));
        assert(i > 0 ==> after[after.len() - 2] == picks@[i - 1]);
        if array != 0 {
            nulls = nulls + 1;
        } else if i > 0 && picks[i - 1].0 == 0 && picks[i - 1].1 + 1 == row {
            let ghost whole = ranges@;
            match ranges.pop() {
                Some(last) => {
                    ranges.push((last.0, row + 1));
                },
                None => {},
            }
            assert(ranges@ =~= whole.drop_last().push((whole.last().0, (row + 1) as usize)));
        } else {
            ranges.push((row, row + 1));
        }
    }
    assert(picks@.take(n as int) =~= picks@);
    is_copyable(column, &ranges, Some((nulls, 1)), n)
}

} // verus!
