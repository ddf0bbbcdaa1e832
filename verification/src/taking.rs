//! What Arrow can take of an array.
//!
//! Taking values from an array builds new arrays for what is inside it too.
//! These count their values with numbers of a fixed width, and Arrow panics
//! where the numbers end. This module says how far they go.

use crate::arrow::{
    buffers_of, column_model, column_models, is_of_type, len_of, logical_mask_of, mask_of,
    parts_of, type_of, union_ids, union_places, ArrayModel, Column,
};
use crate::copying::{can_copy, is_copyable, run_of, spans_of, type_last_offset};
use crate::ranges::{add_up, held, held_by, lie_in, member_places, of_member, total};
use crate::types::{
    can_hold_nulls, field_last_run_end, field_model, long_product, nulls_fit, parts_of_type,
    type_model, FieldModel, LeafType, TypeModel, TypeParts,
};
use arrow_schema::{DataType, Field};
use vstd::prelude::*;

verus! {

/// Rows as positions, none of which is missing.
pub open spec fn from_rows(rows: Seq<u32>) -> Seq<Option<u32>> {
    rows.map_values(|row: u32| Some(row))
}

/// Positions as numbers that positions in any array fit.
pub open spec fn widened(positions: Seq<Option<u32>>) -> Seq<Option<usize>> {
    positions.map_values(
        |position: Option<u32>|
            match position {
                Some(p) => Some(p as usize),
                None => None,
            },
    )
}

/// The positions are positions of `n` values, as far as they are not missing.
pub open spec fn are_in(positions: Seq<Option<usize>>, n: nat) -> bool {
    forall|i: int|
        0 <= i < positions.len() ==> (#[trigger] positions[i] matches Some(p) ==> p < n)
}

/// Positions, where the first value stands for those that are missing.
pub open spec fn or_first(positions: Seq<Option<usize>>) -> Seq<usize> {
    positions.map_values(
        |position: Option<usize>|
            match position {
                Some(p) => p,
                None => 0,
            },
    )
}

/// Positions, none of which is missing.
pub open spec fn known(places: Seq<usize>) -> Seq<Option<usize>> {
    places.map_values(|place: usize| Some(place))
}

/// Whether a null buffer counts a value as valid. Without one, all are.
pub open spec fn is_valid(mask: Option<Seq<bool>>, p: usize) -> bool {
    mask matches Some(valid) ==> valid[p as int]
}

/// Positions as ranges, without those that are missing and those of values that
/// the null buffer leaves out.
pub open spec fn present(positions: Seq<Option<usize>>, mask: Option<Seq<bool>>) -> Seq<
    (usize, usize),
>
    decreases positions.len(),
{
    if positions.len() == 0 {
        Seq::empty()
    } else {
        let before = present(positions.drop_last(), mask);
        match positions.last() {
            Some(p) => if is_valid(mask, p) {
                before.push((p, (p + 1) as usize))
            } else {
                before
            },
            None => before,
        }
    }
}

/// Positions inside values that hold `size` values each.
pub open spec fn expanded(positions: Seq<Option<usize>>, size: nat) -> Seq<Option<usize>>
    decreases positions.len(),
{
    if positions.len() == 0 {
        Seq::empty()
    } else {
        let last = positions.last();
        expanded(positions.drop_last(), size) + Seq::new(
            size,
            |j: int|
                match last {
                    Some(p) => Some((p * size + j) as usize),
                    None => None,
                },
        )
    }
}

/// The runs of values, each run once where values of it follow each other.
pub open spec fn runs_taken(places: Seq<usize>, at: Seq<usize>) -> Seq<usize>
    decreases at.len(),
{
    if at.len() == 0 {
        Seq::empty()
    } else {
        let before = runs_taken(places, at.drop_last());
        let run = places[at.last() as int];
        if at.len() > 1 && places[at[at.len() - 2] as int] == run {
            before
        } else {
            before.push(run)
        }
    }
}

/// Positions inside values that hold `size` values each are numbers of 32 bits.
pub open spec fn are_reached(positions: Seq<Option<usize>>, size: nat) -> bool {
    forall|i: int|
        0 <= i < positions.len() ==> (#[trigger] positions[i] matches Some(p) ==> (p + 1) * size
            <= u32::MAX)
}

/// The sizes that Arrow takes in one piece. The buffers of such values have to be
/// whole.
pub open spec fn is_chunk(size: i32) -> bool {
    size == 1 || size == 2 || size == 4 || size == 8 || size == 16
}

/// A child of a struct: it is of its field's data type, and where the field does
/// not allow NULL, none is taken from it but where the struct is NULL itself.
pub open spec fn is_member(
    a: ArrayModel,
    field: FieldModel,
    part: ArrayModel,
    positions: Seq<Option<usize>>,
) -> bool {
    &&& part.data_type == field.data_type
    &&& part.cells.len() == a.cells.len()
    &&& field.nullable || forall|i: int|
        0 <= i < positions.len() ==> (#[trigger] positions[i] matches Some(p)
            ==> part.cells[p as int] is Some || !is_valid(a.mask, p))
}

impl ArrayModel {
    /// The room that Arrow sets aside for the values of lists, at so many positions:
    /// as much as lists have on average.
    pub open spec fn list_room(self, count: nat) -> nat {
        if self.cells.len() == 0 {
            0
        } else {
            self.parts[0].cells.len() / self.cells.len() * count
        }
    }

    /// The ranges of values that lists at these positions hold.
    pub open spec fn listed(self, positions: Seq<Option<usize>>) -> Seq<(usize, usize)> {
        held(self.spans, present(positions, self.mask))
    }

    /// Where member `k` of a union has the values at positions that belong to it.
    pub open spec fn taken_places(self, positions: Seq<Option<usize>>, k: int) -> Seq<usize> {
        of_member(
            self.type_ids,
            self.places,
            or_first(positions),
            self.inside->DenseUnion_0[k].0,
        )
    }

    /// The array itself, not what is inside it, can be taken from. Positions in it
    /// are numbers up to `last`. Strings may end in an error instead; `sure` leaves
    /// that out.
    pub open spec fn takes_itself(
        self,
        positions: Seq<Option<usize>>,
        last: usize,
        sure: bool,
    ) -> bool {
        let count = positions.len();
        &&& are_in(positions, self.cells.len())
        &&& match self.inside {
            TypeModel::Leaf(LeafType::FixedSizeBinary(n)) => {
                &&& n * count <= i32::MAX
                &&& is_chunk(n) ==> forall|b: int|
                    0 <= b < self.buffers.len() ==> #[trigger] self.buffers[b] % (n as usize) == 0
            },
            TypeModel::Leaf(leaf) => sure ==> (leaf.last_byte() matches Some(bytes) ==> total(
                self.listed(positions),
            ) <= bytes),
            TypeModel::List(_) | TypeModel::LargeList(_) | TypeModel::Entries(_) => {
                &&& self.parts.len() == 1
                &&& self.list_room(count) <= usize::MAX / 128
                &&& self.inside.last_offset() matches Some(offset) && total(
                    self.listed(positions),
                ) <= offset
            },
            TypeModel::FixedSizeList(_, n) => {
                &&& self.parts.len() == 1
                &&& n >= 0
                &&& n * count <= u32::MAX
                &&& are_reached(positions, n as nat)
            },
            TypeModel::Struct(fields) => {
                &&& self.parts.len() == fields.len()
                &&& forall|k: int|
                    0 <= k < fields.len() ==> is_member(
                        self,
                        fields[k],
                        #[trigger] self.parts[k],
                        positions,
                    )
            },
            TypeModel::SparseUnion(_) => self.cells.len() > 0,
            TypeModel::DenseUnion(members) => {
                &&& self.parts.len() == members.len()
                &&& self.cells.len() > 0
            },
            TypeModel::RunEndEncoded(ends, _) => {
                &&& self.parts.len() == 2
                &&& self.cells.len() > 0
                &&& ends.inside.last_run_end() matches Some(end) && count <= end
                &&& forall|i: int|
                    0 <= i < count ==> self.places[#[trigger] or_first(positions)[i] as int] <= last
            },
            _ => true,
        }
    }

    /// The arrays inside that are taken from at positions of their own.
    pub open spec fn taken_parts(self) -> Seq<ArrayModel> {
        if self.inside is FixedSizeList || self.inside.has_members() || self.inside is RunEndEncoded {
            self.parts
        } else {
            Seq::empty()
        }
    }

    /// The positions at which the array inside at `k` is taken from.
    pub open spec fn inner_positions(self, positions: Seq<Option<usize>>, k: int) -> Seq<
        Option<usize>,
    > {
        match self.inside {
            TypeModel::FixedSizeList(_, size) => expanded(positions, size as nat),
            TypeModel::DenseUnion(_) => known(self.taken_places(positions, k)),
            TypeModel::RunEndEncoded(..) => if k == 1 {
                known(runs_taken(self.places, or_first(positions)))
            } else {
                Seq::empty()
            },
            _ => positions,
        }
    }

    /// The last number of positions inside.
    pub open spec fn inner_last(self, last: usize) -> usize {
        match self.inside {
            TypeModel::FixedSizeList(..) | TypeModel::RunEndEncoded(..) => 0xffff_ffff,
            TypeModel::DenseUnion(_) => 0x7fff_ffff,
            _ => last,
        }
    }
}

/// Arrow can take the values at these positions, which are numbers up to `last`.
/// Where a position is missing, a union or runs give their first value, so that
/// they need one. `sure` says that Arrow does so without an error.
pub open spec fn can_take_at(
    a: ArrayModel,
    positions: Seq<Option<usize>>,
    last: usize,
    sure: bool,
) -> bool
    decreases a,
{
    &&& nulls_fit(a.inside, 0)
    &&& positions.len() > 0 ==> {
        &&& a.takes_itself(positions, last, sure)
        &&& a.inside.is_list() ==> can_copy(
            a.parts[0],
            a.listed(positions),
            None,
            a.list_room(positions.len()) as usize,
        )
        &&& a.inside is DenseUnion ==> forall|k: int|
            0 <= k < a.parts.len() ==> (#[trigger] a.taken_places(positions, k)).len() <= i32::MAX
        &&& forall|k: int|
            0 <= k < a.taken_parts().len() ==> can_take_at(
                #[trigger] a.taken_parts()[k],
                a.inner_positions(positions, k),
                a.inner_last(last),
                sure,
            )
    }
}

/// Arrow can take the values at these positions without coming to the end of its
/// numbers.
pub open spec fn can_take(a: ArrayModel, positions: Seq<Option<u32>>) -> bool {
    can_take_at(a, widened(positions), 0xffff_ffff, false)
}

/// Arrow succeeds in taking the values at these positions: strings do not outgrow
/// their offsets either.
pub open spec fn can_count(a: ArrayModel, positions: Seq<Option<u32>>) -> bool {
    can_take_at(a, widened(positions), 0xffff_ffff, true)
}

/// What Arrow takes without an error it can take.
proof fn lemma_sure_is_possible(a: ArrayModel, positions: Seq<Option<usize>>, last: usize)
    requires
        can_take_at(a, positions, last, true),
    ensures
        can_take_at(a, positions, last, false),
    decreases a,
{
    if positions.len() > 0 {
        assert forall|k: int| 0 <= k < a.taken_parts().len() implies can_take_at(
            #[trigger] a.taken_parts()[k],
            a.inner_positions(positions, k),
            a.inner_last(last),
            false,
        ) by {
            assert(decreases_to!(a => a.parts[k]));
            lemma_sure_is_possible(
                a.taken_parts()[k],
                a.inner_positions(positions, k),
                a.inner_last(last),
            );
        }
    }
}

/// Where Arrow succeeds in taking the values at positions, it can take them.
pub proof fn law_success_needs_no_more(a: ArrayModel, positions: Seq<Option<u32>>)
    requires
        can_count(a, positions),
    ensures
        can_take(a, positions),
{
    lemma_sure_is_possible(a, widened(positions), 0xffff_ffff);
}

/// Positions as numbers that positions in any array fit.
fn widen(positions: &Vec<Option<u32>>) -> (r: Vec<Option<usize>>)
    ensures
        r@ == widened(positions@),
{
    let n: usize = positions.len();
    let mut out: Vec<Option<usize>> = Vec::with_capacity(n);
    for i in 0..n
        invariant
            n == positions.len(),
            out.len() == i,
            forall|j: int| 0 <= j < i ==> #[trigger] out@[j] == widened(positions@)[j],
    {
        let position: Option<usize> = match positions[i] {
            Some(p) => Some(p as usize),
            None => None,
        };
        out.push(position);
    }
    assert(out@ =~= widened(positions@));
    out
}

/// Whether positions are positions of `n` values.
fn do_positions_lie_in(positions: &Vec<Option<usize>>, n: usize) -> (r: bool)
    ensures
        r == are_in(positions@, n as nat),
{
    let count: usize = positions.len();
    for i in 0..count
        invariant
            count == positions.len(),
            forall|j: int|
                0 <= j < i ==> (#[trigger] positions@[j] matches Some(p) ==> p < n),
    {
        if let Some(p) = positions[i] {
            if p >= n {
                assert(positions@[i as int] == Some(p));
                return false;
            }
        }
    }
    true
}

/// Positions, where the first value stands for those that are missing.
fn fill_with_first(positions: &Vec<Option<usize>>) -> (r: Vec<usize>)
    ensures
        r@ == or_first(positions@),
{
    let n: usize = positions.len();
    let mut out: Vec<usize> = Vec::with_capacity(n);
    for i in 0..n
        invariant
            n == positions.len(),
            out.len() == i,
            forall|j: int| 0 <= j < i ==> #[trigger] out@[j] == or_first(positions@)[j],
    {
        let position: usize = match positions[i] {
            Some(p) => p,
            None => 0,
        };
        out.push(position);
    }
    assert(out@ =~= or_first(positions@));
    out
}

/// Positions, none of which is missing.
fn as_known(places: &Vec<usize>) -> (r: Vec<Option<usize>>)
    ensures
        r@ == known(places@),
{
    let n: usize = places.len();
    let mut out: Vec<Option<usize>> = Vec::with_capacity(n);
    for i in 0..n
        invariant
            n == places.len(),
            out.len() == i,
            forall|j: int| 0 <= j < i ==> #[trigger] out@[j] == known(places@)[j],
    {
        out.push(Some(places[i]));
    }
    assert(out@ =~= known(places@));
    out
}

/// Positions once more.
fn copy_of(positions: &Vec<Option<usize>>) -> (r: Vec<Option<usize>>)
    ensures
        r@ == positions@,
{
    let n: usize = positions.len();
    let mut out: Vec<Option<usize>> = Vec::with_capacity(n);
    for i in 0..n
        invariant
            n == positions.len(),
            out@ == positions@.take(i as int),
    {
        out.push(positions[i]);
        assert(positions@.take(i + 1) =~= positions@.take(i as int).push(positions@[i as int]));
    }
    assert(positions@.take(n as int) =~= positions@);
    out
}

/// The ranges of values that lists at these positions hold.
fn listed_by(column: &Column, d: &DataType, positions: &Vec<Option<usize>>) -> (r: Vec<
    (usize, usize),
>)
    requires
        type_model(*d) == column_model(*column).inside,
        type_model(*d).is_list(),
        are_in(positions@, column_model(*column).cells.len()),
    ensures
        r@ == column_model(*column).listed(positions@),
{
    let ghost a = column_model(*column);
    let spans: Vec<(usize, usize)> = spans_of(column, d);
    let mask: Option<Vec<bool>> = mask_of(column);
    let n: usize = positions.len();
    let mut out: Vec<(usize, usize)> = Vec::with_capacity(n);
    assert(positions@.take(0) =~= Seq::<Option<usize>>::empty());
    for i in 0..n
        invariant
            n == positions.len(),
            are_in(positions@, a.cells.len()),
            spans.len() == a.cells.len(),
            match mask {
                Some(mask) => a.mask == Some(mask@) && mask.len() == a.cells.len(),
                None => a.mask is None,
            },
            out@ == present(positions@.take(i as int), a.mask),
            lie_in(out@, a.cells.len()),
    {
        assert(positions@.take(i + 1).drop_last() =~= positions@.take(i as int));
        assert(positions@.take(i + 1).last() == positions@[i as int]);
        if let Some(p) = positions[i] {
            assert(positions@[i as int] == Some(p));
            let valid: bool = match &mask {
                Some(mask) => mask[p],
                None => true,
            };
            if valid {
                out.push((p, p + 1));
            }
        }
    }
    assert(positions@.take(n as int) =~= positions@);
    held_by(&spans, &out)
}

/// Positions inside values that hold `size` values each.
fn expand(positions: &Vec<Option<usize>>, size: usize) -> (r: Vec<Option<usize>>)
    requires
        are_reached(positions@, size as nat),
    ensures
        r@ == expanded(positions@, size as nat),
{
    let count: usize = positions.len();
    let mut out: Vec<Option<usize>> = Vec::new();
    assert(positions@.take(0) =~= Seq::<Option<usize>>::empty());
    for i in 0..count
        invariant
            count == positions.len(),
            are_reached(positions@, size as nat),
            out@ == expanded(positions@.take(i as int), size as nat),
    {
        assert(positions@.take(i + 1).drop_last() =~= positions@.take(i as int));
        let position: Option<usize> = positions[i];
        assert(positions@[i as int] == position);
        let ghost before = out@;
        let ghost own = Seq::new(
            size as nat,
            |j: int|
                match position {
                    Some(p) => Some((p * size as nat + j) as usize),
                    None => None::<usize>,
                },
        );
        assert(before =~= before + own.take(0));
        for j in 0..size
            invariant
                position matches Some(p) ==> (p + 1) * size <= 0xffff_ffff,
                own == Seq::new(
                    size as nat,
                    |j: int|
                        match position {
                            Some(p) => Some((p * size as nat + j) as usize),
                            None => None::<usize>,
                        },
                ),
                out@ == before + own.take(j as int),
        {
            let inner: Option<usize> = match position {
                Some(p) => {
                    assert(0 <= p * size && p * size + size == (p + 1) * size) by (nonlinear_arith)
                        requires
                            0 <= p,
                            0 <= size,
                    ;
                    Some(p * size + j)
                },
                None => None,
            };
            out.push(inner);
            assert(own.take(j + 1) =~= own.take(j as int).push(inner));
            assert(out@ =~= before + own.take(j + 1));
        }
        assert(own.take(size as int) =~= own);
    }
    assert(positions@.take(count as int) =~= positions@);
    out
}

/// There are `size` times as many positions inside, and they are positions of `size`
/// times as many values.
proof fn lemma_expanded(positions: Seq<Option<usize>>, size: nat, n: nat)
    requires
        are_in(positions, n),
        n * size <= usize::MAX,
    ensures
        expanded(positions, size).len() == positions.len() * size,
        are_in(expanded(positions, size), n * size),
    decreases positions.len(),
{
    if positions.len() == 0 {
        assert(positions.len() * size == 0) by (nonlinear_arith)
            requires
                positions.len() == 0,
        ;
    } else {
        let front = positions.drop_last();
        let last = positions.last();
        assert forall|i: int| 0 <= i < front.len() implies (#[trigger] front[i] matches Some(p)
            ==> p < n) by {
            assert(front[i] == positions[i]);
        }
        assert(positions[positions.len() - 1] == last);
        lemma_expanded(front, size, n);
        assert(front.len() * size + size == positions.len() * size) by (nonlinear_arith)
            requires
                positions.len() == front.len() + 1,
        ;
        let all = expanded(positions, size);
        assert forall|i: int| 0 <= i < all.len() implies (#[trigger] all[i] matches Some(p) ==> p < n
            * size) by {
            if i < expanded(front, size).len() {
                assert(all[i] == expanded(front, size)[i]);
            } else if let Some(p) = last {
                let j = i - expanded(front, size).len();
                assert(all[i] == Some((p * size + j) as usize));
                assert(0 <= p * size && p * size + size <= n * size) by (nonlinear_arith)
                    requires
                        0 <= p < n,
                ;
            } else {
                assert(all[i] == None::<usize>);
            }
        }
    }
}

/// Whether the values inside lists of fixed size can be taken, where they have
/// nothing inside themselves: their positions need not be written out. Without an
/// answer, they have to be.
fn is_leaf_taken(
    column: &Column,
    part: &Column,
    positions: &Vec<Option<usize>>,
    size: usize,
    last: usize,
) -> (r: Option<bool>)
    requires
        are_in(positions@, column_model(*column).cells.len()),
        positions.len() * size <= 0xffff_ffff,
        size <= 0x7fff_ffff,
    ensures
        r matches Some(taken) ==> taken == can_take_at(
            column_model(*part),
            expanded(positions@, size as nat),
            last,
            false,
        ),
{
    let ghost inner = expanded(positions@, size as nat);
    let d: DataType = type_of(part);
    let leaf: LeafType = match parts_of_type(&d) {
        TypeParts::Leaf(leaf) => leaf,
        _ => {
            return None;
        },
    };
    let len: usize = len_of(column);
    let inside: u128 = long_product(size as u32, len as u64);
    if (len_of(part) as u128) < inside {
        return None;
    }
    assert(size * len == len * size) by (nonlinear_arith);
    proof {
        lemma_expanded(positions@, size as nat, len as nat);
        assert forall|i: int| 0 <= i < inner.len() implies (#[trigger] inner[i] matches Some(p)
            ==> p < column_model(*part).cells.len()) by {
            assert(inner[i] matches Some(p) ==> p < len * size);
        }
        assert(are_in(inner, column_model(*part).cells.len()));
    }
    if !can_hold_nulls(&d, 0) {
        return Some(false);
    }
    let count: usize = positions.len() * size;
    if count == 0 {
        return Some(true);
    }
    match leaf {
        LeafType::FixedSizeBinary(n) => {
            if n <= 0 {
                assert(n * inner.len() <= 0) by (nonlinear_arith)
                    requires
                        n <= 0,
                        inner.len() >= 0,
                ;
                return Some(true);
            }
            Some(
                long_product(n as u32, count as u64) <= 0x7fff_ffff && are_whole(part, n),
            )
        },
        _ => Some(true),
    }
}

/// The runs of values, each run once where values of it follow each other.
fn runs_taken_of(column: &Column, ends: &Field, at: &Vec<usize>) -> (r: Vec<usize>)
    requires
        column_model(*column).inside matches TypeModel::RunEndEncoded(model, _) && *model
            == field_model(*ends),
        field_model(*ends).inside.last_run_end() is Some,
        forall|i: int| 0 <= i < at.len() ==> #[trigger] at@[i] < column_model(*column).cells.len(),
    ensures
        r@ == runs_taken(column_model(*column).places, at@),
{
    let ghost a = column_model(*column);
    let n: usize = at.len();
    let mut out: Vec<usize> = Vec::new();
    let mut before: Option<usize> = None;
    assert(at@.take(0) =~= Seq::<usize>::empty());
    for i in 0..n
        invariant
            n == at.len(),
            a == column_model(*column),
            a.inside matches TypeModel::RunEndEncoded(model, _) && *model == field_model(*ends),
            field_model(*ends).inside.last_run_end() is Some,
            forall|j: int| 0 <= j < at.len() ==> #[trigger] at@[j] < a.cells.len(),
            before == (if i > 0 {
                Some(a.places[at@[i - 1] as int])
            } else {
                None
            }),
            out@ == runs_taken(a.places, at@.take(i as int)),
    {
        let ghost after = at@.take(i + 1);
        assert(after.drop_last() =~= at@.take(i as int));
        assert(i > 0 ==> after[after.len() - 2] == at@[i - 1]);
        assert(at@[i as int] < a.cells.len());
        let run: usize = run_of(column, ends, at[i]);
        let again: bool = match before {
            Some(other) => other == run,
            None => false,
        };
        if !again {
            out.push(run);
        }
        before = Some(run);
    }
    assert(at@.take(n as int) =~= at@);
    out
}

/// Whether a child of a struct goes with its field.
fn fits_field(
    column: &Column,
    field: &Field,
    part: &Column,
    positions: &Vec<Option<usize>>,
) -> (r: bool)
    requires
        are_in(positions@, column_model(*column).cells.len()),
    ensures
        r == is_member(
            column_model(*column),
            field_model(*field),
            column_model(*part),
            positions@,
        ),
{
    let ghost a = column_model(*column);
    let ghost cells = column_model(*part).cells;
    let len: usize = len_of(column);
    if !is_of_type(part, field) || len_of(part) != len {
        return false;
    }
    if field.is_nullable() {
        return true;
    }
    let valid: Vec<bool> = match logical_mask_of(part) {
        None => {
            assert forall|i: int| 0 <= i < positions.len() implies (#[trigger] positions@[i] matches
                Some(p) ==> cells[p as int] is Some) by {
                if let Some(p) = positions@[i] {
                    assert(cells[p as int] is Some);
                }
            }
            return true;
        },
        Some(valid) => valid,
    };
    let mask: Option<Vec<bool>> = mask_of(column);
    let n: usize = positions.len();
    for i in 0..n
        invariant
            n == positions.len(),
            len == cells.len(),
            len == a.cells.len(),
            a == column_model(*column),
            cells == column_model(*part).cells,
            are_in(positions@, a.cells.len()),
            !field_model(*field).nullable,
            valid@ == cells.map_values(|cell: Option<int>| cell is Some),
            match mask {
                Some(mask) => a.mask == Some(mask@) && mask.len() == len,
                None => a.mask is None,
            },
            forall|j: int|
                0 <= j < i ==> (#[trigger] positions@[j] matches Some(p) ==> cells[p as int] is Some
                    || !is_valid(a.mask, p)),
    {
        if let Some(p) = positions[i] {
            assert(positions@[i as int] == Some(p));
            assert(valid@[p as int] == (cells[p as int] is Some));
            let masked: bool = match &mask {
                Some(mask) => !mask[p],
                None => false,
            };
            if !valid[p] && !masked {
                return false;
            }
        }
    }
    true
}

/// Whether the children of a struct go with its fields.
fn do_fields_fit(
    column: &Column,
    fields: &Vec<&Field>,
    positions: &Vec<Option<usize>>,
) -> (r: bool)
    requires
        column_model(*column).inside == TypeModel::Struct(
            fields@.map_values(|f: &Field| field_model(*f)),
        ),
        are_in(positions@, column_model(*column).cells.len()),
    ensures
        r == column_model(*column).takes_itself(positions@, 0, false),
{
    let ghost a = column_model(*column);
    let ghost models = a.inside->Struct_0;
    let parts: Vec<Column> = parts_of(column);
    let n: usize = fields.len();
    assert(column_models(parts@).len() == parts.len());
    if parts.len() != n {
        return false;
    }
    for k in 0..n
        invariant
            n == fields.len(),
            n == parts.len(),
            a == column_model(*column),
            a.inside == TypeModel::Struct(models),
            models == fields@.map_values(|f: &Field| field_model(*f)),
            column_models(parts@) == a.parts,
            are_in(positions@, a.cells.len()),
            forall|j: int|
                0 <= j < k ==> is_member(a, models[j], #[trigger] a.parts[j], positions@),
    {
        assert(column_models(parts@)[k as int] == column_model(parts@[k as int]));
        assert(models[k as int] == field_model(*fields@[k as int]));
        if !fits_field(column, fields[k], &parts[k], positions) {
            assert(!is_member(a, models[k as int], a.parts[k as int], positions@));
            return false;
        }
    }
    true
}

/// Whether the buffers of values of a size that Arrow takes in one piece are whole.
fn are_whole(column: &Column, size: i32) -> (r: bool)
    requires
        size > 0,
    ensures
        r == (is_chunk(size) ==> forall|b: int|
            0 <= b < column_model(*column).buffers.len() ==> #[trigger] column_model(
                *column,
            ).buffers[b] % (size as usize) == 0),
{
    if size != 1 && size != 2 && size != 4 && size != 8 && size != 16 {
        return true;
    }
    let ghost a = column_model(*column);
    let chunk: usize = size as usize;
    let buffers: Vec<usize> = buffers_of(column);
    let m: usize = buffers.len();
    for b in 0..m
        invariant
            m == buffers.len(),
            buffers@ == a.buffers,
            a == column_model(*column),
            is_chunk(size),
            chunk == size as usize,
            chunk > 0,
            forall|c: int| 0 <= c < b ==> #[trigger] a.buffers[c] % chunk == 0,
    {
        if buffers[b] % chunk != 0 {
            assert(a.buffers[b as int] % chunk != 0);
            return false;
        }
    }
    true
}

/// Whether positions inside values that hold `size` values each are numbers of 32
/// bits.
fn do_positions_reach(positions: &Vec<Option<usize>>, size: u32) -> (r: bool)
    ensures
        r == are_reached(positions@, size as nat),
{
    let n: usize = positions.len();
    for i in 0..n
        invariant
            n == positions.len(),
            forall|j: int|
                0 <= j < i ==> (#[trigger] positions@[j] matches Some(p) ==> (p + 1) * size
                    <= u32::MAX),
    {
        if let Some(p) = positions[i] {
            assert(positions@[i as int] == Some(p));
            let start: u128 = long_product(size, p as u64);
            assert(start + size == (p + 1) * size) by (nonlinear_arith)
                requires
                    start == size * p,
            ;
            if start > 0xffff_ffff || start + size as u128 > 0xffff_ffff {
                return false;
            }
        }
    }
    true
}

/// The room that Arrow sets aside for the values of lists, if it can be counted.
fn list_room_of(column: &Column, part: &Column, count: usize) -> (r: Option<usize>)
    requires
        column_model(*column).parts.len() == 1,
        column_model(*part) == column_model(*column).parts[0],
    ensures
        match r {
            Some(room) => room == column_model(*column).list_room(count as nat) && room
                <= usize::MAX / 128,
            None => column_model(*column).list_room(count as nat) > usize::MAX / 128,
        },
{
    let len: usize = len_of(column);
    if len == 0 {
        return Some(0);
    }
    let each: usize = len_of(part) / len;
    assert(each * count <= 0xffff_ffff_ffff_ffff * 0xffff_ffff_ffff_ffff) by (nonlinear_arith)
        requires
            each <= 0xffff_ffff_ffff_ffff,
            count <= 0xffff_ffff_ffff_ffff,
    ;
    let room: u128 = each as u128 * count as u128;
    if room > (usize::MAX / 128) as u128 {
        None
    } else {
        Some(room as usize)
    }
}

/// Whether lists can be taken from, with the values that they hold.
fn are_lists_taken(column: &Column, d: &DataType, positions: &Vec<Option<usize>>) -> (r: bool)
    requires
        type_model(*d) == column_model(*column).inside,
        type_model(*d).is_list(),
        are_in(positions@, column_model(*column).cells.len()),
    ensures
        r == (column_model(*column).takes_itself(positions@, 0, false) && can_copy(
            column_model(*column).parts[0],
            column_model(*column).listed(positions@),
            None,
            column_model(*column).list_room(positions@.len()) as usize,
        )),
{
    let parts: Vec<Column> = parts_of(column);
    assert(column_models(parts@).len() == parts.len());
    if parts.len() != 1 {
        return false;
    }
    assert(column_models(parts@)[0] == column_model(parts@[0]));
    let room: usize = match list_room_of(column, &parts[0], positions.len()) {
        Some(room) => room,
        None => {
            return false;
        },
    };
    let ranges: Vec<(usize, usize)> = listed_by(column, d, positions);
    match type_last_offset(d) {
        Some(offset) => add_up(&ranges) <= offset && is_copyable(&parts[0], &ranges, None, room),
        None => false,
    }
}

/// Whether runs can be taken from: their values have positions up to `last`.
fn are_runs_taken(
    column: &Column,
    ends: &Field,
    positions: &Vec<Option<usize>>,
    last: usize,
) -> (r: bool)
    requires
        column_model(*column).inside matches TypeModel::RunEndEncoded(model, _) && *model
            == field_model(*ends),
        are_in(positions@, column_model(*column).cells.len()),
    ensures
        r == column_model(*column).takes_itself(positions@, last, false),
{
    let ghost a = column_model(*column);
    let parts: Vec<Column> = parts_of(column);
    assert(column_models(parts@).len() == parts.len());
    let n: usize = positions.len();
    match field_last_run_end(ends) {
        Some(end) => {
            if parts.len() != 2 || len_of(column) == 0 || n as u64 > end {
                return false;
            }
        },
        None => {
            return false;
        },
    }
    let at: Vec<usize> = fill_with_first(positions);
    for i in 0..n
        invariant
            n == positions.len(),
            a == column_model(*column),
            a.inside matches TypeModel::RunEndEncoded(model, _) && *model == field_model(*ends),
            field_model(*ends).inside.last_run_end() is Some,
            are_in(positions@, a.cells.len()),
            a.cells.len() > 0,
            at@ == or_first(positions@),
            forall|j: int| 0 <= j < i ==> a.places[#[trigger] or_first(positions@)[j] as int] <= last,
    {
        assert(at@[i as int] == or_first(positions@)[i as int]);
        assert(positions@[i as int] matches Some(p) ==> p < a.cells.len());
        if run_of(column, ends, at[i]) > last {
            assert(a.places[or_first(positions@)[i as int] as int] > last);
            return false;
        }
    }
    true
}

/// Whether the array itself can be taken from, and for lists also the values that
/// they hold.
fn does_take_itself(
    column: &Column,
    d: &DataType,
    positions: &Vec<Option<usize>>,
    last: usize,
) -> (r: bool)
    requires
        type_model(*d) == column_model(*column).inside,
    ensures
        r == (column_model(*column).takes_itself(positions@, last, false) && (column_model(
            *column,
        ).inside.is_list() ==> can_copy(
            column_model(*column).parts[0],
            column_model(*column).listed(positions@),
            None,
            column_model(*column).list_room(positions@.len()) as usize,
        ))),
{
    let ghost a = column_model(*column);
    let len: usize = len_of(column);
    let count: usize = positions.len();
    if !do_positions_lie_in(positions, len) {
        return false;
    }
    match parts_of_type(d) {
        TypeParts::Leaf(LeafType::FixedSizeBinary(n)) => {
            if n <= 0 {
                assert(n * count <= 0) by (nonlinear_arith)
                    requires
                        n <= 0,
                        count >= 0,
                ;
                return true;
            }
            long_product(n as u32, count as u64) <= 0x7fff_ffff && are_whole(column, n)
        },
        TypeParts::List(_) | TypeParts::LargeList(_) | TypeParts::Entries(_) => are_lists_taken(
            column,
            d,
            positions,
        ),
        TypeParts::FixedSizeList(_, n) => {
            let parts: Vec<Column> = parts_of(column);
            assert(column_models(parts@).len() == parts.len());
            parts.len() == 1 && n >= 0 && long_product(n as u32, count as u64) <= 0xffff_ffff
                && do_positions_reach(positions, n as u32)
        },
        TypeParts::Struct(fields) => do_fields_fit(column, &fields, positions),
        TypeParts::SparseUnion(_) => len > 0,
        TypeParts::DenseUnion(members) => {
            let parts: Vec<Column> = parts_of(column);
            assert(column_models(parts@).len() == parts.len());
            assert(a.inside->DenseUnion_0.len() == members.len());
            parts.len() == members.len() && len > 0
        },
        TypeParts::RunEndEncoded(ends, _) => are_runs_taken(column, ends, positions, last),
        _ => true,
    }
}

/// The arrays inside that are taken from at positions of their own.
fn taken_parts_of(column: &Column, d: &DataType) -> (r: Vec<Column>)
    requires
        type_model(*d) == column_model(*column).inside,
    ensures
        column_models(r@) == column_model(*column).taken_parts(),
{
    match parts_of_type(d) {
        TypeParts::FixedSizeList(..)
        | TypeParts::Struct(_)
        | TypeParts::SparseUnion(_)
        | TypeParts::DenseUnion(_)
        | TypeParts::RunEndEncoded(..) => parts_of(column),
        _ => {
            let none: Vec<Column> = Vec::new();
            assert(column_models(none@) =~= Seq::<ArrayModel>::empty());
            none
        },
    }
}

/// The positions at which the array inside at `k` is taken from. Those in a member
/// of a dense union are to be counted with 31 bits.
fn inner_positions_of(
    column: &Column,
    d: &DataType,
    k: usize,
    positions: &Vec<Option<usize>>,
    last: usize,
) -> (r: Option<Vec<Option<usize>>>)
    requires
        type_model(*d) == column_model(*column).inside,
        k < column_model(*column).taken_parts().len(),
        column_model(*column).takes_itself(positions@, last, false),
    ensures
        match r {
            Some(inner) => inner@ == column_model(*column).inner_positions(positions@, k as int)
                && (column_model(*column).inside is DenseUnion ==> column_model(
                *column,
            ).taken_places(positions@, k as int).len() <= i32::MAX),
            None => column_model(*column).inside is DenseUnion && column_model(
                *column,
            ).taken_places(positions@, k as int).len() > i32::MAX,
        },
{
    let ghost a = column_model(*column);
    match parts_of_type(d) {
        TypeParts::FixedSizeList(_, size) => {
            Some(expand(positions, size as usize))
        },
        TypeParts::DenseUnion(members) => {
            let ghost models = a.inside->DenseUnion_0;
            assert(models[k as int] == (members@[k as int].0, field_model(*members@[k as int].1)));
            let ids: Vec<i8> = union_ids(column);
            let places: Vec<usize> = union_places(column);
            let at: Vec<usize> = fill_with_first(positions);
            assert forall|i: int| 0 <= i < at.len() implies #[trigger] at@[i] < ids.len() by {
                assert(positions@[i] matches Some(p) ==> p < a.cells.len());
            }
            let own: Vec<usize> = member_places(&ids, &places, &at, members[k].0);
            assert(own@ == a.taken_places(positions@, k as int));
            if own.len() > 0x7fff_ffff {
                return None;
            }
            Some(as_known(&own))
        },
        TypeParts::RunEndEncoded(ends, _) => {
            if k != 1 {
                let none: Vec<Option<usize>> = Vec::new();
                assert(none@ =~= a.inner_positions(positions@, k as int));
                return Some(none);
            }
            let at: Vec<usize> = fill_with_first(positions);
            assert forall|i: int| 0 <= i < at.len() implies #[trigger] at@[i] < a.cells.len() by {
                assert(positions@[i] matches Some(p) ==> p < a.cells.len());
            }
            Some(as_known(&runs_taken_of(column, ends, &at)))
        },
        _ => Some(copy_of(positions)),
    }
}

/// Whether Arrow can take the values at these positions, which are numbers up to
/// `last`.
fn is_taken(column: &Column, positions: &Vec<Option<usize>>, last: usize) -> (r: bool)
    ensures
        r == can_take_at(column_model(*column), positions@, last, false),
    decreases column_model(*column),
{
    let ghost a = column_model(*column);
    let d: DataType = type_of(column);
    if !can_hold_nulls(&d, 0) {
        return false;
    }
    if positions.len() == 0 {
        return true;
    }
    if !does_take_itself(column, &d, positions, last) {
        return false;
    }
    let below: usize = match parts_of_type(&d) {
        TypeParts::FixedSizeList(..) | TypeParts::RunEndEncoded(..) => 0xffff_ffff,
        TypeParts::DenseUnion(_) => 0x7fff_ffff,
        _ => last,
    };
    let parts: Vec<Column> = taken_parts_of(column, &d);
    let n: usize = parts.len();
    assert(column_models(parts@).len() == n);
    if let TypeParts::FixedSizeList(_, size) = parts_of_type(&d) {
        let count: usize = positions.len();
        assert(count * (size as usize) <= 0xffff_ffff) by (nonlinear_arith)
            requires
                size * count <= 0xffff_ffff,
                size >= 0,
        ;
        assert(column_models(parts@)[0] == column_model(parts@[0]));
        if let Some(taken) = is_leaf_taken(column, &parts[0], positions, size as usize, below) {
            let ghost inner = a.inner_positions(positions@, 0);
            assert(taken == can_take_at(a.taken_parts()[0], inner, a.inner_last(last), false));
            return taken;
        }
    }
    for k in 0..n
        invariant
            n == parts.len(),
            a == column_model(*column),
            type_model(d) == a.inside,
            column_models(parts@) == a.taken_parts(),
            below == a.inner_last(last),
            positions.len() > 0,
            a.takes_itself(positions@, last, false),
            forall|j: int|
                0 <= j < k && a.inside is DenseUnion ==> (#[trigger] a.taken_places(
                    positions@,
                    j,
                )).len() <= i32::MAX,
            forall|j: int|
                0 <= j < k ==> can_take_at(
                    #[trigger] a.taken_parts()[j],
                    a.inner_positions(positions@, j),
                    below,
                    false,
                ),
    {
        assert(column_models(parts@).len() == n);
        assert(column_models(parts@)[k as int] == column_model(parts@[k as int]));
        assert(a.taken_parts()[k as int] == a.parts[k as int]);
        assert(decreases_to!(a => a.parts[k as int]));
        let inner: Vec<Option<usize>> = match inner_positions_of(column, &d, k, positions, last) {
            Some(inner) => inner,
            None => {
                assert(a.taken_places(positions@, k as int).len() > i32::MAX);
                return false;
            },
        };
        if !is_taken(&parts[k], &inner, below) {
            assert(!can_take_at(
                a.taken_parts()[k as int],
                a.inner_positions(positions@, k as int),
                below,
                false,
            ));
            return false;
        }
    }
    assert(column_models(parts@).len() == n);
    true
}

/// Whether Arrow can take the values at these positions.
pub fn is_takeable(column: &Column, positions: &Vec<Option<u32>>) -> (r: bool)
    ensures
        r == can_take(column_model(*column), positions@),
{
    is_taken(column, &widen(positions), 0xffff_ffff)
}

} // verus!
