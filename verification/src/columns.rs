//! Columns of plain values that steer the merge.

use vstd::prelude::*;

verus! {

/// A column of unsigned 64-bit values, some of which may be missing.
///
/// A missing value still has a slot in `values`; what it holds is whatever the
/// producer of the column left there.
#[derive(Debug, PartialEq, Eq)]
pub struct UInt64Column {
    /// One value per row.
    pub values: Vec<u64>,
    /// For each row, whether its value is there.
    pub valid: Vec<bool>,
}

/// A column of unsigned 64-bit values: the slots, and which of them count.
pub struct UInt64Model {
    pub values: Seq<u64>,
    pub valid: Seq<bool>,
}

impl UInt64Model {
    /// The values, with those that are not there left out.
    pub open spec fn options(self) -> Seq<Option<u64>> {
        Seq::new(
            self.values.len(),
            |i: int|
                if self.valid[i] {
                    Some(self.values[i])
                } else {
                    None
                },
        )
    }
}

impl View for UInt64Column {
    type V = UInt64Model;

    open spec fn view(&self) -> UInt64Model {
        UInt64Model { values: self.values@, valid: self.valid@ }
    }
}

impl UInt64Column {
    /// Every row has a slot and a validity.
    pub open spec fn wf(&self) -> bool {
        self.values.len() == self.valid.len()
    }

    /// A column in which every value is there.
    pub fn from_values(values: Vec<u64>) -> (r: UInt64Column)
        ensures
            r.wf(),
            r@.values == values@,
            r@.options() == values@.map_values(|v: u64| Some(v)),
            r.values@ == values@,
            r.valid@ == Seq::new(values@.len(), |i: int| true),
    {
        let n: usize = values.len();
        let mut valid: Vec<bool> = Vec::new();
        for i in 0..n
            invariant
                valid.len() == i,
                forall|j: int| 0 <= j < i ==> valid@[j],
        {
            valid.push(true);
        }
        let r = UInt64Column { values, valid };
        assert(r@.options() =~= values@.map_values(|v: u64| Some(v)));
        r
    }

    /// A column of values that may be missing; a missing one leaves a zero.
    pub fn from_options(items: Vec<Option<u64>>) -> (r: UInt64Column)
        ensures
            r.wf(),
            r@.options() == items@,
            r.values@.len() == items@.len(),
            r.valid@.len() == items@.len(),
            forall|i: int|
                0 <= i < items@.len() ==> #[trigger] items@[i] == (if r.valid@[i] {
                    Some(r.values@[i])
                } else {
                    None
                }),
            forall|i: int| 0 <= i < items@.len() && !r.valid@[i] ==> #[trigger] r.values@[i] == 0,
    {
        let n: usize = items.len();
        let mut values: Vec<u64> = Vec::new();
        let mut valid: Vec<bool> = Vec::new();
        for i in 0..n
            invariant
                n == items.len(),
                values.len() == i,
                valid.len() == i,
                forall|j: int| 0 <= j < i && !valid@[j] ==> #[trigger] values@[j] == 0,
                forall|j: int|
                    0 <= j < i ==> items@[j] == (if #[trigger] valid@[j] {
                        Some(values@[j])
                    } else {
                        None
                    }),
        {
            match items[i] {
                Some(v) => {
                    values.push(v);
                    valid.push(true);
                },
                None => {
                    values.push(0);
                    valid.push(false);
                },
            }
        }
        let r = UInt64Column { values, valid };
        assert(r@.options() =~= items@) by {
            assert forall|j: int| 0 <= j < n implies r@.options()[j] == items@[j] by {
                assert(items@[j] == (if valid@[j] {
                    Some(values@[j])
                } else {
                    None
                }));
            }
        }
        r
    }

    /// The number of rows.
    pub fn len(&self) -> (r: usize)
        ensures
            r == self@.values.len(),
            r == self.values@.len(),
    {
        self.values.len()
    }

    /// Whether the value of row `i` is missing.
    pub fn is_null(&self, i: usize) -> (r: bool)
        requires
            self.wf(),
            i < self@.values.len(),
        ensures
            r == (self@.options()[i as int] is None),
            r == !self.valid@[i as int],
    {
        !self.valid[i]
    }

    /// The slot of row `i`.
    pub fn value(&self, i: usize) -> (r: u64)
        requires
            i < self@.values.len(),
        ensures
            r == self@.values[i as int],
            self@.options()[i as int] matches Some(v) ==> r == v,
            r == self.values@[i as int],
    {
        self.values[i]
    }
}

/// A value is there exactly where its slot counts, and is then what the slot holds,
/// whatever that is.
pub proof fn law_values_are_those_of_the_slots(column: UInt64Column, i: int)
    requires
        column.values@.len() == column.valid@.len(),
        0 <= i < column.values@.len(),
    ensures
        column@.options().len() == column.values@.len(),
        column.valid@[i] ==> column@.options()[i] == Some(column.values@[i]),
        !column.valid@[i] ==> column@.options()[i] is None,
{
}

} // verus!
