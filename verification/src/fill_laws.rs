//! What filling does, in terms of the addresses in the slots of columns.

use crate::arrow::{first_named, lemma_first_named, ArrayModel};
use crate::columns::UInt64Model;
use crate::error::{ControlColumn, MergeError};
use crate::filler::{
    addresses_of, filled_from, first_unread, last_position, lemma_cut_is_not_larger,
    lemma_last_position, lemma_read_position, position_of, positions_of, read_addresses,
    reading_error,
};
use crate::types::FieldModel;
use vstd::prelude::*;

verus! {

/// The first address that was not read, if there is one.
proof fn lemma_first_unread(read: Seq<u64>, rows: Seq<Option<u64>>)
    ensures
        match first_unread(read, rows) {
            None => forall|i: int|
                0 <= i < rows.len() ==> (#[trigger] rows[i] matches Some(a) ==> read.contains(a)),
            Some(a) => {
                &&& !read.contains(a)
                &&& exists|i: int|
                    {
                        &&& 0 <= i < rows.len()
                        &&& #[trigger] rows[i] == Some(a)
                        &&& forall|j: int|
                            0 <= j < i ==> (#[trigger] rows[j] matches Some(b) ==> read.contains(
                                b,
                            ))
                    }
            },
        },
    decreases rows.len(),
{
    if rows.len() > 0 {
        let front = rows.drop_last();
        lemma_first_unread(read, front);
        match first_unread(read, front) {
            Some(a) => {
                let i = choose|i: int|
                    {
                        &&& 0 <= i < front.len()
                        &&& #[trigger] front[i] == Some(a)
                        &&& forall|j: int|
                            0 <= j < i ==> (#[trigger] front[j] matches Some(b) ==> read.contains(
                                b,
                            ))
                    };
                assert(rows[i] == Some(a));
                assert forall|j: int| 0 <= j < i implies (#[trigger] rows[j] matches Some(b)
                    ==> read.contains(b)) by {
                    assert(front[j] == rows[j]);
                }
            },
            None => {
                assert forall|j: int| 0 <= j < front.len() implies (#[trigger] rows[j] matches Some(
                    b,
                ) ==> read.contains(b)) by {
                    assert(front[j] == rows[j]);
                }
                if let Some(a) = rows.last() {
                    lemma_last_position(read, a);
                    assert(rows[rows.len() - 1] == Some(a));
                }
            },
        }
    }
}

/// An address is reported as not read exactly if some row has it and it is not
/// among the addresses that were read, whatever address it is; of several, that of
/// the first such row.
pub proof fn law_only_unread_addresses_are_reported(read: Seq<u64>, rows: UInt64Model)
    requires
        rows.values.len() == rows.valid.len(),
    ensures
        first_unread(read, rows.options()) is None <==> forall|i: int|
            0 <= i < rows.values.len() && rows.valid[i] ==> read.contains(#[trigger] rows.values[i]),
        first_unread(read, rows.options()) matches Some(a) ==> {
            &&& !read.contains(a)
            &&& exists|i: int|
                {
                    &&& 0 <= i < rows.values.len()
                    &&& rows.valid[i]
                    &&& #[trigger] rows.values[i] == a
                    &&& forall|j: int|
                        0 <= j < i && rows.valid[j] ==> read.contains(#[trigger] rows.values[j])
                }
        },
{
    let options = rows.options();
    lemma_first_unread(read, options);
    match first_unread(read, options) {
        None => {
            assert forall|i: int| 0 <= i < rows.values.len() && rows.valid[i] implies read.contains(
                #[trigger] rows.values[i],
            ) by {
                assert(options[i] == Some(rows.values[i]));
            }
        },
        Some(a) => {
            let i = choose|i: int|
                {
                    &&& 0 <= i < options.len()
                    &&& #[trigger] options[i] == Some(a)
                    &&& forall|j: int|
                        0 <= j < i ==> (#[trigger] options[j] matches Some(b) ==> read.contains(b))
                };
            assert(rows.valid[i] && rows.values[i] == a);
            assert forall|j: int| 0 <= j < i && rows.valid[j] implies read.contains(
                #[trigger] rows.values[j],
            ) by {
                assert(options[j] == Some(rows.values[j]));
            }
        },
    }
}

/// What is wrong with the rows that were read: they have no `_rowaddr` column, or
/// it does not hold addresses, or one of the addresses asked for is not in it. If
/// every address asked for is in it, nothing is.
pub proof fn law_reading_fails_for_a_reason(
    fields: Seq<FieldModel>,
    columns: Seq<ArrayModel>,
    rows: UInt64Model,
    c: int,
    read: UInt64Model,
)
    requires
        rows.values.len() == rows.valid.len(),
    ensures
        (forall|i: int| 0 <= i < fields.len() ==> (#[trigger] fields[i]).name != "_rowaddr"@)
            <==> reading_error(fields, columns, rows.options()) == Some(
            MergeError::TakeMissingRowAddr,
        ),
        0 <= c < fields.len() && fields[c].name == "_rowaddr"@ && (forall|i: int|
            0 <= i < c ==> (#[trigger] fields[i]).name != "_rowaddr"@) ==> {
            &&& columns[c].uint64 is None ==> reading_error(fields, columns, rows.options())
                == Some(MergeError::WrongColumnType { column: ControlColumn::RowAddr })
            &&& columns[c].uint64 == Some(read) ==> {
                let error = reading_error(fields, columns, rows.options());
                &&& read_addresses(fields, columns) == read.values
                &&& error is None <==> forall|i: int|
                    0 <= i < rows.values.len() && rows.valid[i] ==> read.values.contains(
                        #[trigger] rows.values[i],
                    )
                &&& error is Some ==> {
                    &&& error->0 is RowNotTaken
                    &&& !read.values.contains(error->0->row_addr)
                    &&& exists|i: int|
                        {
                            &&& 0 <= i < rows.values.len()
                            &&& rows.valid[i]
                            &&& #[trigger] rows.values[i] == error->0->row_addr
                            &&& forall|j: int|
                                0 <= j < i && rows.valid[j] ==> read.values.contains(
                                    #[trigger] rows.values[j],
                                )
                        }
                }
            }
        },
{
    lemma_first_named(fields, "_rowaddr"@);
    law_only_unread_addresses_are_reported(read.values, rows);
    if first_named(fields, "_rowaddr"@) is Some {
        let f = first_named(fields, "_rowaddr"@)->0;
        assert(fields[f].name == "_rowaddr"@);
    }
}

/// Where every address was read, and no more rows than positions can count, a row
/// without an address has no position, and any other row the last position at
/// which its address was read.
pub proof fn law_rows_are_found_where_they_were_read(read: Seq<u64>, rows: UInt64Model)
    requires
        rows.values.len() == rows.valid.len(),
        forall|i: int|
            0 <= i < rows.values.len() && rows.valid[i] ==> read.contains(#[trigger] rows.values[i]),
        read.len() <= 0x1_0000_0000,
    ensures
        ({
            let positions = positions_of(read, rows.options());
            &&& positions.len() == rows.values.len()
            &&& forall|i: int|
                0 <= i < rows.values.len() && !rows.valid[i] ==> #[trigger] positions[i] is None
            &&& forall|i: int|
                0 <= i < rows.values.len() && rows.valid[i] ==> {
                    &&& #[trigger] positions[i] is Some
                    &&& positions[i]->0 < read.len()
                    &&& read[positions[i]->0 as int] == rows.values[i]
                    &&& forall|q: int| positions[i]->0 < q < read.len() ==> #[trigger] read[q] != rows.values[i]
                }
        }),
{
    let options = rows.options();
    let positions = positions_of(read, options);
    law_only_unread_addresses_are_reported(read, rows);
    assert forall|i: int| 0 <= i < rows.values.len() && rows.valid[i] implies {
        &&& #[trigger] positions[i] is Some
        &&& positions[i]->0 < read.len()
        &&& read[positions[i]->0 as int] == rows.values[i]
        &&& forall|q: int| positions[i]->0 < q < read.len() ==> #[trigger] read[q] != rows.values[i]
    } by {
        lemma_read_position(read, options, i);
        lemma_last_position(read, rows.values[i]);
        let p = last_position(read, rows.values[i])->0;
        lemma_cut_is_not_larger(p as nat);
    }
}

/// A filled column has as many cells as there are rows: NULL for each row without
/// an address, and for each other row the cell of the row that was read from its
/// address, the last such row if it was read more than once.
pub proof fn law_filled_cells_are_those_read(
    from: ArrayModel,
    read: Seq<u64>,
    rows: UInt64Model,
    to: ArrayModel,
)
    requires
        rows.values.len() == rows.valid.len(),
        filled_from(from, read, rows.options(), to),
        forall|i: int|
            0 <= i < rows.values.len() && rows.valid[i] ==> read.contains(#[trigger] rows.values[i]),
        read.len() <= 0x1_0000_0000,
    ensures
        to.data_type == from.data_type,
        to.cells.len() == rows.values.len(),
        forall|i: int|
            0 <= i < rows.values.len() && !rows.valid[i] ==> #[trigger] to.cells[i] is None,
        forall|i: int, p: int|
            0 <= i < rows.values.len() && rows.valid[i] && 0 <= p < read.len() && read[p]
                == rows.values[i] && (forall|q: int|
                p < q < read.len() ==> #[trigger] read[q] != rows.values[i])
                ==> #[trigger] to.cells[i] == #[trigger] from.cells[p],
{
    law_rows_are_found_where_they_were_read(read, rows);
    let positions = positions_of(read, rows.options());
    assert forall|i: int, p: int|
        0 <= i < rows.values.len() && rows.valid[i] && 0 <= p < read.len() && read[p]
            == rows.values[i] && (forall|q: int|
            p < q < read.len() ==> #[trigger] read[q]
                != rows.values[i]) implies #[trigger] to.cells[i] == #[trigger] from.cells[p] by {
        assert(positions[i] == position_of(read, rows.options()[i]));
        assert(positions[i] is Some);
        assert(positions[i]->0 as int == p);
    }
    assert forall|i: int| 0 <= i < rows.values.len() && !rows.valid[i] implies #[trigger] to.cells[i] is None by {
        assert(rows.options()[i] is None);
    }
}

/// The addresses to read are those in the slots that count, each once and in
/// order, and no others.
pub proof fn law_addresses_to_read_are_those_of_the_rows(rows: UInt64Model, addrs: Seq<u64>)
    requires
        rows.values.len() == rows.valid.len(),
        addresses_of(rows.options(), addrs),
    ensures
        forall|i: int, j: int| 0 <= i < j < addrs.len() ==> addrs[i] < addrs[j],
        forall|i: int|
            0 <= i < rows.values.len() && rows.valid[i] ==> addrs.contains(
                #[trigger] rows.values[i],
            ),
        forall|a: u64| #[trigger]
            addrs.contains(a) ==> exists|i: int|
                0 <= i < rows.values.len() && rows.valid[i] && #[trigger] rows.values[i] == a,
{
    let options = rows.options();
    assert forall|i: int| 0 <= i < rows.values.len() && rows.valid[i] implies addrs.contains(
        #[trigger] rows.values[i],
    ) by {
        assert(options[i] == Some(rows.values[i]));
        assert(options.contains(Some(rows.values[i])));
    }
    assert forall|a: u64| #[trigger] addrs.contains(a) implies exists|i: int|
        0 <= i < rows.values.len() && rows.valid[i] && #[trigger] rows.values[i] == a by {
        assert(options.contains(Some(a)));
        let i = choose|i: int| 0 <= i < options.len() && options[i] == Some(a);
        assert(rows.valid[i] && rows.values[i] == a);
    }
}

} // verus!
