//! What can go wrong while a merge is written, and what is said about it.

use crate::text::{
    append_decimal, append_quoted, decimal, law_decimal_stands_for_its_number, number_of,
    quoted_text,
};
use vstd::prelude::*;

verus! {

/// Name of the column that holds the address of the matched target row.
pub const ROW_ADDR: &'static str = "_rowaddr";

/// Name of the column that holds the id of the matched target row.
pub const ROW_ID: &'static str = "_rowid";

/// Name of the column that holds the code of the action to perform on a row.
pub const MERGE_ACTION_COLUMN: &'static str = "__action";

/// The columns of the input that steer the merge and are never written.
#[derive(Clone, Copy, Debug, PartialEq, Eq, Structural)]
pub enum ControlColumn {
    RowAddr,
    RowId,
    Action,
}

impl ControlColumn {
    /// The name of the column, as text.
    pub open spec fn text(self) -> Seq<char> {
        match self {
            ControlColumn::RowAddr => ROW_ADDR@,
            ControlColumn::RowId => ROW_ID@,
            ControlColumn::Action => MERGE_ACTION_COLUMN@,
        }
    }

    /// The Arrow array that the column has to be, as text.
    pub open spec fn array_text(self) -> Seq<char> {
        match self {
            ControlColumn::Action => "UInt8Array"@,
            _ => "UInt64Array"@,
        }
    }

    /// The name of the column.
    pub fn name(self) -> (r: &'static str)
        ensures
            r@ == self.text(),
    {
        match self {
            ControlColumn::RowAddr => ROW_ADDR,
            ControlColumn::RowId => ROW_ID,
            ControlColumn::Action => MERGE_ACTION_COLUMN,
        }
    }

    /// The name of the Arrow array type that the column has to be.
    pub fn array_name(self) -> (r: &'static str)
        ensures
            r@ == self.array_text(),
    {
        match self {
            ControlColumn::Action => "UInt8Array",
            _ => "UInt64Array",
        }
    }
}

/// How an error is reported to the query engine.
#[derive(Clone, Copy, Debug, PartialEq, Eq, Structural)]
pub enum ErrorKind {
    /// The plan or one of its inputs is not as it has to be.
    Internal,
    /// The data does not allow the merge.
    Execution,
    /// A component outside the merge refused its part.
    Outside,
}

/// Why a merge stops.
#[derive(Debug)]
pub enum MergeError {
    /// A second source row matches a target row that was already processed.
    DuplicateSourceRow { row_idx: usize },
    /// A source row matches a target row, and matches are to fail the merge.
    MatchedRow { row_idx: usize },
    /// The key of an inserted row could not be recorded.
    KeyRejected { reason: String },
    /// The id of a replaced row could not be captured.
    CaptureRefused { reason: String },
    /// A row carries a code that stands for no action.
    InvalidActionCode { code: u8 },
    /// The input has no column of this name.
    MissingInputColumn { column: ControlColumn },
    /// A control column is not of its array type.
    WrongColumnType { column: ControlColumn },
    /// The input provides no column of the dataset.
    NoDataColumns,
    /// The rows read back from the target come without their addresses.
    TakeMissingRowAddr,
    /// The rows read back from the target come without this column.
    TakeMissingColumn { name: String },
    /// A matched target row was not read back.
    RowNotTaken { row_addr: u64 },
    /// The plan node was not given exactly one child.
    ChildCount,
    /// The captured row ids do not fit the fragments that were written.
    RowIdCount { reason: String },
}

impl MergeError {
    /// How the error is reported.
    pub open spec fn kind_spec(self) -> ErrorKind {
        match self {
            MergeError::DuplicateSourceRow { .. } => ErrorKind::Execution,
            MergeError::MatchedRow { .. } => ErrorKind::Execution,
            MergeError::KeyRejected { .. } => ErrorKind::Outside,
            MergeError::CaptureRefused { .. } => ErrorKind::Outside,
            _ => ErrorKind::Internal,
        }
    }

    /// The message of the error. `detail` is what is known of the row: a
    /// description of its key for the two errors about matched rows, and why
    /// the code stands for no action. The others do not show it.
    pub open spec fn text(self, detail: Seq<char>) -> Seq<char> {
        match self {
            MergeError::DuplicateSourceRow { .. } => {
                "Ambiguous merge insert: multiple source rows match the same target row on ("@
                    + detail + ")"@
            },
            MergeError::MatchedRow { .. } => {
                "Merge insert failed: found matching row with key values: "@ + detail
            },
            MergeError::KeyRejected { reason } => reason@,
            MergeError::CaptureRefused { reason } => reason@,
            MergeError::InvalidActionCode { code } => {
                "Invalid action code "@ + decimal(code as nat) + ": "@ + detail
            },
            MergeError::MissingInputColumn { column } => {
                "Expected "@ + column.text() + " column in merge insert input"@
            },
            MergeError::WrongColumnType { column } => {
                "Expected "@ + column.array_text() + " for "@ + column.text() + " column"@
            },
            MergeError::NoDataColumns => "No data columns found in merge insert input"@,
            MergeError::TakeMissingRowAddr => "take result is missing the _rowaddr column"@,
            MergeError::TakeMissingColumn { name } => {
                "take result is missing the "@ + quoted_text(name@) + " column"@
            },
            MergeError::RowNotTaken { row_addr } => {
                "Row address "@ + decimal(row_addr as nat)
                    + " matched by the merge join was not returned by take"@
            },
            MergeError::ChildCount => "FullSchemaMergeInsertExec requires exactly one child"@,
            MergeError::RowIdCount { reason } => {
                "Captured row ids not equal to number of rows written: "@ + reason@
            },
        }
    }

    /// How the error is reported.
    pub fn kind(&self) -> (r: ErrorKind)
        ensures
            r == self.kind_spec(),
    {
        match self {
            MergeError::DuplicateSourceRow { .. } => ErrorKind::Execution,
            MergeError::MatchedRow { .. } => ErrorKind::Execution,
            MergeError::KeyRejected { .. } => ErrorKind::Outside,
            MergeError::CaptureRefused { .. } => ErrorKind::Outside,
            _ => ErrorKind::Internal,
        }
    }

    /// The row of the batch whose key the message shows, if it shows one.
    pub fn row_idx(&self) -> (r: Option<usize>)
        ensures
            r == match *self {
                MergeError::DuplicateSourceRow { row_idx } => Some(row_idx),
                MergeError::MatchedRow { row_idx } => Some(row_idx),
                _ => None,
            },
    {
        match self {
            MergeError::DuplicateSourceRow { row_idx } => Some(*row_idx),
            MergeError::MatchedRow { row_idx } => Some(*row_idx),
            _ => None,
        }
    }

    /// The message of the error, with `detail` as what is known of the row.
    pub fn message(&self, detail: &str) -> (r: String)
        ensures
            r@ == self.text(detail@),
    {
        let mut out: String = String::new();
        match self {
            MergeError::DuplicateSourceRow { .. } => {
                out.append(
                    "Ambiguous merge insert: multiple source rows match the same target row on (",
                );
                out.append(detail);
                out.append(")");
            },
            MergeError::MatchedRow { .. } => {
                out.append("Merge insert failed: found matching row with key values: ");
                out.append(detail);
            },
            MergeError::KeyRejected { reason } => {
                out.append(reason.as_str());
            },
            MergeError::CaptureRefused { reason } => {
                out.append(reason.as_str());
            },
            MergeError::InvalidActionCode { code } => {
                out.append("Invalid action code ");
                append_decimal(&mut out, *code as u64);
                out.append(": ");
                out.append(detail);
            },
            MergeError::MissingInputColumn { column } => {
                out.append("Expected ");
                out.append(column.name());
                out.append(" column in merge insert input");
            },
            MergeError::WrongColumnType { column } => {
                out.append("Expected ");
                out.append(column.array_name());
                out.append(" for ");
                out.append(column.name());
                out.append(" column");
            },
            MergeError::NoDataColumns => {
                out.append("No data columns found in merge insert input");
            },
            MergeError::TakeMissingRowAddr => {
                out.append("take result is missing the _rowaddr column");
            },
            MergeError::TakeMissingColumn { name } => {
                out.append("take result is missing the ");
                append_quoted(&mut out, name.as_str());
                out.append(" column");
            },
            MergeError::RowNotTaken { row_addr } => {
                out.append("Row address ");
                append_decimal(&mut out, *row_addr);
                out.append(" matched by the merge join was not returned by take");
            },
            MergeError::ChildCount => {
                out.append("FullSchemaMergeInsertExec requires exactly one child");
            },
            MergeError::RowIdCount { reason } => {
                out.append("Captured row ids not equal to number of rows written: ");
                out.append(reason.as_str());
            },
        }
        assert(out@ =~= self.text(detail@));
        out
    }
}

/// The names and array types of the control columns.
pub proof fn law_control_columns_have_their_names()
    ensures
        ControlColumn::RowAddr.text() == "_rowaddr"@,
        ControlColumn::RowId.text() == "_rowid"@,
        ControlColumn::Action.text() == "__action"@,
        ControlColumn::RowAddr.array_text() == "UInt64Array"@,
        ControlColumn::RowId.array_text() == "UInt64Array"@,
        ControlColumn::Action.array_text() == "UInt8Array"@,
{
}

/// Only errors about the data are errors of execution, only those that another
/// component gives are its own, and all others are internal.
pub proof fn law_errors_are_of_their_kind(e: MergeError)
    ensures
        e.kind_spec() is Execution <==> e is DuplicateSourceRow || e is MatchedRow,
        e.kind_spec() is Outside <==> e is KeyRejected || e is CaptureRefused,
        e.kind_spec() is Internal <==> !(e is DuplicateSourceRow || e is MatchedRow
            || e is KeyRejected || e is CaptureRefused),
{
}

/// A message names what the error is about: the whole of the reason that another
/// component gives, the code and the address in decimal, the column by its name, and
/// what is known of the row.
pub proof fn law_messages_name_what_they_are_about(e: MergeError, detail: Seq<char>)
    ensures
        e is KeyRejected ==> e.text(detail) == e->KeyRejected_reason@,
        e is CaptureRefused ==> e.text(detail) == e->CaptureRefused_reason@,
        e is RowIdCount ==> e.text(detail) == "Captured row ids not equal to number of rows written: "@
            + e->RowIdCount_reason@,
        e is DuplicateSourceRow ==> e.text(detail)
            == "Ambiguous merge insert: multiple source rows match the same target row on ("@ + detail
            + ")"@,
        e is MatchedRow ==> e.text(detail)
            == "Merge insert failed: found matching row with key values: "@ + detail,
        e is InvalidActionCode ==> exists|code: Seq<char>|
            {
                &&& #[trigger] number_of(code) == e->code
                &&& code[0] != '0' || code.len() == 1
                &&& e.text(detail) == "Invalid action code "@ + code + ": "@ + detail
            },
        e is RowNotTaken ==> exists|addr: Seq<char>|
            {
                &&& #[trigger] number_of(addr) == e->row_addr
                &&& addr[0] != '0' || addr.len() == 1
                &&& e.text(detail) == "Row address "@ + addr
                    + " matched by the merge join was not returned by take"@
            },
        e is MissingInputColumn && e->MissingInputColumn_column is RowAddr ==> e.text(detail)
            == "Expected "@ + "_rowaddr"@ + " column in merge insert input"@,
        e is MissingInputColumn && e->MissingInputColumn_column is RowId ==> e.text(detail)
            == "Expected "@ + "_rowid"@ + " column in merge insert input"@,
        e is MissingInputColumn && e->MissingInputColumn_column is Action ==> e.text(detail)
            == "Expected "@ + "__action"@ + " column in merge insert input"@,
        e is WrongColumnType && e->WrongColumnType_column is RowAddr ==> e.text(detail)
            == "Expected "@ + "UInt64Array"@ + " for "@ + "_rowaddr"@ + " column"@,
        e is WrongColumnType && e->WrongColumnType_column is RowId ==> e.text(detail)
            == "Expected "@ + "UInt64Array"@ + " for "@ + "_rowid"@ + " column"@,
        e is WrongColumnType && e->WrongColumnType_column is Action ==> e.text(detail)
            == "Expected "@ + "UInt8Array"@ + " for "@ + "__action"@ + " column"@,
        e is TakeMissingColumn ==> e.text(detail) == "take result is missing the "@ + quoted_text(
            e->name@,
        ) + " column"@,
        e is NoDataColumns ==> e.text(detail) == "No data columns found in merge insert input"@,
        e is TakeMissingRowAddr ==> e.text(detail) == "take result is missing the _rowaddr column"@,
        e is ChildCount ==> e.text(detail)
            == "FullSchemaMergeInsertExec requires exactly one child"@,
{
    if let MergeError::InvalidActionCode { code } = e {
        law_decimal_stands_for_its_number(code as nat);
        assert(number_of(decimal(code as nat)) == code);
    }
    if let MergeError::RowNotTaken { row_addr } = e {
        law_decimal_stands_for_its_number(row_addr as nat);
        assert(number_of(decimal(row_addr as nat)) == row_addr);
    }
}

} // verus!
