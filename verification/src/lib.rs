//! Write side of a merge-insert.
//!
//! A merge-insert joins a source with a target dataset. The join gives each row
//! an action and, where the row matches one, the address and the id of a target
//! row. From there this library takes over: it decides which rows are written,
//! which target rows go away, where the written columns come from, and what the
//! transaction says. Reading, writing and sending are left to whoever runs it.
//!
//! * `action`, `columns`, `error`, `text`: actions and their codes, columns of
//!   addresses, errors and their messages.
//! * `merge_state`, `rows`, `call_laws`, `row_laws`, `batch_laws`: what becomes of
//!   each row, and what holds of the rows of every merge.
//! * `types`, `arrow`, `treemap`: the values of other crates that pass through, and
//!   what is taken for granted of them.
//! * `ranges`, `copying`, `taking`: how much Arrow can copy and take of an array
//!   before its numbers end.
//! * `filling`, `arrow_laws`: the values of an array at positions, and NULL where
//!   there is none, and which arrays allow for it.
//! * `layout`, `filler`, `write_batch`, `layout_laws`, `fill_laws`, `cell_laws`,
//!   `write_laws`: the columns of the batches that are written, those that the source
//!   does not provide among them, and what holds of every written cell.
//! * `stream`, `split`: from the batches of the join to those of the writer, with
//!   updates before inserts where row ids are stable.
//! * `params`, `transaction`, `execute`, `result_laws`: one execution from its start
//!   to the transaction and its numbers.

pub mod action;
pub mod arrow;
pub mod arrow_laws;
pub mod batch_laws;
pub mod call_laws;
pub mod cell_laws;
pub mod columns;
pub mod copying;
pub mod error;
pub mod execute;
pub mod fill_laws;
pub mod filler;
pub mod filling;
pub mod layout;
pub mod layout_laws;
pub mod merge_state;
pub mod params;
pub mod ranges;
pub mod result_laws;
pub mod row_laws;
pub mod rows;
pub mod split;
pub mod stream;
pub mod taking;
pub mod text;
pub mod transaction;
pub mod treemap;
pub mod types;
pub mod write_batch;
pub mod write_laws;
