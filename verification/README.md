# merge_insert

The write side of a merge-insert (upsert), written in Verus.

A merge-insert joins a source with a target dataset. Each joined row carries an
action (update, insert, delete, fail or nothing) and, where it matches one, the
address and the id of a target row. The library in `src/` decides what becomes
of the rows and proves it:

* which rows are written, which target rows are deleted, and what happens to a
  second source row for the same target row;
* which row ids and keys are recorded, and that the ids line up with the updated
  rows in the order in which they are written;
* that writing all updates first and writing batch by batch give the same rows;
* where each written column comes from, in the order of the dataset, and how a
  column that the source does not provide is filled from the target;
* how much Arrow can take or copy of an array, and which arrays of NULL it can
  build, before it comes to the end of its numbers;
* in which order an execution goes through its steps, when new files are removed
  again, and what the transaction holds.

`app/` wraps the library as a plan node of DataFusion. It runs the streams and
asks a storage engine, behind the trait `MergeHost`, for everything that touches
files.

`tests/` runs the library on concrete values, with real Arrow batches.

What the library takes for granted of Arrow, `roaring` and the standard library
is written down where it is used: in `src/types.rs` and `src/arrow.rs`, in
`src/treemap.rs`, `src/filler.rs` (sorting) and `src/text.rs` (quoting).
