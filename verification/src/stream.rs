//! Turning the batches of the join into the batches that are written.

use crate::action::{Action, ActionCodes};
use crate::arrow::{batch_columns, batch_rows, Batch};
use crate::batch_laws::{
    counts_right, does_right, ends_right, has_room, lists_right, splits_right, ControlSlots,
};
use crate::error::MergeError;
use crate::filler::lemma_cut_is_not_larger;
use crate::layout::WriteStreamContext;
use crate::merge_state::{MergeState, RowReply};
use crate::row_laws::{law_kept_rows_are_ordered, law_kept_rows_split_by_action};
use crate::rows::{kept_for, row_numbers, run_rows, ControlRows, RowInput};
use crate::write_batch::{control_error, extract_control_arrays, has_control_rows};
use vstd::prelude::*;

verus! {

/// How the rows to write reach the writer.
#[derive(Clone, Copy, Debug, PartialEq, Eq, Structural)]
pub enum WriteStreamMode {
    /// All updated rows before all inserted ones, so that the captured row ids
    /// line up with the rows that are written first.
    UpdatesBeforeInserts,
    /// Batch by batch, as they come.
    Streaming,
}

/// How the rows of this merge reach the writer: in order where row ids are
/// stable, as they come otherwise.
pub fn write_stream_mode(state: &MergeState) -> (r: WriteStreamMode)
    ensures
        r == (if state.config().stable_row_ids {
            WriteStreamMode::UpdatesBeforeInserts
        } else {
            WriteStreamMode::Streaming
        }),
        r is UpdatesBeforeInserts <==> state.stable_row_ids,
{
    if state.stable_row_ids {
        WriteStreamMode::UpdatesBeforeInserts
    } else {
        WriteStreamMode::Streaming
    }
}

/// What the merge reads of the rows of a batch.
pub open spec fn batch_row_inputs(
    ctx: WriteStreamContext,
    batch: Batch,
    replies: Seq<RowReply>,
) -> Seq<RowInput> {
    let addrs = batch_columns(batch)[ctx.rowaddr_idx as int].uint64->0;
    let ids = batch_columns(batch)[ctx.rowid_idx as int].uint64->0;
    let codes = batch_columns(batch)[ctx.action_idx as int].uint8->0;
    Seq::new(
        batch_rows(batch),
        |i: int|
            RowInput {
                code: codes[i],
                addr: if addrs.valid[i] {
                    Some(addrs.values[i])
                } else {
                    None
                },
                row_id: ids.values[i],
                reply: replies[i],
            },
    )
}

/// The control columns hold what the merge reads of the rows.
proof fn lemma_control_rows(
    ctx: WriteStreamContext,
    batch: Batch,
    rows: ControlRows,
    replies: Seq<RowReply>,
)
    requires
        has_control_rows(ctx, batch, rows),
    ensures
        rows.rows(replies) == batch_row_inputs(ctx, batch, replies),
{
    assert(rows.rows(replies) =~= batch_row_inputs(ctx, batch, replies));
}

/// Kept rows, cut to 32 bits, are rows of the batch, and different ones where
/// 32 bits suffice to tell them apart.
proof fn lemma_row_numbers_in_range(kept: Seq<int>, n: nat)
    requires
        forall|i: int| 0 <= i < kept.len() ==> 0 <= #[trigger] kept[i] < n,
    ensures
        forall|i: int| 0 <= i < kept.len() ==> #[trigger] row_numbers(kept)[i] < n,
        n <= 0x1_0000_0000 && kept.no_duplicates() ==> row_numbers(kept).no_duplicates(),
{
    if n <= 0x1_0000_0000 && kept.no_duplicates() {
        assert forall|i: int, j: int| 0 <= i < j < kept.len() implies #[trigger] row_numbers(kept)[i]
            != #[trigger] row_numbers(kept)[j] by {
            lemma_cut_is_not_larger(kept[i] as nat);
            lemma_cut_is_not_larger(kept[j] as nat);
        }
    }
    assert forall|i: int| 0 <= i < kept.len() implies #[trigger] row_numbers(kept)[i] < n by {
        lemma_cut_is_not_larger(kept[i] as nat);
    }
}

/// Processes the rows of a batch. The answer lists the rows to write.
pub fn filter_batch(
    state: &mut MergeState,
    codes: &ActionCodes,
    batch: &Batch,
    replies: &Vec<RowReply>,
    ctx: &WriteStreamContext,
) -> (r: Result<Vec<u32>, MergeError>)
    requires
        old(state).wf(),
        ctx.fits(*batch),
        replies.len() == batch_rows(*batch),
    ensures
        final(state).same_setup(old(state)),
        match control_error(*ctx, *batch) {
            Some(e) => r == Err::<Vec<u32>, MergeError>(e) && final(state)@.progress == old(state)@.progress,
            None => {
                let run = run_rows(
                    old(state)@.progress,
                    old(state).config(),
                    *codes,
                    batch_row_inputs(*ctx, *batch, replies@),
                );
                &&& final(state)@.progress == run.state
                &&& match r {
                    Ok(keep) => {
                        &&& run.error is None
                        &&& keep@ == row_numbers(run.kept)
                        &&& forall|i: int|
                            0 <= i < keep.len() ==> #[trigger] keep@[i] < batch_rows(*batch)
                        &&& batch_rows(*batch) <= 0x1_0000_0000 ==> keep@.no_duplicates()
                    },
                    Err(e) => run.error == Some(e),
                }
            },
        },
        control_error(*ctx, *batch) is None ==> {
            let slots = ControlSlots {
                addrs: batch_columns(*batch)[ctx.rowaddr_idx as int].uint64->0,
                ids: (batch_columns(*batch)[ctx.rowid_idx as int].uint64->0).values,
                actions: batch_columns(*batch)[ctx.action_idx as int].uint8->0,
            };
            let before = old(state)@.progress;
            let after = final(state)@.progress;
            let config = old(state).config();
            match r {
                Ok(keep) => {
                    &&& ends_right(before, config, *codes, slots, replies@, None, after)
                    &&& lists_right(before, *codes, slots, keep@)
                    &&& exists|kept: Seq<int>| #[trigger]
                        does_right(before, config, *codes, slots, replies@, kept, after)
                    &&& has_room(before, slots.actions.len()) ==> counts_right(
                        before,
                        *codes,
                        slots,
                        after,
                    )
                },
                Err(e) => ends_right(before, config, *codes, slots, replies@, Some(e), after),
            }
        },
{
    let rows: ControlRows = match extract_control_arrays(batch, ctx) {
        Ok(rows) => rows,
        Err(e) => {
            return Err(e);
        },
    };
    proof {
        lemma_control_rows(*ctx, *batch, rows, replies@);
        law_kept_rows_are_ordered(state@.progress, state.config(), *codes, rows.rows(replies@));
        lemma_row_numbers_in_range(
            run_rows(state@.progress, state.config(), *codes, rows.rows(replies@)).kept,
            batch_rows(*batch),
        );
    }
    state.process_rows(codes, &rows, replies)
}

/// Processes the rows of a batch. The answer lists the rows to write, first
/// the updated ones, then the inserted ones.
pub fn split_batch(
    state: &mut MergeState,
    codes: &ActionCodes,
    batch: &Batch,
    replies: &Vec<RowReply>,
    ctx: &WriteStreamContext,
) -> (r: Result<(Vec<u32>, Vec<u32>), MergeError>)
    requires
        old(state).wf(),
        ctx.fits(*batch),
        replies.len() == batch_rows(*batch),
    ensures
        final(state).same_setup(old(state)),
        match control_error(*ctx, *batch) {
            Some(e) => r == Err::<(Vec<u32>, Vec<u32>), MergeError>(e) && final(state)@.progress == old(
                state,
            )@.progress,
            None => {
                let rows = batch_row_inputs(*ctx, *batch, replies@);
                let run = run_rows(old(state)@.progress, old(state).config(), *codes, rows);
                &&& final(state)@.progress == run.state
                &&& match r {
                    Ok((updates, inserts)) => {
                        &&& run.error is None
                        &&& updates@ == row_numbers(
                            kept_for(rows, *codes, run.kept, Action::UpdateAll),
                        )
                        &&& inserts@ == row_numbers(
                            kept_for(rows, *codes, run.kept, Action::Insert),
                        )
                        &&& forall|i: int|
                            0 <= i < updates.len() ==> #[trigger] updates@[i] < batch_rows(*batch)
                        &&& forall|i: int|
                            0 <= i < inserts.len() ==> #[trigger] inserts@[i] < batch_rows(*batch)
                        &&& batch_rows(*batch) <= 0x1_0000_0000 ==> updates@.no_duplicates()
                            && inserts@.no_duplicates()
                    },
                    Err(e) => run.error == Some(e),
                }
            },
        },
        control_error(*ctx, *batch) is None ==> {
            let slots = ControlSlots {
                addrs: batch_columns(*batch)[ctx.rowaddr_idx as int].uint64->0,
                ids: (batch_columns(*batch)[ctx.rowid_idx as int].uint64->0).values,
                actions: batch_columns(*batch)[ctx.action_idx as int].uint8->0,
            };
            let before = old(state)@.progress;
            let after = final(state)@.progress;
            let config = old(state).config();
            match r {
                Ok((updates, inserts)) => {
                    &&& ends_right(before, config, *codes, slots, replies@, None, after)
                    &&& splits_right(before, *codes, slots, updates@, inserts@)
                    &&& exists|kept: Seq<int>| #[trigger]
                        does_right(before, config, *codes, slots, replies@, kept, after)
                    &&& has_room(before, slots.actions.len()) ==> counts_right(
                        before,
                        *codes,
                        slots,
                        after,
                    )
                },
                Err(e) => ends_right(before, config, *codes, slots, replies@, Some(e), after),
            }
        },
{
    let rows: ControlRows = match extract_control_arrays(batch, ctx) {
        Ok(rows) => rows,
        Err(e) => {
            return Err(e);
        },
    };
    proof {
        let all = rows.rows(replies@);
        let kept = run_rows(state@.progress, state.config(), *codes, all).kept;
        lemma_control_rows(*ctx, *batch, rows, replies@);
        law_kept_rows_are_ordered(state@.progress, state.config(), *codes, all);
        law_kept_rows_split_by_action(state@.progress, state.config(), *codes, all);
        let updates = kept_for(all, *codes, kept, Action::UpdateAll);
        let inserts = kept_for(all, *codes, kept, Action::Insert);
        assert forall|i: int| 0 <= i < updates.len() implies 0 <= #[trigger] updates[i]
            < batch_rows(*batch) by {
            assert(updates.contains(updates[i]));
            assert(kept.contains(updates[i]));
        }
        assert forall|i: int| 0 <= i < inserts.len() implies 0 <= #[trigger] inserts[i]
            < batch_rows(*batch) by {
            assert(inserts.contains(inserts[i]));
            assert(kept.contains(inserts[i]));
        }
        lemma_row_numbers_in_range(updates, batch_rows(*batch));
        lemma_row_numbers_in_range(inserts, batch_rows(*batch));
    }
    state.process_and_split_rows(codes, &rows, replies)
}

/// The rows to write, if there are any. Without rows no batch is made.
pub fn rows_to_write(rows: Vec<u32>) -> (r: Option<Vec<u32>>)
    ensures
        r == (if rows@.len() > 0 {
            Some(rows)
        } else {
            None
        }),
{
    if rows.len() > 0 {
        Some(rows)
    } else {
        None
    }
}

} // verus!
