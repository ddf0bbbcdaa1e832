//! Processing the rows of one batch.

use crate::action::{Action, ActionCodes};
use crate::batch_laws::{
    counts_right, does_right, ends_right, has_room, law_rows_follow_their_slots, lists_right,
    splits_right, ControlSlots,
};
use crate::columns::{UInt64Column, UInt64Model};
use crate::error::MergeError;
use crate::merge_state::{row_outcome, MergeConfig, MergeState, MergeView, RowOutcome, RowReply};
use vstd::prelude::*;

verus! {

/// What the merge reads of one row.
pub struct RowInput {
    /// The code of the row's action.
    pub code: u8,
    /// The address of the matched target row, if the row matches one.
    pub addr: Option<u64>,
    /// The id of the matched target row.
    pub row_id: u64,
    /// What others say of the row.
    pub reply: RowReply,
}

/// The control columns of a batch.
#[derive(Debug, PartialEq, Eq)]
pub struct ControlRows {
    pub row_addrs: UInt64Column,
    pub row_ids: UInt64Column,
    pub actions: Vec<u8>,
}

impl ControlRows {
    /// The columns have one entry per row.
    pub open spec fn wf(&self) -> bool {
        &&& self.row_addrs.wf()
        &&& self.row_ids.wf()
        &&& self.row_addrs@.values.len() == self.actions.len()
        &&& self.row_ids@.values.len() == self.actions.len()
    }

    /// The rows, with what others say of them.
    pub open spec fn rows(&self, replies: Seq<RowReply>) -> Seq<RowInput> {
        Seq::new(
            self.actions@.len(),
            |i: int|
                RowInput {
                    code: self.actions@[i],
                    addr: self.row_addrs@.options()[i],
                    row_id: self.row_ids@.values[i],
                    reply: replies[i],
                },
        )
    }
}

/// Where processing the rows of a batch got to.
pub struct Run {
    /// The state of the merge.
    pub state: MergeView,
    /// The rows to write.
    pub kept: Seq<int>,
    /// Why processing stopped, if it did.
    pub error: Option<MergeError>,
}

/// Processes row `i` after a run that did not stop.
pub open spec fn next_run(
    before: Run,
    config: MergeConfig,
    codes: ActionCodes,
    i: int,
    row: RowInput,
) -> Run {
    match codes.action_of(row.code) {
        None => Run { error: Some(MergeError::InvalidActionCode { code: row.code }), ..before },
        Some(action) => match row_outcome(
            before.state,
            config,
            action,
            i as usize,
            row.addr,
            row.row_id,
            row.reply,
        ) {
            RowOutcome::Kept(s) => Run { state: s, kept: before.kept.push(i), ..before },
            RowOutcome::Dropped(s) => Run { state: s, ..before },
            RowOutcome::Failed(s, e) => Run { state: s, error: Some(e), ..before },
        },
    }
}

/// Processes rows in order, up to the first one that fails the merge.
pub open spec fn run_rows(
    s: MergeView,
    config: MergeConfig,
    codes: ActionCodes,
    rows: Seq<RowInput>,
) -> Run
    decreases rows.len(),
{
    if rows.len() == 0 {
        Run { state: s, kept: Seq::empty(), error: None }
    } else {
        let before = run_rows(s, config, codes, rows.drop_last());
        if before.error is Some {
            before
        } else {
            next_run(before, config, codes, rows.len() - 1, rows.last())
        }
    }
}

/// Those of the rows `kept` that have the action `action`.
pub open spec fn kept_for(
    rows: Seq<RowInput>,
    codes: ActionCodes,
    kept: Seq<int>,
    action: Action,
) -> Seq<int> {
    kept.filter(|i: int| codes.action_of(rows[i].code) == Some(action))
}

/// Row indices as they are handed to Arrow: cut to 32 bits.
pub open spec fn row_numbers(kept: Seq<int>) -> Seq<u32> {
    kept.map_values(|i: int| i as u32)
}

/// A run that has stopped stays as it is, whatever rows follow.
pub(crate) proof fn lemma_stopped_run_stays(
    s: MergeView,
    config: MergeConfig,
    codes: ActionCodes,
    rows: Seq<RowInput>,
    n: int,
)
    requires
        0 <= n <= rows.len(),
        run_rows(s, config, codes, rows.take(n)).error is Some,
    ensures
        run_rows(s, config, codes, rows) == run_rows(s, config, codes, rows.take(n)),
    decreases rows.len(),
{
    if n < rows.len() {
        assert(rows.drop_last().take(n) =~= rows.take(n));
        lemma_stopped_run_stays(s, config, codes, rows.drop_last(), n);
    } else {
        assert(rows.take(n) =~= rows);
    }
}

impl MergeState {
    /// Processes one row of a batch: reads its action and performs it.
    fn process_row(
        &mut self,
        codes: &ActionCodes,
        rows: &ControlRows,
        replies: &Vec<RowReply>,
        row_idx: usize,
        Ghost(before): Ghost<Run>,
    ) -> (r: Result<Option<Action>, MergeError>)
        requires
            old(self).wf(),
            rows.wf(),
            replies.len() == rows.actions.len(),
            row_idx < rows.actions.len(),
            before.state == old(self)@.progress,
            before.error is None,
        ensures
            final(self).same_setup(old(self)),
            ({
                let row = rows.rows(replies@)[row_idx as int];
                let after = next_run(before, old(self).config(), *codes, row_idx as int, row);
                &&& final(self)@.progress == after.state
                &&& match r {
                    Ok(Some(action)) => {
                        &&& codes.action_of(row.code) == Some(action)
                        &&& after == (Run {
                            state: after.state,
                            kept: before.kept.push(row_idx as int),
                            error: None,
                        })
                    },
                    Ok(None) => after == (Run { state: after.state, ..before }),
                    Err(e) => after == (Run { state: after.state, error: Some(e), ..before }),
                }
            }),
    {
        let action: Action = match codes.decode(rows.actions[row_idx]) {
            Ok(action) => action,
            Err(e) => {
                return Err(e);
            },
        };
        match self.process_row_action(
            action,
            row_idx,
            &rows.row_addrs,
            &rows.row_ids,
            &replies[row_idx],
        ) {
            Err(e) => Err(e),
            Ok(None) => Ok(None),
            Ok(Some(_)) => Ok(Some(action)),
        }
    }

    /// Processes the rows of a batch in order. The answer lists the rows to
    /// write. At the first row that fails the merge processing stops; what was
    /// done until then stays done.
    pub fn process_rows(
        &mut self,
        codes: &ActionCodes,
        rows: &ControlRows,
        replies: &Vec<RowReply>,
    ) -> (r: Result<Vec<u32>, MergeError>)
        requires
            old(self).wf(),
            rows.wf(),
            replies.len() == rows.actions.len(),
        ensures
            final(self).same_setup(old(self)),
            ({
                let run = run_rows(old(self)@.progress, old(self).config(), *codes, rows.rows(replies@));
                &&& final(self)@.progress == run.state
                &&& match r {
                    Ok(keep) => run.error is None && keep@ == row_numbers(run.kept),
                    Err(e) => run.error == Some(e),
                }
            }),
            ({
                let slots = ControlSlots {
                    addrs: UInt64Model {
                        values: rows.row_addrs.values@,
                        valid: rows.row_addrs.valid@,
                    },
                    ids: rows.row_ids.values@,
                    actions: rows.actions@,
                };
                let before = old(self)@.progress;
                let after = final(self)@.progress;
                let config = old(self).config();
                match r {
                    Ok(keep) => {
                        &&& ends_right(before, config, *codes, slots, replies@, None, after)
                        &&& lists_right(before, *codes, slots, keep@)
                        &&& exists|kept: Seq<int>| #[trigger]
                            does_right(before, config, *codes, slots, replies@, kept, after)
                        &&& has_room(before, slots.actions.len()) ==> counts_right(
                            before,
                            *codes,
                            slots,
                            after,
                        )
                    },
                    Err(e) => ends_right(before, config, *codes, slots, replies@, Some(e), after),
                }
            }),
    {
        proof {
            law_rows_follow_their_slots(self@.progress, self.config(), *codes, *rows, replies@);
        }
        let n: usize = rows.actions.len();
        let mut keep_rows: Vec<u32> = Vec::with_capacity(n);
        let ghost all = rows.rows(replies@);
        let ghost config = self.config();
        assert(row_numbers(Seq::empty()) =~= Seq::<u32>::empty());
        for row_idx in 0..n
            invariant
                self.wf(),
                self.same_setup(old(self)),
                rows.wf(),
                n == rows.actions.len(),
                replies.len() == n,
                all == rows.rows(replies@),
                config == old(self).config(),
                ({
                    let run = run_rows(old(self)@.progress, config, *codes, all.take(row_idx as int));
                    &&& run.error is None
                    &&& run.state == self@.progress
                    &&& keep_rows@ == row_numbers(run.kept)
                }),
        {
            let ghost before = run_rows(old(self)@.progress, config, *codes, all.take(row_idx as int));
            let ghost upto = all.take(row_idx + 1);
            proof {
                assert(upto.drop_last() =~= all.take(row_idx as int));
                assert(upto.last() == all[row_idx as int]);
            }
            match self.process_row(codes, rows, replies, row_idx, Ghost(before)) {
                Err(e) => {
                    proof {
                        lemma_stopped_run_stays(old(self)@.progress, config, *codes, all, row_idx + 1);
                        law_rows_follow_their_slots(
                            old(self)@.progress,
                            config,
                            *codes,
                            *rows,
                            replies@,
                        );
                    }
                    return Err(e);
                },
                Ok(None) => {},
                Ok(Some(_)) => {
                    keep_rows.push(row_idx as u32);
                    assert(row_numbers(before.kept.push(row_idx as int)) =~= row_numbers(
                        before.kept,
                    ).push(row_idx as u32));
                },
            }
        }
        assert(all.take(n as int) =~= all);
        Ok(keep_rows)
    }

    /// Processes the rows of a batch in order, as `process_rows` does. The
    /// answer lists the rows to write, first the updated ones, then the
    /// inserted ones.
    pub fn process_and_split_rows(
        &mut self,
        codes: &ActionCodes,
        rows: &ControlRows,
        replies: &Vec<RowReply>,
    ) -> (r: Result<(Vec<u32>, Vec<u32>), MergeError>)
        requires
            old(self).wf(),
            rows.wf(),
            replies.len() == rows.actions.len(),
        ensures
            final(self).same_setup(old(self)),
            ({
                let all = rows.rows(replies@);
                let run = run_rows(old(self)@.progress, old(self).config(), *codes, all);
                &&& final(self)@.progress == run.state
                &&& match r {
                    Ok((updates, inserts)) => {
                        &&& run.error is None
                        &&& updates@ == row_numbers(
                            kept_for(all, *codes, run.kept, Action::UpdateAll),
                        )
                        &&& inserts@ == row_numbers(
                            kept_for(all, *codes, run.kept, Action::Insert),
                        )
                    },
                    Err(e) => run.error == Some(e),
                }
            }),
            ({
                let slots = ControlSlots {
                    addrs: UInt64Model {
                        values: rows.row_addrs.values@,
                        valid: rows.row_addrs.valid@,
                    },
                    ids: rows.row_ids.values@,
                    actions: rows.actions@,
                };
                let before = old(self)@.progress;
                let after = final(self)@.progress;
                let config = old(self).config();
                match r {
                    Ok((updates, inserts)) => {
                        &&& ends_right(before, config, *codes, slots, replies@, None, after)
                        &&& splits_right(before, *codes, slots, updates@, inserts@)
                        &&& exists|kept: Seq<int>| #[trigger]
                            does_right(before, config, *codes, slots, replies@, kept, after)
                        &&& has_room(before, slots.actions.len()) ==> counts_right(
                            before,
                            *codes,
                            slots,
                            after,
                        )
                    },
                    Err(e) => ends_right(before, config, *codes, slots, replies@, Some(e), after),
                }
            }),
    {
        proof {
            law_rows_follow_their_slots(self@.progress, self.config(), *codes, *rows, replies@);
        }
        let n: usize = rows.actions.len();
        let mut update_indices: Vec<u32> = Vec::new();
        let mut insert_indices: Vec<u32> = Vec::new();
        let ghost all = rows.rows(replies@);
        let ghost config = self.config();
        proof {
            reveal(Seq::filter);
            assert(row_numbers(Seq::empty()) =~= Seq::<u32>::empty());
        }
        for row_idx in 0..n
            invariant
                self.wf(),
                self.same_setup(old(self)),
                rows.wf(),
                n == rows.actions.len(),
                replies.len() == n,
                all == rows.rows(replies@),
                config == old(self).config(),
                ({
                    let run = run_rows(old(self)@.progress, config, *codes, all.take(row_idx as int));
                    &&& run.error is None
                    &&& run.state == self@.progress
                    &&& update_indices@ == row_numbers(
                        kept_for(all, *codes, run.kept, Action::UpdateAll),
                    )
                    &&& insert_indices@ == row_numbers(
                        kept_for(all, *codes, run.kept, Action::Insert),
                    )
                }),
        {
            let ghost before = run_rows(old(self)@.progress, config, *codes, all.take(row_idx as int));
            let ghost upto = all.take(row_idx + 1);
            proof {
                assert(upto.drop_last() =~= all.take(row_idx as int));
                assert(upto.last() == all[row_idx as int]);
            }
            match self.process_row(codes, rows, replies, row_idx, Ghost(before)) {
                Err(e) => {
                    proof {
                        lemma_stopped_run_stays(old(self)@.progress, config, *codes, all, row_idx + 1);
                        law_rows_follow_their_slots(
                            old(self)@.progress,
                            config,
                            *codes,
                            *rows,
                            replies@,
                        );
                    }
                    return Err(e);
                },
                Ok(None) => {},
                Ok(Some(action)) => {
                    proof {
                        lemma_kept_for_push(all, *codes, before.kept, row_idx as int, action);
                    }
                    match action {
                        Action::UpdateAll => update_indices.push(row_idx as u32),
                        Action::Insert => insert_indices.push(row_idx as u32),
                        _ => {},
                    }
                },
            }
        }
        assert(all.take(n as int) =~= all);
        Ok((update_indices, insert_indices))
    }
}

/// One more kept row goes to the rows of its own action, and to no others.
proof fn lemma_kept_for_push(
    rows: Seq<RowInput>,
    codes: ActionCodes,
    kept: Seq<int>,
    i: int,
    action: Action,
)
    requires
        codes.action_of(rows[i].code) == Some(action),
    ensures
        forall|other: Action| #[trigger]
            kept_for(rows, codes, kept.push(i), other) == (if other == action {
                kept_for(rows, codes, kept, other).push(i)
            } else {
                kept_for(rows, codes, kept, other)
            }),
        forall|other: Action| #[trigger]
            row_numbers(kept_for(rows, codes, kept.push(i), other)) == (if other == action {
                row_numbers(kept_for(rows, codes, kept, other)).push(i as u32)
            } else {
                row_numbers(kept_for(rows, codes, kept, other))
            }),
{
    reveal(Seq::filter);
    assert(kept.push(i).drop_last() =~= kept);
    assert forall|other: Action| #[trigger]
        kept_for(rows, codes, kept.push(i), other) == (if other == action {
            kept_for(rows, codes, kept, other).push(i)
        } else {
            kept_for(rows, codes, kept, other)
        }) by {}
    assert forall|other: Action| #[trigger]
        row_numbers(kept_for(rows, codes, kept.push(i), other)) == (if other == action {
            row_numbers(kept_for(rows, codes, kept, other)).push(i as u32)
        } else {
            row_numbers(kept_for(rows, codes, kept, other))
        }) by {
        let old_kept = kept_for(rows, codes, kept, other);
        assert(kept_for(rows, codes, kept.push(i), other) == (if other == action {
            old_kept.push(i)
        } else {
            old_kept
        }));
        assert(row_numbers(old_kept.push(i)) =~= row_numbers(old_kept).push(i as u32));
    }
}

} // verus!
