//! What holds of every sequence of calls on the state of a merge, also of calls
//! that go on after an error.

use crate::action::Action;
use crate::columns::UInt64Column;
use crate::error::MergeError;
use crate::merge_state::{row_outcome, MergeConfig, MergeView, RowOutcome, RowReply};
use vstd::prelude::*;

verus! {

/// One call that processes a row.
pub struct Call {
    pub action: Action,
    pub row_idx: usize,
    /// The address of the matched target row, if the row matches one.
    pub addr: Option<u64>,
    /// The id of the matched target row.
    pub row_id: u64,
    pub reply: RowReply,
}

/// What becomes of the row of a call.
pub open spec fn call_outcome(s: MergeView, config: MergeConfig, call: Call) -> RowOutcome {
    row_outcome(s, config, call.action, call.row_idx, call.addr, call.row_id, call.reply)
}

/// The state that a call leaves.
pub open spec fn outcome_state(outcome: RowOutcome) -> MergeView {
    match outcome {
        RowOutcome::Kept(s) => s,
        RowOutcome::Dropped(s) => s,
        RowOutcome::Failed(s, _) => s,
    }
}

/// The state after all calls.
pub open spec fn after_calls(s: MergeView, config: MergeConfig, calls: Seq<Call>) -> MergeView
    decreases calls.len(),
{
    if calls.len() == 0 {
        s
    } else {
        outcome_state(
            call_outcome(after_calls(s, config, calls.drop_last()), config, calls.last()),
        )
    }
}

/// The outcomes of all calls.
pub open spec fn outcomes(s: MergeView, config: MergeConfig, calls: Seq<Call>) -> Seq<RowOutcome>
    decreases calls.len(),
{
    if calls.len() == 0 {
        Seq::empty()
    } else {
        outcomes(s, config, calls.drop_last()).push(
            call_outcome(after_calls(s, config, calls.drop_last()), config, calls.last()),
        )
    }
}

/// The call deletes or replaces a target row.
pub open spec fn claims_row(call: Call) -> bool {
    (call.action is Delete || call.action is UpdateAll) && call.addr is Some
}

/// Call `j` is the first to delete or replace its target row.
pub open spec fn claims_first(s: MergeView, calls: Seq<Call>, j: int) -> bool {
    &&& claims_row(calls[j])
    &&& !s.processed_row_ids.contains(calls[j].row_id)
    &&& forall|i: int|
        0 <= i < j && #[trigger] claims_row(calls[i]) ==> calls[i].row_id != calls[j].row_id
}

/// How many of the first `n` calls satisfy `p`.
pub open spec fn count_calls(n: nat, p: spec_fn(int) -> bool) -> nat
    decreases n,
{
    if n == 0 {
        0
    } else {
        count_calls((n - 1) as nat, p) + (if p(n - 1) {
            1nat
        } else {
            0nat
        })
    }
}

/// Conditions that agree on the first `n` calls count the same.
proof fn lemma_count_calls_same(n: nat, p: spec_fn(int) -> bool, q: spec_fn(int) -> bool)
    requires
        forall|i: int| 0 <= i < n ==> #[trigger] p(i) == q(i),
    ensures
        count_calls(n, p) == count_calls(n, q),
    decreases n,
{
    if n > 0 {
        lemma_count_calls_same((n - 1) as nat, p, q);
        assert(p(n - 1) == q(n - 1));
    }
}

/// One outcome per call, and later calls change nothing about earlier ones.
proof fn lemma_outcomes(s: MergeView, config: MergeConfig, calls: Seq<Call>)
    ensures
        outcomes(s, config, calls).len() == calls.len(),
        calls.len() > 0 ==> outcomes(s, config, calls).drop_last() == outcomes(
            s,
            config,
            calls.drop_last(),
        ),
    decreases calls.len(),
{
    if calls.len() > 0 {
        lemma_outcomes(s, config, calls.drop_last());
        assert(outcomes(s, config, calls).drop_last() =~= outcomes(s, config, calls.drop_last()));
    }
}

/// Whether call `i` keeps its row.
pub open spec fn keeps(s: MergeView, config: MergeConfig, calls: Seq<Call>) -> spec_fn(int) -> bool {
    |i: int| outcomes(s, config, calls)[i] is Kept
}

/// Whether call `i` is a delete or an update of a target row that did not fail.
pub open spec fn claims_well(
    s: MergeView,
    config: MergeConfig,
    calls: Seq<Call>,
) -> spec_fn(int) -> bool {
    |i: int| claims_row(calls[i]) && !(outcomes(s, config, calls)[i] is Failed)
}

/// Whether call `i` is an update without a target row.
pub open spec fn updates_nothing(calls: Seq<Call>) -> spec_fn(int) -> bool {
    |i: int| calls[i].action is UpdateAll && calls[i].addr is None
}

/// The ids of processed target rows are those of all deletes and updates so far.
proof fn lemma_processed(s: MergeView, config: MergeConfig, calls: Seq<Call>)
    ensures
        forall|id: u64| #[trigger]
            after_calls(s, config, calls).processed_row_ids.contains(id) <==> (
            s.processed_row_ids.contains(id) || exists|j: int|
                0 <= j < calls.len() && #[trigger] claims_row(calls[j]) && calls[j].row_id == id),
    decreases calls.len(),
{
    if calls.len() > 0 {
        let front = calls.drop_last();
        let n = calls.len() - 1;
        lemma_processed(s, config, front);
        assert forall|id: u64| #[trigger]
            after_calls(s, config, calls).processed_row_ids.contains(id) <==> (
            s.processed_row_ids.contains(id) || exists|j: int|
                0 <= j < calls.len() && #[trigger] claims_row(calls[j]) && calls[j].row_id
                    == id) by {
            let before = after_calls(s, config, front).processed_row_ids;
            if before.contains(id) && !s.processed_row_ids.contains(id) {
                let j = choose|j: int|
                    0 <= j < front.len() && #[trigger] claims_row(front[j]) && front[j].row_id
                        == id;
                assert(claims_row(calls[j]));
            }
            if claims_row(calls[n]) && calls[n].row_id == id {
                assert(after_calls(s, config, calls).processed_row_ids.contains(id));
            }
            if exists|j: int|
                0 <= j < calls.len() && #[trigger] claims_row(calls[j]) && calls[j].row_id == id {
                let j = choose|j: int|
                    0 <= j < calls.len() && #[trigger] claims_row(calls[j]) && calls[j].row_id
                        == id;
                if j < n {
                    assert(claims_row(front[j]));
                }
            }
        }
    }
}

/// A call is the first for its target row exactly if the row was not processed
/// before.
proof fn lemma_first_call(s: MergeView, config: MergeConfig, calls: Seq<Call>)
    requires
        calls.len() > 0,
        claims_row(calls.last()),
    ensures
        claims_first(s, calls, calls.len() - 1) <==> !after_calls(
            s,
            config,
            calls.drop_last(),
        ).processed_row_ids.contains(calls.last().row_id),
{
    let front = calls.drop_last();
    let n = calls.len() - 1;
    let id = calls.last().row_id;
    lemma_processed(s, config, front);
    if after_calls(s, config, front).processed_row_ids.contains(id) {
        if !s.processed_row_ids.contains(id) {
            let j = choose|j: int|
                0 <= j < front.len() && #[trigger] claims_row(front[j]) && front[j].row_id == id;
            assert(claims_row(calls[j]));
        }
    } else {
        assert forall|i: int| 0 <= i < n && #[trigger] claims_row(calls[i]) implies calls[i].row_id
            != id by {
            assert(claims_row(front[i]));
        }
    }
}

/// Whatever calls are made, and whether or not some of them fail, the counters
/// account for all of them, as long as they do not wrap around: those of updated
/// and inserted rows for the rows that are kept, and those of deleted, skipped
/// and updated rows for the deletes and updates of target rows that went well. No
/// counter grows by more than the number of calls. The addresses that go away are
/// those of the calls that were the first to delete or replace their target row.
pub proof fn law_calls_are_counted(s: MergeView, config: MergeConfig, calls: Seq<Call>)
    requires
        s.metrics.inserted + calls.len() <= usize::MAX,
        s.metrics.updated + calls.len() <= usize::MAX,
        s.metrics.deleted + calls.len() <= usize::MAX,
        s.metrics.skipped + calls.len() <= usize::MAX,
    ensures
        ({
            let after = after_calls(s, config, calls);
            let n = calls.len();
            &&& after.metrics.updated + after.metrics.inserted == s.metrics.updated
                + s.metrics.inserted + count_calls(n, keeps(s, config, calls))
            &&& after.metrics.deleted + after.metrics.skipped + after.metrics.updated
                == s.metrics.deleted + s.metrics.skipped + s.metrics.updated + count_calls(
                n,
                claims_well(s, config, calls),
            ) + count_calls(n, updates_nothing(calls))
            &&& after.metrics.inserted <= s.metrics.inserted + n
            &&& after.metrics.updated <= s.metrics.updated + n
            &&& after.metrics.deleted <= s.metrics.deleted + n
            &&& after.metrics.skipped <= s.metrics.skipped + n
            &&& forall|a: u64| #[trigger]
                after.delete_row_addrs.contains(a) <==> (s.delete_row_addrs.contains(a) || exists|
                    j: int,
                |
                    0 <= j < n && #[trigger] claims_first(s, calls, j) && calls[j].addr == Some(a))
        }),
    decreases calls.len(),
{
    if calls.len() > 0 {
        let front = calls.drop_last();
        let n = calls.len() - 1;
        let before = after_calls(s, config, front);
        let after = after_calls(s, config, calls);
        law_calls_are_counted(s, config, front);
        lemma_outcomes(s, config, calls);
        lemma_outcomes(s, config, front);
        assert forall|i: int| 0 <= i < n implies #[trigger] outcomes(s, config, calls)[i]
            == outcomes(s, config, front)[i] by {
            assert(outcomes(s, config, calls).drop_last()[i] == outcomes(s, config, front)[i]);
        }
        assert(outcomes(s, config, calls)[n] == call_outcome(before, config, calls[n]));
        lemma_count_calls_same(n as nat, keeps(s, config, calls), keeps(s, config, front));
        lemma_count_calls_same(
            n as nat,
            claims_well(s, config, calls),
            claims_well(s, config, front),
        );
        lemma_count_calls_same(n as nat, updates_nothing(calls), updates_nothing(front));
        if claims_row(calls[n]) {
            lemma_first_call(s, config, calls);
        }
        assert forall|j: int| 0 <= j < n implies #[trigger] claims_first(s, calls, j)
            == claims_first(s, front, j) by {
            assert(front[j] == calls[j]);
            assert forall|i: int| 0 <= i < j implies front[i] == calls[i] by {}
            if claims_first(s, calls, j) {
                assert forall|i: int| 0 <= i < j && #[trigger] claims_row(front[i]) implies front[i].row_id
                    != front[j].row_id by {
                    assert(claims_row(calls[i]));
                }
            }
            if claims_first(s, front, j) {
                assert forall|i: int| 0 <= i < j && #[trigger] claims_row(calls[i]) implies calls[i].row_id
                    != calls[j].row_id by {
                    assert(claims_row(front[i]));
                }
            }
        }
        assert forall|a: u64| #[trigger]
            after.delete_row_addrs.contains(a) <==> (s.delete_row_addrs.contains(a) || exists|
                j: int,
            |
                0 <= j < calls.len() && #[trigger] claims_first(s, calls, j) && calls[j].addr
                    == Some(a)) by {
            if before.delete_row_addrs.contains(a) && !s.delete_row_addrs.contains(a) {
                let j = choose|j: int|
                    0 <= j < front.len() && #[trigger] claims_first(s, front, j) && front[j].addr
                        == Some(a);
                assert(claims_first(s, calls, j));
            }
            if after.delete_row_addrs.contains(a) && !before.delete_row_addrs.contains(a) {
                assert(claims_first(s, calls, n));
            }
            if exists|j: int|
                0 <= j < calls.len() && #[trigger] claims_first(s, calls, j) && calls[j].addr
                    == Some(a) {
                let j = choose|j: int|
                    0 <= j < calls.len() && #[trigger] claims_first(s, calls, j) && calls[j].addr
                        == Some(a);
                if j < n {
                    assert(claims_first(s, front, j));
                    assert(front[j] == calls[j]);
                }
            }
        }
    }
}

/// What one call does, field by field. The row matches a target row if its slot of
/// addresses counts, whatever address stands there. Of two rows that delete or
/// replace one target row only the first does; the other fails the merge or is
/// skipped, as the merge is set up. The target row at the address goes away, its id
/// counts as processed, and is captured where row ids are stable; the key of a new
/// row is kept; and one counter grows by one, or none.
pub proof fn law_call_follows_its_slots(
    before: MergeView,
    config: MergeConfig,
    action: Action,
    row_idx: usize,
    addrs: UInt64Column,
    ids: UInt64Column,
    reply: RowReply,
    r: Result<Option<usize>, MergeError>,
    after: MergeView,
)
    requires
        row_idx < addrs.values@.len(),
        row_idx < ids.values@.len(),
        addrs.valid@.len() == addrs.values@.len(),
        ({
            let outcome = row_outcome(
                before,
                config,
                action,
                row_idx,
                addrs@.options()[row_idx as int],
                ids@.values[row_idx as int],
                reply,
            );
            match r {
                Ok(Some(i)) => i == row_idx && outcome == RowOutcome::Kept(after),
                Ok(None) => outcome == RowOutcome::Dropped(after),
                Err(e) => outcome == RowOutcome::Failed(after, e),
            }
        }),
    ensures
        ({
            let matched = (action is Delete || action is UpdateAll)
                && addrs.valid@[row_idx as int];
            let addr = addrs.values@[row_idx as int];
            let id = ids.values@[row_idx as int];
            let again = matched && before.processed_row_ids.contains(id);
            let first = matched && !before.processed_row_ids.contains(id);
            let refused = first && action is UpdateAll && config.stable_row_ids
                && reply.capture_error is Some;
            let was = before.metrics;
            let now = after.metrics;
            // What comes back.
            &&& r is Err <==> (action is Fail || (action is Insert && reply.key is Rejected) || (
            again && config.dedupe is Fail) || refused)
            &&& r matches Ok(Some(i)) ==> i == row_idx
            &&& r is Ok ==> (r->Ok_0 is Some <==> (action is Insert || (action is UpdateAll
                && !again)))
            &&& action is Fail ==> r->Err_0 == (MergeError::MatchedRow { row_idx })
            &&& again && config.dedupe is Fail ==> r->Err_0 == (MergeError::DuplicateSourceRow {
                row_idx,
            })
            &&& refused ==> r->Err_0 == (MergeError::CaptureRefused {
                reason: reply.capture_error->0,
            })
            &&& action is Insert && reply.key is Rejected ==> r->Err_0 == (
            MergeError::KeyRejected { reason: reply.key->Rejected_0 })
            // What has been done.
            &&& after.delete_row_addrs == (if first {
                before.delete_row_addrs.insert(addr)
            } else {
                before.delete_row_addrs
            })
            &&& after.processed_row_ids == (if first {
                before.processed_row_ids.insert(id)
            } else {
                before.processed_row_ids
            })
            &&& after.captured_row_ids == (if first && action is UpdateAll && config.stable_row_ids
                && !refused {
                before.captured_row_ids.push(id)
            } else {
                before.captured_row_ids
            })
            &&& after.inserted_keys == (if action is Insert && reply.key is Captured {
                before.inserted_keys.push(reply.key->Captured_0.bytes@)
            } else {
                before.inserted_keys
            })
            // What has been counted.
            &&& now.inserted == (if action is Insert && r is Ok {
                was.inserted.wrapping_add(1)
            } else {
                was.inserted
            })
            &&& now.updated == (if action is UpdateAll && !again && r is Ok {
                was.updated.wrapping_add(1)
            } else {
                was.updated
            })
            &&& now.deleted == (if action is Delete && first {
                was.deleted.wrapping_add(1)
            } else {
                was.deleted
            })
            &&& now.skipped == (if again && r is Ok {
                was.skipped.wrapping_add(1)
            } else {
                was.skipped
            })
            &&& now.bytes_written == was.bytes_written
            &&& now.files_written == was.files_written
        }),
{
}

} // verus!
