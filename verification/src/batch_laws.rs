//! What processing the rows of a batch does, in terms of the slots of its control
//! columns.

use crate::action::{Action, ActionCodes};
use crate::arrow::{batch_columns, batch_rows, Batch};
use crate::columns::UInt64Model;
use crate::error::{ControlColumn, MergeError};
use crate::filler::lemma_cut_is_not_larger;
use crate::layout::WriteStreamContext;
use crate::merge_state::{MergeConfig, MergeView, RowReply};
use crate::row_laws::{
    added_keys, adds_key, claims, count_rows, first_claim, has_action,
    law_captured_ids_follow_written_rows, law_every_row_is_counted_once, law_kept_rows_are_ordered,
    law_kept_rows_split_by_action, law_merge_stops_at_first_bad_row,
    law_target_rows_are_claimed_once, lemma_count_same, lemma_filter_contains,
    repeats, replaced_ids, replaces, stop_error, stops, uncaptured, written,
};
use crate::rows::{
    kept_for, lemma_stopped_run_stays, row_numbers, run_rows, ControlRows, RowInput,
};
use crate::stream::batch_row_inputs;
use crate::write_batch::control_error;
use vstd::prelude::*;

verus! {

/// The control columns of a batch, slot by slot.
pub struct ControlSlots {
    /// The slots of `_rowaddr`.
    pub addrs: UInt64Model,
    /// The slots of `_rowid`.
    pub ids: Seq<u64>,
    /// The slots of `__action`.
    pub actions: Seq<u8>,
}

impl ControlSlots {
    /// The columns have as many slots as there are rows.
    pub open spec fn wf(self) -> bool {
        &&& self.addrs.values.len() == self.actions.len()
        &&& self.addrs.valid.len() == self.actions.len()
        &&& self.ids.len() == self.actions.len()
    }
}

/// The code asks for the row to replace its target row.
pub open spec fn asks_update(codes: ActionCodes, code: u8) -> bool {
    code == codes.update_all && code != codes.nothing
}

/// The code asks for the row to be added.
pub open spec fn asks_insert(codes: ActionCodes, code: u8) -> bool {
    code == codes.insert && code != codes.nothing && code != codes.update_all
}

/// The code asks for the target row to be removed.
pub open spec fn asks_delete(codes: ActionCodes, code: u8) -> bool {
    code == codes.delete && code != codes.nothing && code != codes.update_all && code
        != codes.insert
}

/// The code asks for the merge to fail.
pub open spec fn asks_fail(codes: ActionCodes, code: u8) -> bool {
    code == codes.fail && code != codes.nothing && code != codes.update_all && code != codes.insert
        && code != codes.delete
}

/// The code asks for something.
pub open spec fn is_code(codes: ActionCodes, code: u8) -> bool {
    code == codes.nothing || code == codes.update_all || code == codes.insert || code
        == codes.delete || code == codes.fail
}

/// Row `i` is to delete or replace the target row at the address in its slot.
pub open spec fn hits(codes: ActionCodes, slots: ControlSlots, i: int) -> bool {
    slots.addrs.valid[i] && (asks_update(codes, slots.actions[i]) || asks_delete(
        codes,
        slots.actions[i],
    ))
}

/// Row `i` is the first to delete or replace the target row with the id in its
/// slot. Those of `done` were deleted or replaced before.
pub open spec fn hits_first(
    done: Set<u64>,
    codes: ActionCodes,
    slots: ControlSlots,
    i: int,
) -> bool {
    &&& hits(codes, slots, i)
    &&& !done.contains(slots.ids[i])
    &&& forall|j: int| 0 <= j < i && #[trigger] hits(codes, slots, j) ==> slots.ids[j] != slots.ids[i]
}

/// Row `i` cannot be processed.
pub open spec fn fails(
    done: Set<u64>,
    config: MergeConfig,
    codes: ActionCodes,
    slots: ControlSlots,
    replies: Seq<RowReply>,
    i: int,
) -> bool {
    let code = slots.actions[i];
    ||| !is_code(codes, code)
    ||| asks_fail(codes, code)
    ||| asks_insert(codes, code) && replies[i].key is Rejected
    ||| hits(codes, slots, i) && !hits_first(done, codes, slots, i) && config.dedupe is Fail
    ||| asks_update(codes, code) && hits_first(done, codes, slots, i) && config.stable_row_ids
        && replies[i].capture_error is Some
}

/// The error of row `i`, if it cannot be processed.
pub open spec fn failure(
    done: Set<u64>,
    codes: ActionCodes,
    slots: ControlSlots,
    replies: Seq<RowReply>,
    i: int,
) -> MergeError {
    let code = slots.actions[i];
    if !is_code(codes, code) {
        MergeError::InvalidActionCode { code }
    } else if asks_fail(codes, code) {
        MergeError::MatchedRow { row_idx: i as usize }
    } else if asks_insert(codes, code) {
        MergeError::KeyRejected { reason: replies[i].key->Rejected_0 }
    } else if hits_first(done, codes, slots, i) {
        MergeError::CaptureRefused { reason: replies[i].capture_error->0 }
    } else {
        MergeError::DuplicateSourceRow { row_idx: i as usize }
    }
}

/// Row `i` is to be written: it is new, or has no target row to replace, or is the
/// first to replace it.
pub open spec fn goes_out(
    done: Set<u64>,
    codes: ActionCodes,
    slots: ControlSlots,
    i: int,
) -> bool {
    ||| asks_insert(codes, slots.actions[i])
    ||| asks_update(codes, slots.actions[i]) && (!slots.addrs.valid[i] || hits_first(
        done,
        codes,
        slots,
        i,
    ))
}

/// What the rows of a batch that goes through do: `kept` are the rows to write,
/// `before` and `after` what the merge has done before and after them.
pub open spec fn does_right(
    before: MergeView,
    config: MergeConfig,
    codes: ActionCodes,
    slots: ControlSlots,
    replies: Seq<RowReply>,
    kept: Seq<int>,
    after: MergeView,
) -> bool {
    let n = slots.actions.len();
    let done = before.processed_row_ids;
    // The rows to write, in order.
    &&& forall|k: int| 0 <= k < kept.len() ==> 0 <= #[trigger] kept[k] < n
    &&& forall|k: int, m: int| 0 <= k < m < kept.len() ==> kept[k] < kept[m]
    &&& forall|i: int|
        0 <= i < n ==> (#[trigger] kept.contains(i) <==> goes_out(done, codes, slots, i))
    // The target rows that go away.
    &&& forall|a: u64| #[trigger]
        after.delete_row_addrs.contains(a) <==> before.delete_row_addrs.contains(a) || exists|i: int|
            0 <= i < n && #[trigger] hits_first(done, codes, slots, i) && slots.addrs.values[i] == a
    &&& forall|id: u64| #[trigger]
        after.processed_row_ids.contains(id) <==> done.contains(id) || exists|i: int|
            0 <= i < n && #[trigger] hits(codes, slots, i) && slots.ids[i] == id
    // The ids of replaced rows and the keys of new rows, in the order of the rows.
    &&& after.captured_row_ids == (if config.stable_row_ids {
        before.captured_row_ids + kept.filter(
            |i: int| asks_update(codes, slots.actions[i]) && slots.addrs.valid[i],
        ).map_values(|i: int| slots.ids[i])
    } else {
        before.captured_row_ids
    })
    &&& after.inserted_keys == before.inserted_keys + kept.filter(
        |i: int| asks_insert(codes, slots.actions[i]) && replies[i].key is Captured,
    ).map_values(|i: int| replies[i].key->Captured_0.bytes@)
}

/// What the rows of a batch that goes through count.
pub open spec fn counts_right(
    before: MergeView,
    codes: ActionCodes,
    slots: ControlSlots,
    after: MergeView,
) -> bool {
    let n = slots.actions.len();
    let done = before.processed_row_ids;
    &&& after.metrics.inserted == before.metrics.inserted + count_rows(
        n,
        |i: int| asks_insert(codes, slots.actions[i]),
    )
    &&& after.metrics.updated == before.metrics.updated + count_rows(
        n,
        |i: int|
            asks_update(codes, slots.actions[i]) && (!slots.addrs.valid[i] || hits_first(
                done,
                codes,
                slots,
                i,
            )),
    )
    &&& after.metrics.deleted == before.metrics.deleted + count_rows(
        n,
        |i: int| asks_delete(codes, slots.actions[i]) && hits_first(done, codes, slots, i),
    )
    &&& after.metrics.skipped == before.metrics.skipped + count_rows(
        n,
        |i: int| hits(codes, slots, i) && !hits_first(done, codes, slots, i),
    )
    &&& after.metrics.bytes_written == before.metrics.bytes_written
    &&& after.metrics.files_written == before.metrics.files_written
}

/// No counter of rows wraps around within `n` rows.
pub open spec fn has_room(before: MergeView, n: nat) -> bool {
    &&& before.metrics.inserted + n <= usize::MAX
    &&& before.metrics.updated + n <= usize::MAX
    &&& before.metrics.deleted + n <= usize::MAX
    &&& before.metrics.skipped + n <= usize::MAX
}

/// The first `n` rows.
pub open spec fn first_slots(slots: ControlSlots, n: int) -> ControlSlots {
    ControlSlots {
        addrs: UInt64Model {
            values: slots.addrs.values.take(n),
            valid: slots.addrs.valid.take(n),
        },
        ids: slots.ids.take(n),
        actions: slots.actions.take(n),
    }
}

/// The rows show the slots, and what others say of them.
spec fn shows_slots(
    rows: Seq<RowInput>,
    slots: ControlSlots,
    replies: Seq<RowReply>,
) -> bool {
    &&& rows.len() == slots.actions.len()
    &&& forall|i: int| 0 <= i < rows.len() ==> (#[trigger] rows[i]).code == slots.actions[i]
    &&& forall|i: int|
        0 <= i < rows.len() ==> (#[trigger] rows[i]).addr == (if slots.addrs.valid[i] {
            Some(slots.addrs.values[i])
        } else {
            None
        })
    &&& forall|i: int| 0 <= i < rows.len() ==> (#[trigger] rows[i]).row_id == slots.ids[i]
    &&& forall|i: int| 0 <= i < rows.len() ==> (#[trigger] rows[i]).reply == replies[i]
}

/// Rows that show the slots stand for them.
proof fn lemma_shown(
    s: MergeView,
    config: MergeConfig,
    codes: ActionCodes,
    rows: Seq<RowInput>,
    slots: ControlSlots,
    replies: Seq<RowReply>,
)
    requires
        slots.wf(),
        shows_slots(rows, slots, replies),
    ensures
        forall|i: int|
            0 <= i < rows.len() ==> #[trigger] claims(codes, rows[i]) == hits(codes, slots, i),
        forall|i: int|
            0 <= i < rows.len() ==> #[trigger] first_claim(s, codes, rows, i) == hits_first(
                s.processed_row_ids,
                codes,
                slots,
                i,
            ),
        forall|i: int|
            0 <= i < rows.len() ==> #[trigger] repeats(s, codes, rows, i) == (hits(codes, slots, i)
                && !hits_first(s.processed_row_ids, codes, slots, i)),
        forall|i: int|
            0 <= i < rows.len() ==> #[trigger] written(s, codes, rows, i) == goes_out(
                s.processed_row_ids,
                codes,
                slots,
                i,
            ),
        forall|i: int|
            0 <= i < rows.len() ==> #[trigger] stops(s, config, codes, rows, i) == fails(
                s.processed_row_ids,
                config,
                codes,
                slots,
                replies,
                i,
            ),
        forall|i: int|
            0 <= i < rows.len() && fails(s.processed_row_ids, config, codes, slots, replies, i)
                ==> #[trigger] stop_error(s, config, codes, rows, i) == failure(
                s.processed_row_ids,
                codes,
                slots,
                replies,
                i,
            ),
{
    assert forall|i: int| 0 <= i < rows.len() implies #[trigger] claims(codes, rows[i]) == hits(
        codes,
        slots,
        i,
    ) by {
        assert(rows[i].code == slots.actions[i]);
    }
    assert forall|i: int| 0 <= i < rows.len() implies #[trigger] first_claim(s, codes, rows, i)
        == hits_first(s.processed_row_ids, codes, slots, i) by {
        assert(claims(codes, rows[i]) == hits(codes, slots, i));
        assert(rows[i].row_id == slots.ids[i]);
        assert forall|j: int| 0 <= j < i implies #[trigger] claims(codes, rows[j]) == hits(
            codes,
            slots,
            j,
        ) && rows[j].row_id == slots.ids[j] by {}
        if first_claim(s, codes, rows, i) {
            assert forall|j: int| 0 <= j < i && #[trigger] hits(codes, slots, j) implies slots.ids[j]
                != slots.ids[i] by {
                assert(claims(codes, rows[j]));
            }
        }
        if hits_first(s.processed_row_ids, codes, slots, i) {
            assert forall|j: int| 0 <= j < i && #[trigger] claims(codes, rows[j]) implies rows[j].row_id
                != rows[i].row_id by {
                assert(hits(codes, slots, j));
            }
        }
    }
    assert forall|i: int| 0 <= i < rows.len() implies #[trigger] repeats(s, codes, rows, i) == (hits(
        codes,
        slots,
        i,
    ) && !hits_first(s.processed_row_ids, codes, slots, i)) by {
        assert(first_claim(s, codes, rows, i) == hits_first(s.processed_row_ids, codes, slots, i));
    }
    assert forall|i: int| 0 <= i < rows.len() implies #[trigger] written(s, codes, rows, i)
        == goes_out(s.processed_row_ids, codes, slots, i) by {
        assert(first_claim(s, codes, rows, i) == hits_first(s.processed_row_ids, codes, slots, i));
        assert(rows[i].code == slots.actions[i]);
        assert(rows[i].addr is Some == slots.addrs.valid[i]);
    }
    assert forall|i: int| 0 <= i < rows.len() implies #[trigger] stops(s, config, codes, rows, i)
        == fails(s.processed_row_ids, config, codes, slots, replies, i) by {
        assert(first_claim(s, codes, rows, i) == hits_first(s.processed_row_ids, codes, slots, i));
        assert(repeats(s, codes, rows, i) == (hits(codes, slots, i) && !hits_first(
            s.processed_row_ids,
            codes,
            slots,
            i,
        )));
        assert(rows[i].code == slots.actions[i]);
        assert(rows[i].reply == replies[i]);
    }
    assert forall|i: int|
        0 <= i < rows.len() && fails(
            s.processed_row_ids,
            config,
            codes,
            slots,
            replies,
            i,
        ) implies #[trigger] stop_error(s, config, codes, rows, i) == failure(
        s.processed_row_ids,
        codes,
        slots,
        replies,
        i,
    ) by {
        assert(first_claim(s, codes, rows, i) == hits_first(s.processed_row_ids, codes, slots, i));
        assert(rows[i].code == slots.actions[i]);
        assert(rows[i].reply == replies[i]);
    }
}

/// Filters that agree on what a sequence holds let the same pass.
proof fn lemma_filter_same(s: Seq<int>, p: spec_fn(int) -> bool, q: spec_fn(int) -> bool)
    requires
        forall|k: int| 0 <= k < s.len() ==> p(#[trigger] s[k]) == q(s[k]),
    ensures
        s.filter(p) == s.filter(q),
    decreases s.len(),
{
    reveal(Seq::filter);
    if s.len() > 0 {
        let front = s.drop_last();
        assert forall|k: int| 0 <= k < front.len() implies p(#[trigger] front[k]) == q(front[k]) by {
            assert(front[k] == s[k]);
        }
        lemma_filter_same(front, p, q);
        assert(p(s[s.len() - 1]) == q(s[s.len() - 1]));
    }
}

/// What a filter lets pass, the sequence holds.
proof fn lemma_filter_part(s: Seq<int>, p: spec_fn(int) -> bool)
    ensures
        forall|k: int|
            0 <= k < s.filter(p).len() ==> s.contains(#[trigger] s.filter(p)[k]) && p(
                s.filter(p)[k],
            ),
    decreases s.len(),
{
    reveal(Seq::filter);
    if s.len() > 0 {
        let front = s.drop_last();
        lemma_filter_part(front, p);
        assert forall|k: int| 0 <= k < s.filter(p).len() implies s.contains(
            #[trigger] s.filter(p)[k],
        ) && p(s.filter(p)[k]) by {
            if k < front.filter(p).len() {
                let x = front.filter(p)[k];
                assert(s.filter(p)[k] == x);
                let m = choose|m: int| 0 <= m < front.len() && front[m] == x;
                assert(s[m] == x);
            } else {
                assert(s.filter(p)[k] == s[s.len() - 1]);
            }
        }
    }
}

/// What rows do that show the slots.
proof fn lemma_rows_do_right(
    s: MergeView,
    config: MergeConfig,
    codes: ActionCodes,
    rows: Seq<RowInput>,
    slots: ControlSlots,
    replies: Seq<RowReply>,
)
    requires
        slots.wf(),
        shows_slots(rows, slots, replies),
        run_rows(s, config, codes, rows).error is None,
    ensures
        ({
            let run = run_rows(s, config, codes, rows);
            does_right(s, config, codes, slots, replies, run.kept, run.state)
        }),
{
    let run = run_rows(s, config, codes, rows);
    let kept = run.kept;
    let done = s.processed_row_ids;
    let n = slots.actions.len();
    lemma_shown(s, config, codes, rows, slots, replies);
    law_kept_rows_are_ordered(s, config, codes, rows);
    law_target_rows_are_claimed_once(s, config, codes, rows);
    law_captured_ids_follow_written_rows(s, config, codes, rows);
    assert forall|i: int| 0 <= i < n implies (#[trigger] kept.contains(i) <==> goes_out(
        done,
        codes,
        slots,
        i,
    )) by {
        assert(written(s, codes, rows, i) == goes_out(done, codes, slots, i));
    }
    assert forall|a: u64| #[trigger]
        run.state.delete_row_addrs.contains(a) <==> s.delete_row_addrs.contains(a) || exists|i: int|
            0 <= i < n && #[trigger] hits_first(done, codes, slots, i) && slots.addrs.values[i] == a by {
        if exists|i: int|
            0 <= i < n && #[trigger] hits_first(done, codes, slots, i) && slots.addrs.values[i]
                == a {
            let i = choose|i: int|
                0 <= i < n && #[trigger] hits_first(done, codes, slots, i) && slots.addrs.values[i]
                    == a;
            assert(first_claim(s, codes, rows, i));
            assert(rows[i].addr == Some(a));
        }
        if exists|j: int|
            0 <= j < rows.len() && #[trigger] first_claim(s, codes, rows, j) && rows[j].addr
                == Some(a) {
            let j = choose|j: int|
                0 <= j < rows.len() && #[trigger] first_claim(s, codes, rows, j) && rows[j].addr
                    == Some(a);
            assert(hits_first(done, codes, slots, j));
            assert(slots.addrs.values[j] == a);
        }
    }
    assert forall|id: u64| #[trigger]
        run.state.processed_row_ids.contains(id) <==> done.contains(id) || exists|i: int|
            0 <= i < n && #[trigger] hits(codes, slots, i) && slots.ids[i] == id by {
        if exists|i: int| 0 <= i < n && #[trigger] hits(codes, slots, i) && slots.ids[i] == id {
            let i = choose|i: int|
                0 <= i < n && #[trigger] hits(codes, slots, i) && slots.ids[i] == id;
            assert(claims(codes, rows[i]) && rows[i].row_id == id);
        }
        if exists|j: int|
            0 <= j < rows.len() && #[trigger] claims(codes, rows[j]) && rows[j].row_id == id {
            let j = choose|j: int|
                0 <= j < rows.len() && #[trigger] claims(codes, rows[j]) && rows[j].row_id == id;
            assert(hits(codes, slots, j) && slots.ids[j] == id);
        }
    }
    let replacing = |i: int| asks_update(codes, slots.actions[i]) && slots.addrs.valid[i];
    let adding = |i: int|
        asks_insert(codes, slots.actions[i]) && replies[i].key is Captured;
    assert forall|k: int| 0 <= k < kept.len() implies (|i: int| replaces(codes, rows[i]))(
        #[trigger] kept[k],
    ) == replacing(kept[k]) by {
        assert(rows[kept[k]].code == slots.actions[kept[k]]);
    }
    lemma_filter_same(kept, |i: int| replaces(codes, rows[i]), replacing);
    assert forall|k: int| 0 <= k < kept.len() implies (|i: int| adds_key(codes, rows[i]))(
        #[trigger] kept[k],
    ) == adding(kept[k]) by {
        assert(rows[kept[k]].code == slots.actions[kept[k]]);
        assert(rows[kept[k]].reply == replies[kept[k]]);
    }
    lemma_filter_same(kept, |i: int| adds_key(codes, rows[i]), adding);
    lemma_filter_part(kept, replacing);
    lemma_filter_part(kept, adding);
    let new_ids = kept.filter(replacing).map_values(|i: int| slots.ids[i]);
    let new_keys = kept.filter(adding).map_values(|i: int| replies[i].key->Captured_0.bytes@);
    assert(replaced_ids(codes, rows, kept) =~= new_ids);
    assert forall|k: int| 0 <= k < new_keys.len() implies added_keys(codes, rows, kept)[k]
        == #[trigger] new_keys[k] by {
        let i = kept.filter(adding)[k];
        assert(kept.contains(i));
        assert(rows[i].reply == replies[i]);
    }
    assert(added_keys(codes, rows, kept) =~= new_keys);
}

/// The rows of an action, counted among those to write.
proof fn lemma_kept_count(
    codes: ActionCodes,
    rows: Seq<RowInput>,
    kept: Seq<int>,
    action: Action,
    n: nat,
    p: spec_fn(int) -> bool,
)
    requires
        forall|k: int| 0 <= k < kept.len() ==> 0 <= #[trigger] kept[k] < n,
        forall|k: int, m: int| 0 <= k < m < kept.len() ==> kept[k] < kept[m],
        forall|i: int|
            0 <= i < n ==> (#[trigger] p(i) <==> kept.contains(i) && has_action(
                codes,
                rows[i],
                action,
            )),
    ensures
        kept_for(rows, codes, kept, action).len() == count_rows(n, p),
    decreases n,
{
    reveal(Seq::filter);
    if n > 0 {
        let m = (n - 1) as nat;
        if kept.len() > 0 && kept.last() == m {
            let front = kept.drop_last();
            assert forall|k: int| 0 <= k < front.len() implies 0 <= #[trigger] front[k] < m by {
                assert(kept[k] < kept[kept.len() - 1]);
            }
            assert forall|i: int| 0 <= i < m implies (#[trigger] p(i) <==> front.contains(i)
                && has_action(codes, rows[i], action)) by {
                if kept.contains(i) {
                    let k = choose|k: int| 0 <= k < kept.len() && kept[k] == i;
                    assert(front[k] == i);
                }
                if front.contains(i) {
                    let k = choose|k: int| 0 <= k < front.len() && front[k] == i;
                    assert(kept[k] == i);
                }
            }
            lemma_kept_count(codes, rows, front, action, m, p);
            assert(kept[kept.len() - 1] == m);
            assert(kept.contains(m as int));
            assert(p(m as int) == has_action(codes, rows[m as int], action));
        } else {
            assert forall|k: int| 0 <= k < kept.len() implies 0 <= #[trigger] kept[k] < m by {
                if k < kept.len() - 1 {
                    assert(kept[k] < kept[kept.len() - 1]);
                }
            }
            assert(!kept.contains(m as int)) by {
                if kept.contains(m as int) {
                    let k = choose|k: int| 0 <= k < kept.len() && kept[k] == m;
                    assert(kept[k] < m);
                }
            }
            assert(!p(m as int));
            lemma_kept_count(codes, rows, kept, action, m, p);
        }
    } else if kept.len() > 0 {
        let k = kept[0];
        assert(0 <= k < n);
    }
}

/// What rows count that show the slots.
proof fn lemma_rows_count_right(
    s: MergeView,
    config: MergeConfig,
    codes: ActionCodes,
    rows: Seq<RowInput>,
    slots: ControlSlots,
    replies: Seq<RowReply>,
)
    requires
        slots.wf(),
        shows_slots(rows, slots, replies),
        run_rows(s, config, codes, rows).error is None,
        has_room(s, slots.actions.len()),
    ensures
        counts_right(s, codes, slots, run_rows(s, config, codes, rows).state),
{
    let run = run_rows(s, config, codes, rows);
    let kept = run.kept;
    let done = s.processed_row_ids;
    let n = slots.actions.len();
    lemma_shown(s, config, codes, rows, slots, replies);
    law_kept_rows_are_ordered(s, config, codes, rows);
    law_target_rows_are_claimed_once(s, config, codes, rows);
    law_every_row_is_counted_once(s, config, codes, rows);
    let inserted = |i: int| asks_insert(codes, slots.actions[i]);
    let updated = |i: int|
        asks_update(codes, slots.actions[i]) && (!slots.addrs.valid[i] || hits_first(
            done,
            codes,
            slots,
            i,
        ));
    let deleted = |i: int| asks_delete(codes, slots.actions[i]) && hits_first(done, codes, slots, i);
    let skipped = |i: int| hits(codes, slots, i) && !hits_first(done, codes, slots, i);
    assert forall|i: int| 0 <= i < n implies (#[trigger] inserted(i) <==> kept.contains(i)
        && has_action(codes, rows[i], Action::Insert)) by {
        assert(written(s, codes, rows, i) == goes_out(done, codes, slots, i));
        assert(rows[i].code == slots.actions[i]);
    }
    lemma_kept_count(codes, rows, kept, Action::Insert, n, inserted);
    assert forall|i: int| 0 <= i < n implies (#[trigger] updated(i) <==> kept.contains(i)
        && has_action(codes, rows[i], Action::UpdateAll)) by {
        assert(written(s, codes, rows, i) == goes_out(done, codes, slots, i));
        assert(rows[i].code == slots.actions[i]);
    }
    lemma_kept_count(codes, rows, kept, Action::UpdateAll, n, updated);
    let counted = |i: int|
        has_action(codes, rows[i], Action::Delete) && first_claim(s, codes, rows, i);
    assert forall|i: int| 0 <= i < n implies #[trigger] counted(i) == deleted(i) by {
        assert(first_claim(s, codes, rows, i) == hits_first(done, codes, slots, i));
        assert(rows[i].code == slots.actions[i]);
    }
    lemma_count_same(n, counted, deleted);
    let repeated = |i: int| repeats(s, codes, rows, i);
    lemma_count_same(n, repeated, skipped);
}

/// The batch goes through exactly if no row fails; otherwise the first row that
/// does gives the error, and what the rows before it ask for has been done.
pub open spec fn ends_right(
    before: MergeView,
    config: MergeConfig,
    codes: ActionCodes,
    slots: ControlSlots,
    replies: Seq<RowReply>,
    error: Option<MergeError>,
    after: MergeView,
) -> bool {
    let done = before.processed_row_ids;
    &&& error is None <==> forall|i: int|
        0 <= i < slots.actions.len() ==> !#[trigger] fails(done, config, codes, slots, replies, i)
    &&& error is Some ==> exists|m: int|
        {
            &&& 0 <= m < slots.actions.len()
            &&& #[trigger] fails(done, config, codes, slots, replies, m)
            &&& forall|j: int| 0 <= j < m ==> !#[trigger] fails(done, config, codes, slots, replies, j)
            &&& error == Some(failure(done, codes, slots, replies, m))
            &&& stopped_right(before, config, codes, slots, replies, m, after)
        }
}

/// What has been done where row `m` is the first to fail. A row whose id cannot
/// be captured has taken its target row away by then.
pub open spec fn stopped_right(
    before: MergeView,
    config: MergeConfig,
    codes: ActionCodes,
    slots: ControlSlots,
    replies: Seq<RowReply>,
    m: int,
    after: MergeView,
) -> bool {
    exists|reached: MergeView, kept: Seq<int>|
        {
            &&& #[trigger] does_right(
                before,
                config,
                codes,
                first_slots(slots, m),
                replies,
                kept,
                reached,
            )
            &&& has_room(before, m as nat) ==> counts_right(
                before,
                codes,
                first_slots(slots, m),
                reached,
            )
            &&& after == (if asks_update(codes, slots.actions[m]) && hits_first(
                before.processed_row_ids,
                codes,
                slots,
                m,
            ) {
                MergeView {
                    delete_row_addrs: reached.delete_row_addrs.insert(slots.addrs.values[m]),
                    processed_row_ids: reached.processed_row_ids.insert(slots.ids[m]),
                    ..reached
                }
            } else {
                reached
            })
        }
}

/// Rows that come later do not matter to those before them.
proof fn lemma_first_slots(
    done: Set<u64>,
    config: MergeConfig,
    codes: ActionCodes,
    slots: ControlSlots,
    replies: Seq<RowReply>,
    n: int,
)
    requires
        slots.wf(),
        0 <= n <= slots.actions.len(),
    ensures
        first_slots(slots, n).wf(),
        forall|i: int|
            0 <= i < n ==> #[trigger] hits_first(done, codes, first_slots(slots, n), i)
                == hits_first(done, codes, slots, i),
        forall|i: int|
            0 <= i < n ==> #[trigger] fails(
                done,
                config,
                codes,
                first_slots(slots, n),
                replies,
                i,
            ) == fails(done, config, codes, slots, replies, i),
{
    let first = first_slots(slots, n);
    assert forall|i: int| 0 <= i < n implies #[trigger] hits(codes, first, i) == hits(
        codes,
        slots,
        i,
    ) by {}
    assert forall|i: int| 0 <= i < n implies #[trigger] hits_first(done, codes, first, i)
        == hits_first(done, codes, slots, i) by {
        assert(hits(codes, first, i) == hits(codes, slots, i));
        if hits_first(done, codes, first, i) {
            assert forall|j: int| 0 <= j < i && #[trigger] hits(codes, slots, j) implies slots.ids[j]
                != slots.ids[i] by {
                assert(hits(codes, first, j));
            }
        }
        if hits_first(done, codes, slots, i) {
            assert forall|j: int| 0 <= j < i && #[trigger] hits(codes, first, j) implies first.ids[j]
                != first.ids[i] by {
                assert(hits(codes, slots, j));
            }
        }
    }
    assert forall|i: int| 0 <= i < n implies #[trigger] fails(
        done,
        config,
        codes,
        first,
        replies,
        i,
    ) == fails(done, config, codes, slots, replies, i) by {
        assert(hits(codes, first, i) == hits(codes, slots, i));
        assert(hits_first(done, codes, first, i) == hits_first(done, codes, slots, i));
    }
}

/// Where processing rows ends that show the slots.
proof fn lemma_rows_end_right(
    s: MergeView,
    config: MergeConfig,
    codes: ActionCodes,
    rows: Seq<RowInput>,
    slots: ControlSlots,
    replies: Seq<RowReply>,
)
    requires
        slots.wf(),
        shows_slots(rows, slots, replies),
    ensures
        ({
            let run = run_rows(s, config, codes, rows);
            ends_right(s, config, codes, slots, replies, run.error, run.state)
        }),
{
    let run = run_rows(s, config, codes, rows);
    let done = s.processed_row_ids;
    lemma_shown(s, config, codes, rows, slots, replies);
    law_merge_stops_at_first_bad_row(s, config, codes, rows);
    if run.error is None {
        assert forall|i: int| 0 <= i < slots.actions.len() implies !#[trigger] fails(
            done,
            config,
            codes,
            slots,
            replies,
            i,
        ) by {
            assert(!stops(s, config, codes, rows, i));
        }
    } else {
        let m = choose|m: int|
            {
                &&& 0 <= m < rows.len()
                &&& #[trigger] stops(s, config, codes, rows, m)
                &&& forall|j: int| 0 <= j < m ==> !(#[trigger] stops(s, config, codes, rows, j))
                &&& run.error == Some(stop_error(s, config, codes, rows, m))
                &&& uncaptured(s, config, codes, rows, m) || run.state == run_rows(
                    s,
                    config,
                    codes,
                    rows.take(m),
                ).state
            };
        assert(fails(done, config, codes, slots, replies, m));
        assert(stop_error(s, config, codes, rows, m) == failure(done, codes, slots, replies, m));
        assert forall|j: int| 0 <= j < m implies !#[trigger] fails(
            done,
            config,
            codes,
            slots,
            replies,
            j,
        ) by {
            assert(!stops(s, config, codes, rows, j));
        }
        let front = rows.take(m);
        let first = first_slots(slots, m);
        let before = run_rows(s, config, codes, front);
        lemma_first_slots(done, config, codes, slots, replies, m);
        lemma_shown(s, config, codes, front, first, replies);
        law_merge_stops_at_first_bad_row(s, config, codes, front);
        assert forall|j: int| 0 <= j < m implies !#[trigger] stops(s, config, codes, front, j) by {
            assert(!fails(done, config, codes, first, replies, j)) by {
                assert(!fails(done, config, codes, slots, replies, j));
            }
        }
        assert(before.error is None);
        lemma_rows_do_right(s, config, codes, front, first, replies);
        if has_room(s, m as nat) {
            lemma_rows_count_right(s, config, codes, front, first, replies);
        }
        let upto = rows.take(m + 1);
        lemma_first_slots(done, config, codes, slots, replies, m + 1);
        lemma_shown(s, config, codes, upto, first_slots(slots, m + 1), replies);
        law_merge_stops_at_first_bad_row(s, config, codes, upto);
        assert(fails(done, config, codes, first_slots(slots, m + 1), replies, m));
        assert(stops(s, config, codes, upto, m));
        assert(run_rows(s, config, codes, upto).error is Some);
        lemma_stopped_run_stays(s, config, codes, rows, m + 1);
        assert(upto.drop_last() =~= front);
        assert(upto.last() == rows[m]);
        assert(first_claim(s, codes, rows, m) == hits_first(done, codes, slots, m));
        assert(stopped_right(s, config, codes, slots, replies, m, run.state));
    }
}

/// The list names the rows below `n` that satisfy `p`, in order.
pub open spec fn lists_rows(list: Seq<u32>, n: nat, p: spec_fn(int) -> bool) -> bool {
    &&& forall|k: int| 0 <= k < list.len() ==> 0 <= #[trigger] list[k] < n && p(list[k] as int)
    &&& forall|k: int, m: int| 0 <= k < m < list.len() ==> list[k] < list[m]
    &&& forall|i: int| 0 <= i < n && #[trigger] p(i) ==> list.contains(i as u32)
}

/// The rows to write, by their numbers. Rows past what 32 bits can number are not
/// spoken of.
pub open spec fn lists_right(
    before: MergeView,
    codes: ActionCodes,
    slots: ControlSlots,
    keep: Seq<u32>,
) -> bool {
    slots.actions.len() <= 0x1_0000_0000 ==> lists_rows(
        keep,
        slots.actions.len(),
        |i: int| goes_out(before.processed_row_ids, codes, slots, i),
    )
}

/// The rows to write, by their numbers, the updated ones apart from the inserted
/// ones.
pub open spec fn splits_right(
    before: MergeView,
    codes: ActionCodes,
    slots: ControlSlots,
    updates: Seq<u32>,
    inserts: Seq<u32>,
) -> bool {
    slots.actions.len() <= 0x1_0000_0000 ==> {
        &&& lists_rows(
            updates,
            slots.actions.len(),
            |i: int|
                asks_update(codes, slots.actions[i]) && goes_out(
                    before.processed_row_ids,
                    codes,
                    slots,
                    i,
                ),
        )
        &&& lists_rows(
            inserts,
            slots.actions.len(),
            |i: int| asks_insert(codes, slots.actions[i]),
        )
    }
}

/// Rows in order, by their numbers.
proof fn lemma_lists(kept: Seq<int>, n: nat, p: spec_fn(int) -> bool)
    requires
        n <= 0x1_0000_0000,
        forall|k: int| 0 <= k < kept.len() ==> 0 <= #[trigger] kept[k] < n,
        forall|k: int, m: int| 0 <= k < m < kept.len() ==> kept[k] < kept[m],
        forall|i: int| 0 <= i < n ==> (#[trigger] p(i) <==> kept.contains(i)),
    ensures
        lists_rows(row_numbers(kept), n, p),
{
    let list = row_numbers(kept);
    assert forall|k: int| 0 <= k < kept.len() implies #[trigger] list[k] == kept[k] by {
        lemma_cut_is_not_larger(kept[k] as nat);
    }
    assert forall|k: int| 0 <= k < list.len() implies 0 <= #[trigger] list[k] < n && p(
        list[k] as int,
    ) by {
        assert(list[k] == kept[k]);
        assert(kept.contains(kept[k]));
        assert(p(kept[k]));
    }
    assert forall|i: int| 0 <= i < n && #[trigger] p(i) implies list.contains(i as u32) by {
        let k = choose|k: int| 0 <= k < kept.len() && kept[k] == i;
        assert(list[k] == kept[k]);
    }
}

/// The lists of rows to write, where the rows show the slots.
proof fn lemma_rows_list_right(
    s: MergeView,
    config: MergeConfig,
    codes: ActionCodes,
    rows: Seq<RowInput>,
    slots: ControlSlots,
    replies: Seq<RowReply>,
)
    requires
        slots.wf(),
        shows_slots(rows, slots, replies),
        run_rows(s, config, codes, rows).error is None,
    ensures
        ({
            let kept = run_rows(s, config, codes, rows).kept;
            &&& lists_right(s, codes, slots, row_numbers(kept))
            &&& splits_right(
                s,
                codes,
                slots,
                row_numbers(kept_for(rows, codes, kept, Action::UpdateAll)),
                row_numbers(kept_for(rows, codes, kept, Action::Insert)),
            )
        }),
{
    let kept = run_rows(s, config, codes, rows).kept;
    let n = slots.actions.len();
    let done = s.processed_row_ids;
    if n <= 0x1_0000_0000 {
        lemma_rows_do_right(s, config, codes, rows, slots, replies);
        let out = |i: int| goes_out(done, codes, slots, i);
        assert forall|i: int| 0 <= i < n implies (#[trigger] out(i) <==> kept.contains(i)) by {
            assert(kept.contains(i) <==> goes_out(done, codes, slots, i));
        }
        lemma_lists(kept, n, out);
        law_kept_rows_split_by_action(s, config, codes, rows);
        let updates = kept_for(rows, codes, kept, Action::UpdateAll);
        let inserts = kept_for(rows, codes, kept, Action::Insert);
        let updated = |i: int|
            asks_update(codes, slots.actions[i]) && goes_out(done, codes, slots, i);
        let inserted = |i: int| asks_insert(codes, slots.actions[i]);
        assert forall|i: int| 0 <= i < n implies (#[trigger] updated(i) <==> updates.contains(i)) by {
            lemma_filter_contains(rows, codes, kept, Action::UpdateAll, i);
            assert(kept.contains(i) <==> goes_out(done, codes, slots, i));
            assert(rows[i].code == slots.actions[i]);
        }
        assert forall|i: int| 0 <= i < n implies (#[trigger] inserted(i) <==> inserts.contains(i)) by {
            lemma_filter_contains(rows, codes, kept, Action::Insert, i);
            assert(kept.contains(i) <==> goes_out(done, codes, slots, i));
            assert(rows[i].code == slots.actions[i]);
        }
        assert forall|k: int| 0 <= k < updates.len() implies 0 <= #[trigger] updates[k] < n by {
            assert(updates.contains(updates[k]));
            assert(kept.contains(updates[k]));
        }
        assert forall|k: int| 0 <= k < inserts.len() implies 0 <= #[trigger] inserts[k] < n by {
            assert(inserts.contains(inserts[k]));
            assert(kept.contains(inserts[k]));
        }
        lemma_lists(updates, n, updated);
        lemma_lists(inserts, n, inserted);
    }
}

/// What processing rows does, in terms of the slots of their control columns.
///
/// A row matches a target row exactly if its slot of addresses counts, whatever
/// address stands there. If no row fails, the target rows that go away are those
/// at the addresses of the rows that are the first to delete or replace the target
/// row with their id; the rows to write are the inserted ones, the updated ones
/// without a target row and those that are the first to replace theirs; captured
/// ids, keys and counters follow them. Otherwise the first row that fails gives the
/// error.
pub proof fn law_rows_follow_their_slots(
    before: MergeView,
    config: MergeConfig,
    codes: ActionCodes,
    rows: ControlRows,
    replies: Seq<RowReply>,
)
    requires
        rows.row_addrs.values@.len() == rows.actions@.len(),
        rows.row_addrs.valid@.len() == rows.actions@.len(),
        rows.row_ids.values@.len() == rows.actions@.len(),
        replies.len() == rows.actions@.len(),
    ensures
        ({
            let slots = ControlSlots {
                addrs: UInt64Model { values: rows.row_addrs.values@, valid: rows.row_addrs.valid@ },
                ids: rows.row_ids.values@,
                actions: rows.actions@,
            };
            let all = rows.rows(replies);
            let run = run_rows(before, config, codes, all);
            let updates = kept_for(all, codes, run.kept, Action::UpdateAll);
            let inserts = kept_for(all, codes, run.kept, Action::Insert);
            &&& ends_right(before, config, codes, slots, replies, run.error, run.state)
            &&& run.error is None ==> {
                &&& does_right(before, config, codes, slots, replies, run.kept, run.state)
                &&& has_room(before, slots.actions.len()) ==> counts_right(
                    before,
                    codes,
                    slots,
                    run.state,
                )
                &&& lists_right(before, codes, slots, row_numbers(run.kept))
                &&& splits_right(
                    before,
                    codes,
                    slots,
                    row_numbers(updates),
                    row_numbers(inserts),
                )
            }
        }),
{
    let slots = ControlSlots {
        addrs: UInt64Model { values: rows.row_addrs.values@, valid: rows.row_addrs.valid@ },
        ids: rows.row_ids.values@,
        actions: rows.actions@,
    };
    let all = rows.rows(replies);
    assert(shows_slots(all, slots, replies));
    lemma_rows_end_right(before, config, codes, all, slots, replies);
    if run_rows(before, config, codes, all).error is None {
        lemma_rows_do_right(before, config, codes, all, slots, replies);
        lemma_rows_list_right(before, config, codes, all, slots, replies);
        if has_room(before, slots.actions.len()) {
            lemma_rows_count_right(before, config, codes, all, slots, replies);
        }
    }
}

/// What processing the rows of a batch does, in terms of the slots of its
/// `_rowaddr`, `_rowid` and `__action` columns.
pub proof fn law_batch_follows_its_slots(
    before: MergeView,
    config: MergeConfig,
    codes: ActionCodes,
    ctx: WriteStreamContext,
    batch: Batch,
    replies: Seq<RowReply>,
    addrs: UInt64Model,
    ids: UInt64Model,
    actions: Seq<u8>,
)
    requires
        batch_columns(batch)[ctx.rowaddr_idx as int].uint64 == Some(addrs),
        batch_columns(batch)[ctx.rowid_idx as int].uint64 == Some(ids),
        batch_columns(batch)[ctx.action_idx as int].uint8 == Some(actions),
        addrs.values.len() == batch_rows(batch),
        addrs.valid.len() == batch_rows(batch),
        ids.values.len() == batch_rows(batch),
        actions.len() == batch_rows(batch),
        replies.len() == batch_rows(batch),
    ensures
        ({
            let slots = ControlSlots { addrs, ids: ids.values, actions };
            let all = batch_row_inputs(ctx, batch, replies);
            let run = run_rows(before, config, codes, all);
            let updates = kept_for(all, codes, run.kept, Action::UpdateAll);
            let inserts = kept_for(all, codes, run.kept, Action::Insert);
            &&& ends_right(before, config, codes, slots, replies, run.error, run.state)
            &&& run.error is None ==> {
                &&& does_right(before, config, codes, slots, replies, run.kept, run.state)
                &&& has_room(before, slots.actions.len()) ==> counts_right(
                    before,
                    codes,
                    slots,
                    run.state,
                )
                &&& lists_right(before, codes, slots, row_numbers(run.kept))
                &&& splits_right(
                    before,
                    codes,
                    slots,
                    row_numbers(updates),
                    row_numbers(inserts),
                )
            }
        }),
{
    let slots = ControlSlots { addrs, ids: ids.values, actions };
    let all = batch_row_inputs(ctx, batch, replies);
    assert(shows_slots(all, slots, replies));
    lemma_rows_end_right(before, config, codes, all, slots, replies);
    if run_rows(before, config, codes, all).error is None {
        lemma_rows_do_right(before, config, codes, all, slots, replies);
        lemma_rows_list_right(before, config, codes, all, slots, replies);
        if has_room(before, slots.actions.len()) {
            lemma_rows_count_right(before, config, codes, all, slots, replies);
        }
    }
}

/// After a batch that goes through, the target row goes away at the address of
/// every row that is to delete or replace one and is the first with its id; and no
/// target row goes away but at such an address, or where it had gone before.
pub proof fn law_matched_rows_go_away(
    before: MergeView,
    config: MergeConfig,
    codes: ActionCodes,
    ctx: WriteStreamContext,
    batch: Batch,
    replies: Seq<RowReply>,
    addrs: UInt64Model,
    ids: UInt64Model,
    actions: Seq<u8>,
)
    requires
        codes.nothing != codes.update_all,
        codes.nothing != codes.delete,
        codes.update_all != codes.delete,
        codes.insert != codes.delete,
        batch_columns(batch)[ctx.rowaddr_idx as int].uint64 == Some(addrs),
        batch_columns(batch)[ctx.rowid_idx as int].uint64 == Some(ids),
        batch_columns(batch)[ctx.action_idx as int].uint8 == Some(actions),
        addrs.values.len() == batch_rows(batch),
        addrs.valid.len() == batch_rows(batch),
        ids.values.len() == batch_rows(batch),
        actions.len() == batch_rows(batch),
        replies.len() == batch_rows(batch),
        run_rows(before, config, codes, batch_row_inputs(ctx, batch, replies)).error is None,
    ensures
        ({
            let after = run_rows(
                before,
                config,
                codes,
                batch_row_inputs(ctx, batch, replies),
            ).state;
            &&& forall|i: int|
                0 <= i < batch_rows(batch) && #[trigger] addrs.valid[i] && (actions[i]
                    == codes.update_all || actions[i] == codes.delete)
                    && !before.processed_row_ids.contains(ids.values[i]) && (forall|j: int|
                    0 <= j < i ==> #[trigger] ids.values[j] != ids.values[i])
                    ==> after.delete_row_addrs.contains(addrs.values[i])
            &&& forall|a: u64| #[trigger]
                after.delete_row_addrs.contains(a) ==> before.delete_row_addrs.contains(a)
                    || exists|i: int|
                    0 <= i < batch_rows(batch) && #[trigger] addrs.valid[i] && addrs.values[i] == a
                        && (actions[i] == codes.update_all || actions[i] == codes.delete)
        }),
{
    law_batch_follows_its_slots(
        before,
        config,
        codes,
        ctx,
        batch,
        replies,
        addrs,
        ids,
        actions,
    );
    let slots = ControlSlots { addrs, ids: ids.values, actions };
    let after = run_rows(before, config, codes, batch_row_inputs(ctx, batch, replies)).state;
    let done = before.processed_row_ids;
    assert forall|i: int|
        0 <= i < batch_rows(batch) && #[trigger] addrs.valid[i] && (actions[i] == codes.update_all
            || actions[i] == codes.delete) && !done.contains(ids.values[i]) && (forall|j: int|
            0 <= j < i ==> #[trigger] ids.values[j]
                != ids.values[i]) implies after.delete_row_addrs.contains(addrs.values[i]) by {
        assert(hits_first(done, codes, slots, i));
    }
    assert forall|a: u64| #[trigger]
        after.delete_row_addrs.contains(a) implies before.delete_row_addrs.contains(a)
        || exists|i: int|
        0 <= i < batch_rows(batch) && #[trigger] addrs.valid[i] && addrs.values[i] == a && (
        actions[i] == codes.update_all || actions[i] == codes.delete) by {
        if !before.delete_row_addrs.contains(a) {
            let i = choose|i: int|
                0 <= i < batch_rows(batch) && #[trigger] hits_first(done, codes, slots, i)
                    && slots.addrs.values[i] == a;
            assert(addrs.valid[i]);
        }
    }
}

/// The control columns of a batch can be read exactly if `_rowaddr` and `_rowid`
/// hold unsigned numbers of 64 bits and `__action` such of 8 bits. The first one that
/// does not is the error.
pub proof fn law_control_columns_have_to_be_of_their_types(ctx: WriteStreamContext, batch: Batch)
    ensures
        ({
            let addrs = batch_columns(batch)[ctx.rowaddr_idx as int].uint64;
            let ids = batch_columns(batch)[ctx.rowid_idx as int].uint64;
            let actions = batch_columns(batch)[ctx.action_idx as int].uint8;
            let error = control_error(ctx, batch);
            &&& error is None <==> addrs is Some && ids is Some && actions is Some
            &&& addrs is None ==> error == Some(
                MergeError::WrongColumnType { column: ControlColumn::RowAddr },
            )
            &&& addrs is Some && ids is None ==> error == Some(
                MergeError::WrongColumnType { column: ControlColumn::RowId },
            )
            &&& addrs is Some && ids is Some && actions is None ==> error == Some(
                MergeError::WrongColumnType { column: ControlColumn::Action },
            )
        }),
{
}

} // verus!
