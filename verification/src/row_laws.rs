//! What holds of the rows of every merge.

use crate::action::{Action, ActionCodes};
use crate::error::MergeError;
use crate::merge_state::{MergeConfig, MergeView};
use crate::rows::{kept_for, run_rows, RowInput};
use vstd::prelude::*;

verus! {

/// The row has this action.
pub open spec fn has_action(codes: ActionCodes, row: RowInput, action: Action) -> bool {
    codes.action_of(row.code) == Some(action)
}

/// The row deletes or replaces a target row.
pub open spec fn claims(codes: ActionCodes, row: RowInput) -> bool {
    &&& has_action(codes, row, Action::Delete) || has_action(codes, row, Action::UpdateAll)
    &&& row.addr is Some
}

/// Row `i` is the first one to delete or replace its target row.
pub open spec fn first_claim(
    s: MergeView,
    codes: ActionCodes,
    rows: Seq<RowInput>,
    i: int,
) -> bool {
    &&& claims(codes, rows[i])
    &&& !s.processed_row_ids.contains(rows[i].row_id)
    &&& forall|j: int|
        0 <= j < i && #[trigger] claims(codes, rows[j]) ==> rows[j].row_id != rows[i].row_id
}

/// Row `i` deletes or replaces a target row that an earlier row already did.
pub open spec fn repeats(s: MergeView, codes: ActionCodes, rows: Seq<RowInput>, i: int) -> bool {
    claims(codes, rows[i]) && !first_claim(s, codes, rows, i)
}

/// Row `i` replaces a target row whose id is to be captured and cannot be.
pub open spec fn uncaptured(
    s: MergeView,
    config: MergeConfig,
    codes: ActionCodes,
    rows: Seq<RowInput>,
    i: int,
) -> bool {
    &&& config.stable_row_ids
    &&& has_action(codes, rows[i], Action::UpdateAll)
    &&& first_claim(s, codes, rows, i)
    &&& rows[i].reply.capture_error is Some
}

/// Row `i` cannot be processed.
pub open spec fn stops(
    s: MergeView,
    config: MergeConfig,
    codes: ActionCodes,
    rows: Seq<RowInput>,
    i: int,
) -> bool {
    ||| codes.action_of(rows[i].code) is None
    ||| has_action(codes, rows[i], Action::Fail)
    ||| has_action(codes, rows[i], Action::Insert) && rows[i].reply.key is Rejected
    ||| config.dedupe is Fail && repeats(s, codes, rows, i)
    ||| uncaptured(s, config, codes, rows, i)
}

/// The error of row `i` where it cannot be processed.
pub open spec fn stop_error(
    s: MergeView,
    config: MergeConfig,
    codes: ActionCodes,
    rows: Seq<RowInput>,
    i: int,
) -> MergeError {
    let row = rows[i];
    match codes.action_of(row.code) {
        None => MergeError::InvalidActionCode { code: row.code },
        Some(Action::Fail) => MergeError::MatchedRow { row_idx: i as usize },
        Some(Action::Insert) => MergeError::KeyRejected { reason: row.reply.key->Rejected_0 },
        _ => if uncaptured(s, config, codes, rows, i) {
            MergeError::CaptureRefused { reason: row.reply.capture_error->0 }
        } else {
            MergeError::DuplicateSourceRow { row_idx: i as usize }
        },
    }
}

/// Row `i` is written.
pub open spec fn written(s: MergeView, codes: ActionCodes, rows: Seq<RowInput>, i: int) -> bool {
    ||| has_action(codes, rows[i], Action::Insert)
    ||| has_action(codes, rows[i], Action::UpdateAll) && (rows[i].addr is None || first_claim(
        s,
        codes,
        rows,
        i,
    ))
}

/// The row replaces a target row.
pub open spec fn replaces(codes: ActionCodes, row: RowInput) -> bool {
    has_action(codes, row, Action::UpdateAll) && row.addr is Some
}

/// The row is inserted and has a key.
pub open spec fn adds_key(codes: ActionCodes, row: RowInput) -> bool {
    has_action(codes, row, Action::Insert) && row.reply.key is Captured
}

/// Cutting off the last row changes nothing about the rows before it.
proof fn lemma_prefix(
    s: MergeView,
    config: MergeConfig,
    codes: ActionCodes,
    rows: Seq<RowInput>,
)
    requires
        rows.len() > 0,
    ensures
        forall|i: int|
            0 <= i < rows.len() - 1 ==> #[trigger] first_claim(s, codes, rows, i) == first_claim(
                s,
                codes,
                rows.drop_last(),
                i,
            ),
        forall|i: int|
            0 <= i < rows.len() - 1 ==> #[trigger] stops(s, config, codes, rows, i) == stops(
                s,
                config,
                codes,
                rows.drop_last(),
                i,
            ),
        forall|i: int|
            0 <= i < rows.len() - 1 ==> #[trigger] written(s, codes, rows, i) == written(
                s,
                codes,
                rows.drop_last(),
                i,
            ),
        forall|i: int|
            0 <= i < rows.len() - 1 ==> #[trigger] repeats(s, codes, rows, i) == repeats(
                s,
                codes,
                rows.drop_last(),
                i,
            ),
{
    let front = rows.drop_last();
    assert forall|i: int| 0 <= i < rows.len() - 1 implies #[trigger] first_claim(
        s,
        codes,
        rows,
        i,
    ) == first_claim(s, codes, front, i) by {
        assert(front[i] == rows[i]);
        assert forall|j: int| 0 <= j < i implies front[j] == rows[j] by {}
        if first_claim(s, codes, rows, i) {
            assert forall|j: int| 0 <= j < i && #[trigger] claims(codes, front[j]) implies front[j].row_id
                != front[i].row_id by {
                assert(claims(codes, rows[j]));
            }
        }
        if first_claim(s, codes, front, i) {
            assert forall|j: int| 0 <= j < i && #[trigger] claims(codes, rows[j]) implies rows[j].row_id
                != rows[i].row_id by {
                assert(claims(codes, front[j]));
            }
        }
    }
}

/// The rows to write are listed in order, each once.
pub proof fn law_kept_rows_are_ordered(
    s: MergeView,
    config: MergeConfig,
    codes: ActionCodes,
    rows: Seq<RowInput>,
)
    ensures
        ({
            let kept = run_rows(s, config, codes, rows).kept;
            &&& forall|i: int| 0 <= i < kept.len() ==> 0 <= #[trigger] kept[i] < rows.len()
            &&& forall|i: int, j: int| 0 <= i < j < kept.len() ==> kept[i] < kept[j]
        }),
    decreases rows.len(),
{
    if rows.len() > 0 {
        law_kept_rows_are_ordered(s, config, codes, rows.drop_last());
    }
}

/// In a merge that goes through, each target row is deleted or replaced by the
/// first source row that matches it and by no other. A row is written exactly
/// if it is inserted, or replaces a target row as the first to do so, or is an
/// update without a target row. The addresses that go away are those of the
/// target rows that were deleted or replaced. Where duplicates fail the merge,
/// there were none.
pub proof fn law_target_rows_are_claimed_once(
    s: MergeView,
    config: MergeConfig,
    codes: ActionCodes,
    rows: Seq<RowInput>,
)
    requires
        run_rows(s, config, codes, rows).error is None,
    ensures
        ({
            let run = run_rows(s, config, codes, rows);
            &&& forall|i: int|
                0 <= i < rows.len() ==> (run.kept.contains(i) <==> #[trigger] written(
                    s,
                    codes,
                    rows,
                    i,
                ))
            &&& forall|id: u64| #[trigger]
                run.state.processed_row_ids.contains(id) <==> s.processed_row_ids.contains(id) || (
                exists|j: int|
                    0 <= j < rows.len() && #[trigger] claims(codes, rows[j]) && rows[j].row_id
                        == id)
            &&& forall|a: u64| #[trigger]
                run.state.delete_row_addrs.contains(a) <==> s.delete_row_addrs.contains(a) || (
                exists|j: int|
                    0 <= j < rows.len() && #[trigger] first_claim(s, codes, rows, j)
                        && rows[j].addr == Some(a))
            &&& config.dedupe is Fail ==> forall|i: int|
                0 <= i < rows.len() ==> !(#[trigger] repeats(s, codes, rows, i))
        }),
    decreases rows.len(),
{
    if rows.len() > 0 {
        let front = rows.drop_last();
        let n = rows.len() - 1;
        let before = run_rows(s, config, codes, front);
        let run = run_rows(s, config, codes, rows);
        law_target_rows_are_claimed_once(s, config, codes, front);
        law_kept_rows_are_ordered(s, config, codes, front);
        lemma_prefix(s, config, codes, rows);
        let row = rows[n];
        assert(rows.last() == row);
        assert(claims(codes, row) ==> (first_claim(s, codes, rows, n)
            <==> !before.state.processed_row_ids.contains(row.row_id))) by {
            if claims(codes, row) {
                if before.state.processed_row_ids.contains(row.row_id) {
                    if !s.processed_row_ids.contains(row.row_id) {
                        let j = choose|j: int|
                            0 <= j < front.len() && #[trigger] claims(codes, front[j])
                                && front[j].row_id == row.row_id;
                        assert(claims(codes, rows[j]));
                    }
                } else {
                    assert forall|j: int| 0 <= j < n && #[trigger] claims(codes, rows[j]) implies rows[j].row_id
                        != row.row_id by {
                        assert(claims(codes, front[j]));
                    }
                }
            }
        }
        assert forall|i: int| 0 <= i < rows.len() implies (run.kept.contains(i)
            <==> #[trigger] written(s, codes, rows, i)) by {
            if i < n {
                assert(written(s, codes, front, i) == written(s, codes, rows, i));
                if before.kept.contains(i) {
                    let k = choose|k: int| 0 <= k < before.kept.len() && before.kept[k] == i;
                    assert(run.kept[k] == i);
                }
                if run.kept.contains(i) {
                    let k = choose|k: int| 0 <= k < run.kept.len() && run.kept[k] == i;
                    assert(k < before.kept.len());
                    assert(before.kept[k] == i);
                }
            } else {
                if run.kept.len() > before.kept.len() {
                    assert(run.kept[run.kept.len() - 1] == n);
                }
                if run.kept.contains(i) {
                    let k = choose|k: int| 0 <= k < run.kept.len() && run.kept[k] == i;
                    assert(k >= before.kept.len());
                }
            }
        }
        assert forall|id: u64| #[trigger]
            run.state.processed_row_ids.contains(id) <==> s.processed_row_ids.contains(id) || (
            exists|j: int|
                0 <= j < rows.len() && #[trigger] claims(codes, rows[j]) && rows[j].row_id == id) by {
            if run.state.processed_row_ids.contains(id) {
                if before.state.processed_row_ids.contains(id) {
                    if !s.processed_row_ids.contains(id) {
                        let j = choose|j: int|
                            0 <= j < front.len() && #[trigger] claims(codes, front[j])
                                && front[j].row_id == id;
                        assert(claims(codes, rows[j]));
                    }
                } else {
                    assert(claims(codes, rows[n]));
                }
            }
            if exists|j: int|
                0 <= j < rows.len() && #[trigger] claims(codes, rows[j]) && rows[j].row_id == id {
                let j = choose|j: int|
                    0 <= j < rows.len() && #[trigger] claims(codes, rows[j]) && rows[j].row_id
                        == id;
                if j < n {
                    assert(claims(codes, front[j]));
                }
            }
        }
        assert forall|a: u64| #[trigger]
            run.state.delete_row_addrs.contains(a) <==> s.delete_row_addrs.contains(a) || (exists|
            j: int,
        |
            0 <= j < rows.len() && #[trigger] first_claim(s, codes, rows, j) && rows[j].addr
                == Some(a)) by {
            if run.state.delete_row_addrs.contains(a) {
                if before.state.delete_row_addrs.contains(a) {
                    if !s.delete_row_addrs.contains(a) {
                        let j = choose|j: int|
                            0 <= j < front.len() && #[trigger] first_claim(s, codes, front, j)
                                && front[j].addr == Some(a);
                        assert(first_claim(s, codes, rows, j));
                    }
                } else {
                    assert(first_claim(s, codes, rows, n));
                }
            }
            if exists|j: int|
                0 <= j < rows.len() && #[trigger] first_claim(s, codes, rows, j) && rows[j].addr
                    == Some(a) {
                let j = choose|j: int|
                    0 <= j < rows.len() && #[trigger] first_claim(s, codes, rows, j)
                        && rows[j].addr == Some(a);
                if j < n {
                    assert(first_claim(s, codes, front, j));
                }
            }
        }
        if config.dedupe is Fail {
            assert forall|i: int| 0 <= i < rows.len() implies !(#[trigger] repeats(
                s,
                codes,
                rows,
                i,
            )) by {
                if i < n {
                    assert(!repeats(s, codes, front, i));
                }
            }
        }
    }
}

/// A merge goes through exactly if every row can be processed. Otherwise it
/// stops at the first row that cannot, with that row's error, and has done
/// what the rows before it ask for; where the id of a replaced row cannot be
/// captured, that row counts as processed too.
pub proof fn law_merge_stops_at_first_bad_row(
    s: MergeView,
    config: MergeConfig,
    codes: ActionCodes,
    rows: Seq<RowInput>,
)
    ensures
        ({
            let run = run_rows(s, config, codes, rows);
            &&& run.error is None <==> forall|i: int|
                0 <= i < rows.len() ==> !(#[trigger] stops(s, config, codes, rows, i))
            &&& run.error is Some ==> exists|m: int|
                {
                    &&& 0 <= m < rows.len()
                    &&& #[trigger] stops(s, config, codes, rows, m)
                    &&& forall|j: int|
                        0 <= j < m ==> !(#[trigger] stops(s, config, codes, rows, j))
                    &&& run.error == Some(stop_error(s, config, codes, rows, m))
                    &&& uncaptured(s, config, codes, rows, m) || run.state == run_rows(
                        s,
                        config,
                        codes,
                        rows.take(m),
                    ).state
                }
        }),
    decreases rows.len(),
{
    let run = run_rows(s, config, codes, rows);
    if rows.len() > 0 {
        let front = rows.drop_last();
        let n = rows.len() - 1;
        let before = run_rows(s, config, codes, front);
        law_merge_stops_at_first_bad_row(s, config, codes, front);
        lemma_prefix(s, config, codes, rows);
        if before.error is Some {
            let m = choose|m: int|
                {
                    &&& 0 <= m < front.len()
                    &&& #[trigger] stops(s, config, codes, front, m)
                    &&& forall|j: int|
                        0 <= j < m ==> !(#[trigger] stops(s, config, codes, front, j))
                    &&& before.error == Some(stop_error(s, config, codes, front, m))
                    &&& uncaptured(s, config, codes, front, m) || before.state == run_rows(
                        s,
                        config,
                        codes,
                        front.take(m),
                    ).state
                };
            assert(stops(s, config, codes, rows, m));
            assert(front.take(m) =~= rows.take(m));
            assert forall|j: int| 0 <= j < m implies !(#[trigger] stops(
                s,
                config,
                codes,
                rows,
                j,
            )) by {
                assert(!stops(s, config, codes, front, j));
            }
        } else {
            assert forall|j: int| 0 <= j < n implies !(#[trigger] stops(
                s,
                config,
                codes,
                rows,
                j,
            )) by {
                assert(!stops(s, config, codes, front, j));
            }
            law_target_rows_are_claimed_once(s, config, codes, front);
            let row = rows[n];
            assert(claims(codes, row) ==> (repeats(s, codes, rows, n)
                <==> before.state.processed_row_ids.contains(row.row_id))) by {
                if claims(codes, row) {
                    if before.state.processed_row_ids.contains(row.row_id) {
                        if !s.processed_row_ids.contains(row.row_id) {
                            let j = choose|j: int|
                                0 <= j < front.len() && #[trigger] claims(codes, front[j])
                                    && front[j].row_id == row.row_id;
                            assert(claims(codes, rows[j]));
                        }
                    } else {
                        assert forall|j: int| 0 <= j < n && #[trigger] claims(codes, rows[j]) implies rows[j].row_id
                            != row.row_id by {
                            assert(claims(codes, front[j]));
                        }
                        assert(first_claim(s, codes, rows, n));
                    }
                }
            }
            assert(rows.take(n) =~= front);
            assert(run.error is Some <==> stops(s, config, codes, rows, n));
            if run.error is Some {
                assert(run.error == Some(stop_error(s, config, codes, rows, n)));
            }
        }
    }
}

/// Every row that is written is an update or an insert, and only one of the
/// two. Splitting the rows leaves them in order.
pub proof fn law_kept_rows_split_by_action(
    s: MergeView,
    config: MergeConfig,
    codes: ActionCodes,
    rows: Seq<RowInput>,
)
    ensures
        ({
            let kept = run_rows(s, config, codes, rows).kept;
            let updates = kept_for(rows, codes, kept, Action::UpdateAll);
            let inserts = kept_for(rows, codes, kept, Action::Insert);
            &&& kept.len() == updates.len() + inserts.len()
            &&& forall|i: int| #[trigger]
                kept.contains(i) <==> updates.contains(i) || inserts.contains(i)
            &&& forall|i: int| updates.contains(i) ==> !(#[trigger] inserts.contains(i))
            &&& forall|i: int, j: int| 0 <= i < j < updates.len() ==> updates[i] < updates[j]
            &&& forall|i: int, j: int| 0 <= i < j < inserts.len() ==> inserts[i] < inserts[j]
        }),
{
    broadcast use vstd::seq_lib::group_filter_ensures;

    let kept = run_rows(s, config, codes, rows).kept;
    lemma_kept_actions(s, config, codes, rows);
    let updates = kept_for(rows, codes, kept, Action::UpdateAll);
    let inserts = kept_for(rows, codes, kept, Action::Insert);
    lemma_two_filters(rows, codes, kept);
    law_kept_rows_are_ordered(s, config, codes, rows);
    lemma_filter_ordered(rows, codes, kept, Action::UpdateAll);
    lemma_filter_ordered(rows, codes, kept, Action::Insert);
    assert forall|i: int| #[trigger]
        kept.contains(i) <==> updates.contains(i) || inserts.contains(i) by {
        lemma_filter_contains(rows, codes, kept, Action::UpdateAll, i);
        lemma_filter_contains(rows, codes, kept, Action::Insert, i);
        if kept.contains(i) {
            let k = choose|k: int| 0 <= k < kept.len() && kept[k] == i;
            assert(has_action(codes, rows[kept[k]], Action::UpdateAll) || has_action(
                codes,
                rows[kept[k]],
                Action::Insert,
            ));
        }
    }
    assert forall|i: int| updates.contains(i) implies !(#[trigger] inserts.contains(i)) by {
        lemma_filter_contains(rows, codes, kept, Action::UpdateAll, i);
        lemma_filter_contains(rows, codes, kept, Action::Insert, i);
    }
}

/// Only updates and inserts are written.
proof fn lemma_kept_actions(
    s: MergeView,
    config: MergeConfig,
    codes: ActionCodes,
    rows: Seq<RowInput>,
)
    ensures
        ({
            let kept = run_rows(s, config, codes, rows).kept;
            forall|k: int|
                0 <= k < kept.len() ==> has_action(
                    codes,
                    rows[#[trigger] kept[k]],
                    Action::UpdateAll,
                ) || has_action(codes, rows[kept[k]], Action::Insert)
        }),
    decreases rows.len(),
{
    if rows.len() > 0 {
        let front = rows.drop_last();
        let before = run_rows(s, config, codes, front);
        let kept = run_rows(s, config, codes, rows).kept;
        lemma_kept_actions(s, config, codes, front);
        law_kept_rows_are_ordered(s, config, codes, front);
        assert forall|k: int| 0 <= k < kept.len() implies has_action(
            codes,
            rows[#[trigger] kept[k]],
            Action::UpdateAll,
        ) || has_action(codes, rows[kept[k]], Action::Insert) by {
            if k < before.kept.len() {
                assert(kept[k] == before.kept[k]);
                assert(front[before.kept[k]] == rows[kept[k]]);
            } else {
                assert(rows[kept[k]] == rows.last());
            }
        }
    }
}

/// A filtered sequence holds what the sequence holds and the filter lets pass.
pub(crate) proof fn lemma_filter_contains(
    rows: Seq<RowInput>,
    codes: ActionCodes,
    kept: Seq<int>,
    action: Action,
    i: int,
)
    ensures
        kept_for(rows, codes, kept, action).contains(i) <==> kept.contains(i) && has_action(
            codes,
            rows[i],
            action,
        ),
    decreases kept.len(),
{
    reveal(Seq::filter);
    let part = kept_for(rows, codes, kept, action);
    if kept.len() > 0 {
        let front = kept.drop_last();
        let front_part = kept_for(rows, codes, front, action);
        lemma_filter_contains(rows, codes, front, action, i);
        assert(kept =~= front.push(kept.last()));
        if has_action(codes, rows[kept.last()], action) {
            assert(part =~= front_part.push(kept.last()));
            if part.contains(i) {
                let k = choose|k: int| 0 <= k < part.len() && part[k] == i;
                if k < front_part.len() {
                    assert(front_part[k] == i);
                    assert(front.contains(i));
                    let m = choose|m: int| 0 <= m < front.len() && front[m] == i;
                    assert(kept[m] == i);
                } else {
                    assert(kept[kept.len() - 1] == i);
                }
            }
            if kept.contains(i) && has_action(codes, rows[i], action) {
                let m = choose|m: int| 0 <= m < kept.len() && kept[m] == i;
                if m < front.len() {
                    assert(front[m] == i);
                    let k = choose|k: int| 0 <= k < front_part.len() && front_part[k] == i;
                    assert(part[k] == i);
                } else {
                    assert(part[part.len() - 1] == i);
                }
            }
        } else {
            assert(part =~= front_part);
            if part.contains(i) {
                let m = choose|m: int| 0 <= m < front.len() && front[m] == i;
                assert(kept[m] == i);
            }
            if kept.contains(i) && has_action(codes, rows[i], action) {
                let m = choose|m: int| 0 <= m < kept.len() && kept[m] == i;
                assert(front[m] == i);
            }
        }
    }
}

/// A part of rows in order is in order.
proof fn lemma_filter_ordered(
    rows: Seq<RowInput>,
    codes: ActionCodes,
    kept: Seq<int>,
    action: Action,
)
    requires
        forall|i: int, j: int| 0 <= i < j < kept.len() ==> kept[i] < kept[j],
    ensures
        ({
            let part = kept_for(rows, codes, kept, action);
            forall|i: int, j: int| 0 <= i < j < part.len() ==> part[i] < part[j]
        }),
    decreases kept.len(),
{
    reveal(Seq::filter);
    if kept.len() > 0 {
        let front = kept.drop_last();
        let part = kept_for(rows, codes, kept, action);
        let front_part = kept_for(rows, codes, front, action);
        lemma_filter_ordered(rows, codes, front, action);
        assert forall|i: int, j: int| 0 <= i < j < part.len() implies part[i] < part[j] by {
            if j == front_part.len() {
                assert(front_part.contains(front_part[i]));
                lemma_filter_contains(rows, codes, front, action, front_part[i]);
                let m = choose|m: int| 0 <= m < front.len() && front[m] == front_part[i];
                assert(kept[m] < kept[kept.len() - 1]);
            }
        }
    }
}

/// Of rows that are updates or inserts, the two kinds add up.
proof fn lemma_two_filters(rows: Seq<RowInput>, codes: ActionCodes, kept: Seq<int>)
    requires
        forall|k: int|
            0 <= k < kept.len() ==> has_action(codes, rows[#[trigger] kept[k]], Action::UpdateAll)
                || has_action(codes, rows[kept[k]], Action::Insert),
    ensures
        kept.len() == kept_for(rows, codes, kept, Action::UpdateAll).len() + kept_for(
            rows,
            codes,
            kept,
            Action::Insert,
        ).len(),
    decreases kept.len(),
{
    reveal(Seq::filter);
    if kept.len() > 0 {
        lemma_two_filters(rows, codes, kept.drop_last());
        assert(kept.last() == kept[kept.len() - 1]);
    }
}

/// The ids of replaced rows, in the order in which the rows are written.
pub open spec fn replaced_ids(
    codes: ActionCodes,
    rows: Seq<RowInput>,
    kept: Seq<int>,
) -> Seq<u64> {
    kept.filter(|i: int| replaces(codes, rows[i])).map_values(|i: int| rows[i].row_id)
}

/// The keys of inserted rows, in the order in which the rows are written.
pub open spec fn added_keys(
    codes: ActionCodes,
    rows: Seq<RowInput>,
    kept: Seq<int>,
) -> Seq<Seq<u8>> {
    kept.filter(|i: int| adds_key(codes, rows[i])).map_values(|i: int| rows[i].reply.key->Captured_0@)
}

/// Filters over rows that agree on the kept ones give the same.
proof fn lemma_same_rows(codes: ActionCodes, a: Seq<RowInput>, b: Seq<RowInput>, kept: Seq<int>)
    requires
        forall|k: int| 0 <= k < kept.len() ==> a[#[trigger] kept[k]] == b[kept[k]],
    ensures
        replaced_ids(codes, a, kept) == replaced_ids(codes, b, kept),
        added_keys(codes, a, kept) == added_keys(codes, b, kept),
        kept_for(a, codes, kept, Action::UpdateAll) == kept_for(b, codes, kept, Action::UpdateAll),
        kept_for(a, codes, kept, Action::Insert) == kept_for(b, codes, kept, Action::Insert),
    decreases kept.len(),
{
    reveal(Seq::filter);
    if kept.len() > 0 {
        let front = kept.drop_last();
        assert forall|k: int| 0 <= k < front.len() implies a[#[trigger] front[k]] == b[front[k]] by {
            assert(front[k] == kept[k]);
        }
        lemma_same_rows(codes, a, b, front);
        assert(kept =~= front.push(kept.last()));
        assert(kept.last() == kept[kept.len() - 1]);
        lemma_ids_push(codes, a, front, kept.last());
        lemma_ids_push(codes, b, front, kept.last());
    } else {
        assert(replaced_ids(codes, a, kept) =~= replaced_ids(codes, b, kept));
        assert(added_keys(codes, a, kept) =~= added_keys(codes, b, kept));
    }
}

/// One more kept row adds its id, its key, or neither.
proof fn lemma_ids_push(codes: ActionCodes, rows: Seq<RowInput>, kept: Seq<int>, i: int)
    ensures
        replaced_ids(codes, rows, kept.push(i)) == (if replaces(codes, rows[i]) {
            replaced_ids(codes, rows, kept).push(rows[i].row_id)
        } else {
            replaced_ids(codes, rows, kept)
        }),
        added_keys(codes, rows, kept.push(i)) == (if adds_key(codes, rows[i]) {
            added_keys(codes, rows, kept).push(rows[i].reply.key->Captured_0@)
        } else {
            added_keys(codes, rows, kept)
        }),
{
    reveal(Seq::filter);
    assert(kept.push(i).drop_last() =~= kept);
    assert(replaced_ids(codes, rows, kept.push(i)) =~= (if replaces(codes, rows[i]) {
        replaced_ids(codes, rows, kept).push(rows[i].row_id)
    } else {
        replaced_ids(codes, rows, kept)
    }));
    assert(added_keys(codes, rows, kept.push(i)) =~= (if adds_key(codes, rows[i]) {
        added_keys(codes, rows, kept).push(rows[i].reply.key->Captured_0@)
    } else {
        added_keys(codes, rows, kept)
    }));
}

/// With stable row ids, the captured ids are those of the replaced rows, in
/// the order in which their replacements are written; otherwise none is
/// captured. The recorded keys are those of inserted rows, never of updated
/// ones.
pub proof fn law_captured_ids_follow_written_rows(
    s: MergeView,
    config: MergeConfig,
    codes: ActionCodes,
    rows: Seq<RowInput>,
)
    ensures
        ({
            let run = run_rows(s, config, codes, rows);
            &&& run.state.captured_row_ids == (if config.stable_row_ids {
                s.captured_row_ids + replaced_ids(codes, rows, run.kept)
            } else {
                s.captured_row_ids
            })
            &&& run.state.inserted_keys == s.inserted_keys + added_keys(codes, rows, run.kept)
        }),
    decreases rows.len(),
{
    reveal(Seq::filter);
    let run = run_rows(s, config, codes, rows);
    if rows.len() > 0 {
        let front = rows.drop_last();
        let before = run_rows(s, config, codes, front);
        let n = rows.len() - 1;
        law_captured_ids_follow_written_rows(s, config, codes, front);
        law_kept_rows_are_ordered(s, config, codes, front);
        lemma_same_rows(codes, front, rows, before.kept);
        lemma_ids_push(codes, rows, before.kept, n);
    }
    assert(run.state.captured_row_ids =~= (if config.stable_row_ids {
        s.captured_row_ids + replaced_ids(codes, rows, run.kept)
    } else {
        s.captured_row_ids
    }));
    assert(run.state.inserted_keys =~= s.inserted_keys + added_keys(codes, rows, run.kept));
}

/// The state of a merge after several batches.
pub open spec fn state_after(
    s: MergeView,
    config: MergeConfig,
    codes: ActionCodes,
    batches: Seq<Seq<RowInput>>,
) -> MergeView
    decreases batches.len(),
{
    if batches.len() == 0 {
        s
    } else {
        run_rows(
            state_after(s, config, codes, batches.drop_last()),
            config,
            codes,
            batches.last(),
        ).state
    }
}

/// The row ids of the updates of several batches, batch by batch and in each
/// batch in the order of the rows.
pub open spec fn update_ids(
    s: MergeView,
    config: MergeConfig,
    codes: ActionCodes,
    batches: Seq<Seq<RowInput>>,
) -> Seq<u64>
    decreases batches.len(),
{
    if batches.len() == 0 {
        Seq::empty()
    } else {
        let front = batches.drop_last();
        let rows = batches.last();
        let kept = run_rows(state_after(s, config, codes, front), config, codes, rows).kept;
        update_ids(s, config, codes, front) + kept_for(
            rows,
            codes,
            kept,
            Action::UpdateAll,
        ).map_values(|i: int| rows[i].row_id)
    }
}

/// With stable row ids, the captured ids line up with the updated rows of all
/// batches, one id per row: where the updated rows are written first, the
/// first row written gets the first id, and so on. This holds where every
/// update replaces a target row.
pub proof fn law_captured_ids_line_up_with_updates(
    s: MergeView,
    config: MergeConfig,
    codes: ActionCodes,
    batches: Seq<Seq<RowInput>>,
)
    requires
        config.stable_row_ids,
        forall|b: int, i: int|
            0 <= b < batches.len() && 0 <= i < batches[b].len() && has_action(
                codes,
                #[trigger] batches[b][i],
                Action::UpdateAll,
            ) ==> batches[b][i].addr is Some,
    ensures
        state_after(s, config, codes, batches).captured_row_ids == s.captured_row_ids + update_ids(
            s,
            config,
            codes,
            batches,
        ),
    decreases batches.len(),
{
    if batches.len() > 0 {
        let front = batches.drop_last();
        let rows = batches.last();
        let before = state_after(s, config, codes, front);
        let kept = run_rows(before, config, codes, rows).kept;
        assert forall|b: int, i: int|
            0 <= b < front.len() && 0 <= i < front[b].len() && has_action(
                codes,
                #[trigger] front[b][i],
                Action::UpdateAll,
            ) implies front[b][i].addr is Some by {
            assert(front[b][i] == batches[b][i]);
        }
        law_captured_ids_line_up_with_updates(s, config, codes, front);
        law_captured_ids_follow_written_rows(before, config, codes, rows);
        law_kept_rows_are_ordered(before, config, codes, rows);
        assert forall|k: int| 0 <= k < kept.len() implies replaces(codes, rows[#[trigger] kept[k]])
            == has_action(codes, rows[kept[k]], Action::UpdateAll) by {
            assert(rows[kept[k]] == batches[batches.len() - 1][kept[k]]);
        }
        lemma_updates_replace(codes, rows, kept);
        let ids = kept_for(rows, codes, kept, Action::UpdateAll).map_values(
            |i: int| rows[i].row_id,
        );
        assert(replaced_ids(codes, rows, kept) == ids);
        assert(s.captured_row_ids + update_ids(s, config, codes, front) + ids
            =~= s.captured_row_ids + (update_ids(s, config, codes, front) + ids));
    } else {
        assert(s.captured_row_ids + update_ids(s, config, codes, batches) =~= s.captured_row_ids);
    }
}

/// Where every kept update replaces a target row, the replaced ids are those
/// of the kept updates.
proof fn lemma_updates_replace(codes: ActionCodes, rows: Seq<RowInput>, kept: Seq<int>)
    requires
        forall|k: int|
            0 <= k < kept.len() ==> replaces(codes, rows[#[trigger] kept[k]]) == has_action(
                codes,
                rows[kept[k]],
                Action::UpdateAll,
            ),
    ensures
        replaced_ids(codes, rows, kept) == kept_for(
            rows,
            codes,
            kept,
            Action::UpdateAll,
        ).map_values(|i: int| rows[i].row_id),
    decreases kept.len(),
{
    reveal(Seq::filter);
    if kept.len() > 0 {
        let front = kept.drop_last();
        assert forall|k: int| 0 <= k < front.len() implies replaces(
            codes,
            rows[#[trigger] front[k]],
        ) == has_action(codes, rows[front[k]], Action::UpdateAll) by {
            assert(front[k] == kept[k]);
        }
        lemma_updates_replace(codes, rows, front);
        assert(kept =~= front.push(kept.last()));
        lemma_ids_push(codes, rows, front, kept.last());
        assert(kept.last() == kept[kept.len() - 1]);
    }
    assert(replaced_ids(codes, rows, kept) =~= kept_for(
        rows,
        codes,
        kept,
        Action::UpdateAll,
    ).map_values(|i: int| rows[i].row_id));
}

/// No target row id is captured twice, and a captured one counts as processed:
/// if this holds before some rows, it holds after them, whether or not they
/// all could be processed.
pub proof fn law_captured_ids_are_unique(
    s: MergeView,
    config: MergeConfig,
    codes: ActionCodes,
    rows: Seq<RowInput>,
)
    requires
        s.captured_row_ids.no_duplicates(),
        s.captured_row_ids.to_set().subset_of(s.processed_row_ids),
    ensures
        ({
            let after = run_rows(s, config, codes, rows).state;
            &&& after.captured_row_ids.no_duplicates()
            &&& after.captured_row_ids.to_set().subset_of(after.processed_row_ids)
        }),
    decreases rows.len(),
{
    if rows.len() > 0 {
        let before = run_rows(s, config, codes, rows.drop_last()).state;
        let after = run_rows(s, config, codes, rows).state;
        law_captured_ids_are_unique(s, config, codes, rows.drop_last());
        assert forall|id: u64| after.captured_row_ids.contains(id) implies #[trigger] after.processed_row_ids.contains(
        id) by {
            let k = choose|k: int|
                0 <= k < after.captured_row_ids.len() && after.captured_row_ids[k] == id;
            if k < before.captured_row_ids.len() {
                assert(before.captured_row_ids[k] == id);
                assert(before.captured_row_ids.to_set().contains(id));
            }
        }
        if after.captured_row_ids.len() > before.captured_row_ids.len() {
            let id = after.captured_row_ids.last();
            assert(!before.processed_row_ids.contains(id));
            assert(!before.captured_row_ids.to_set().contains(id));
            assert forall|k: int| 0 <= k < before.captured_row_ids.len() implies #[trigger] before.captured_row_ids[k]
                != id by {
                assert(before.captured_row_ids.contains(before.captured_row_ids[k]));
            }
        }
    }
}

/// How many of the first `n` rows satisfy `p`.
pub open spec fn count_rows(n: nat, p: spec_fn(int) -> bool) -> nat
    decreases n,
{
    if n == 0 {
        0
    } else {
        count_rows((n - 1) as nat, p) + (if p(n - 1) {
            1nat
        } else {
            0nat
        })
    }
}

/// Conditions that agree on the first `n` rows count the same.
pub(crate) proof fn lemma_count_same(n: nat, p: spec_fn(int) -> bool, q: spec_fn(int) -> bool)
    requires
        forall|i: int| 0 <= i < n ==> #[trigger] p(i) == q(i),
    ensures
        count_rows(n, p) == count_rows(n, q),
    decreases n,
{
    if n > 0 {
        lemma_count_same((n - 1) as nat, p, q);
        assert(p(n - 1) == q(n - 1));
    }
}

/// In a merge that goes through, and whose counters do not wrap around, the
/// counters grow by the numbers of inserted, of updated, of deleted and of
/// skipped rows. No row is counted twice, and bytes and files are not counted
/// here.
pub proof fn law_every_row_is_counted_once(
    s: MergeView,
    config: MergeConfig,
    codes: ActionCodes,
    rows: Seq<RowInput>,
)
    requires
        run_rows(s, config, codes, rows).error is None,
        s.metrics.inserted + rows.len() <= usize::MAX,
        s.metrics.updated + rows.len() <= usize::MAX,
        s.metrics.deleted + rows.len() <= usize::MAX,
        s.metrics.skipped + rows.len() <= usize::MAX,
    ensures
        ({
            let run = run_rows(s, config, codes, rows);
            let m = run.state.metrics;
            &&& m.inserted == s.metrics.inserted + kept_for(
                rows,
                codes,
                run.kept,
                Action::Insert,
            ).len()
            &&& m.updated == s.metrics.updated + kept_for(
                rows,
                codes,
                run.kept,
                Action::UpdateAll,
            ).len()
            &&& m.deleted == s.metrics.deleted + count_rows(
                rows.len(),
                |i: int| has_action(codes, rows[i], Action::Delete) && first_claim(
                    s,
                    codes,
                    rows,
                    i,
                ),
            )
            &&& m.skipped == s.metrics.skipped + count_rows(
                rows.len(),
                |i: int| repeats(s, codes, rows, i),
            )
            &&& m.inserted + m.updated + m.deleted + m.skipped <= s.metrics.inserted
                + s.metrics.updated + s.metrics.deleted + s.metrics.skipped + rows.len()
            &&& m.bytes_written == s.metrics.bytes_written
            &&& m.files_written == s.metrics.files_written
        }),
    decreases rows.len(),
{
    reveal(Seq::filter);
    if rows.len() > 0 {
        let front = rows.drop_last();
        let before = run_rows(s, config, codes, front);
        let n = rows.len() - 1;
        let row = rows[n];
        law_every_row_is_counted_once(s, config, codes, front);
        law_kept_rows_are_ordered(s, config, codes, front);
        law_target_rows_are_claimed_once(s, config, codes, front);
        lemma_same_rows(codes, front, rows, before.kept);
        lemma_prefix(s, config, codes, rows);
        let deleted = |i: int|
            has_action(codes, rows[i], Action::Delete) && first_claim(s, codes, rows, i);
        let front_deleted = |i: int|
            has_action(codes, front[i], Action::Delete) && first_claim(s, codes, front, i);
        let skipped = |i: int| repeats(s, codes, rows, i);
        let front_skipped = |i: int| repeats(s, codes, front, i);
        assert forall|i: int| 0 <= i < n implies #[trigger] front_deleted(i) == deleted(i) by {
            assert(front[i] == rows[i]);
            assert(first_claim(s, codes, rows, i) == first_claim(s, codes, front, i));
        }
        assert forall|i: int| 0 <= i < n implies #[trigger] front_skipped(i) == skipped(i) by {
            assert(repeats(s, codes, rows, i) == repeats(s, codes, front, i));
        }
        lemma_count_same(n as nat, front_deleted, deleted);
        lemma_count_same(n as nat, front_skipped, skipped);
        assert(claims(codes, row) ==> (first_claim(s, codes, rows, n)
            <==> !before.state.processed_row_ids.contains(row.row_id))) by {
            if claims(codes, row) {
                if before.state.processed_row_ids.contains(row.row_id) {
                    if !s.processed_row_ids.contains(row.row_id) {
                        let j = choose|j: int|
                            0 <= j < front.len() && #[trigger] claims(codes, front[j])
                                && front[j].row_id == row.row_id;
                        assert(claims(codes, rows[j]));
                    }
                } else {
                    assert forall|j: int| 0 <= j < n && #[trigger] claims(codes, rows[j]) implies rows[j].row_id
                        != row.row_id by {
                        assert(claims(codes, front[j]));
                    }
                }
            }
        }
        assert(before.kept.push(n).drop_last() =~= before.kept);
    }
}

/// Rows may come in one batch or in several: after a batch that went through,
/// a second one leaves the merge where both together would have left it, and
/// keeps the same rows.
pub proof fn law_batch_boundaries_do_not_matter(
    s: MergeView,
    config: MergeConfig,
    codes: ActionCodes,
    first: Seq<RowInput>,
    second: Seq<RowInput>,
)
    requires
        run_rows(s, config, codes, first).error is None,
    ensures
        ({
            let one = run_rows(s, config, codes, first);
            let two = run_rows(one.state, config, codes, second);
            let both = run_rows(s, config, codes, first + second);
            &&& both.state == two.state
            &&& both.error is None <==> two.error is None
            &&& both.kept == one.kept + two.kept.map_values(|i: int| i + first.len())
        }),
    decreases second.len(),
{
    let one = run_rows(s, config, codes, first);
    let two = run_rows(one.state, config, codes, second);
    let both = run_rows(s, config, codes, first + second);
    if second.len() == 0 {
        assert(first + second =~= first);
        assert(both.kept =~= one.kept + two.kept.map_values(|i: int| i + first.len()));
    } else {
        let front = second.drop_last();
        assert((first + second).drop_last() =~= first + front);
        assert((first + second).last() == second.last());
        law_batch_boundaries_do_not_matter(s, config, codes, first, front);
        assert(both.kept =~= one.kept + two.kept.map_values(|i: int| i + first.len()));
    }
}

/// The rows of several batches, one after the other.
pub open spec fn all_rows(batches: Seq<Seq<RowInput>>) -> Seq<RowInput>
    decreases batches.len(),
{
    if batches.len() == 0 {
        Seq::empty()
    } else {
        all_rows(batches.drop_last()) + batches.last()
    }
}

/// No row of any batch fails the merge.
pub open spec fn goes_through(
    s: MergeView,
    config: MergeConfig,
    codes: ActionCodes,
    batches: Seq<Seq<RowInput>>,
) -> bool
    decreases batches.len(),
{
    batches.len() == 0 || {
        &&& goes_through(s, config, codes, batches.drop_last())
        &&& run_rows(
            state_after(s, config, codes, batches.drop_last()),
            config,
            codes,
            batches.last(),
        ).error is None
    }
}

/// However the rows are cut into batches, a merge that goes through gets to the
/// same state.
pub proof fn law_batches_are_one_run(
    s: MergeView,
    config: MergeConfig,
    codes: ActionCodes,
    batches: Seq<Seq<RowInput>>,
)
    requires
        goes_through(s, config, codes, batches),
    ensures
        run_rows(s, config, codes, all_rows(batches)).error is None,
        run_rows(s, config, codes, all_rows(batches)).state == state_after(
            s,
            config,
            codes,
            batches,
        ),
    decreases batches.len(),
{
    if batches.len() > 0 {
        let front = batches.drop_last();
        law_batches_are_one_run(s, config, codes, front);
        law_batch_boundaries_do_not_matter(s, config, codes, all_rows(front), batches.last());
    }
}

/// Rows that match the target row of one id give one address for it.
pub open spec fn one_address_per_id(codes: ActionCodes, rows: Seq<RowInput>) -> bool {
    forall|i: int, j: int|
        0 <= i < j < rows.len() && #[trigger] claims(codes, rows[i]) && #[trigger] claims(
            codes,
            rows[j],
        ) && rows[i].row_id == rows[j].row_id ==> rows[i].addr == rows[j].addr
}

/// A target row that some row deletes or replaces has a first one that does.
proof fn lemma_some_row_is_first(
    s: MergeView,
    codes: ActionCodes,
    rows: Seq<RowInput>,
    i: int,
) -> (first: int)
    requires
        0 <= i < rows.len(),
        claims(codes, rows[i]),
        !s.processed_row_ids.contains(rows[i].row_id),
    ensures
        0 <= first <= i,
        first_claim(s, codes, rows, first),
        rows[first].row_id == rows[i].row_id,
    decreases i,
{
    if first_claim(s, codes, rows, i) {
        i
    } else {
        let j = choose|j: int|
            0 <= j < i && #[trigger] claims(codes, rows[j]) && rows[j].row_id == rows[i].row_id;
        lemma_some_row_is_first(s, codes, rows, j)
    }
}

/// The rows that an execution affects: after all batches, the addresses that go
/// away are those of before and those of the first rows to delete or replace
/// their target rows. Where no target row was processed before, and an id has
/// one address, these are the addresses of all rows that delete or replace one.
pub proof fn law_affected_rows_are_those_claimed(
    s: MergeView,
    config: MergeConfig,
    codes: ActionCodes,
    batches: Seq<Seq<RowInput>>,
    addr: u64,
)
    requires
        goes_through(s, config, codes, batches),
    ensures
        ({
            let rows = all_rows(batches);
            let affected = state_after(s, config, codes, batches).delete_row_addrs;
            &&& affected.contains(addr) <==> s.delete_row_addrs.contains(addr) || exists|j: int|
                0 <= j < rows.len() && #[trigger] first_claim(s, codes, rows, j) && rows[j].addr
                    == Some(addr)
            &&& s.processed_row_ids == Set::<u64>::empty() && one_address_per_id(codes, rows) ==> (
            affected.contains(addr) <==> s.delete_row_addrs.contains(addr) || exists|j: int|
                0 <= j < rows.len() && #[trigger] claims(codes, rows[j]) && rows[j].addr == Some(
                    addr,
                ))
        }),
{
    let rows = all_rows(batches);
    law_batches_are_one_run(s, config, codes, batches);
    law_target_rows_are_claimed_once(s, config, codes, rows);
    if s.processed_row_ids == Set::<u64>::empty() && one_address_per_id(codes, rows) {
        if exists|j: int|
            0 <= j < rows.len() && #[trigger] first_claim(s, codes, rows, j) && rows[j].addr
                == Some(addr) {
            let j = choose|j: int|
                0 <= j < rows.len() && #[trigger] first_claim(s, codes, rows, j) && rows[j].addr
                    == Some(addr);
            assert(claims(codes, rows[j]));
        }
        if exists|j: int|
            0 <= j < rows.len() && #[trigger] claims(codes, rows[j]) && rows[j].addr == Some(
                addr,
            ) {
            let j = choose|j: int|
                0 <= j < rows.len() && #[trigger] claims(codes, rows[j]) && rows[j].addr == Some(
                    addr,
                );
            let first = lemma_some_row_is_first(s, codes, rows, j);
            assert(claims(codes, rows[first]));
            assert(rows[first].addr == Some(addr));
        }
    }
}

/// Rows of batch `b`, each as its batch and its number in it.
pub open spec fn rows_of(b: int, kept: Seq<int>) -> Seq<(int, int)> {
    kept.map_values(|i: int| (b, i))
}

/// The rows that a streaming write hands to the writer, in this order.
pub open spec fn streamed(
    s: MergeView,
    config: MergeConfig,
    codes: ActionCodes,
    batches: Seq<Seq<RowInput>>,
) -> Seq<(int, int)>
    decreases batches.len(),
{
    if batches.len() == 0 {
        Seq::empty()
    } else {
        let front = batches.drop_last();
        let before = state_after(s, config, codes, front);
        streamed(s, config, codes, front) + rows_of(
            front.len() as int,
            run_rows(before, config, codes, batches.last()).kept,
        )
    }
}

/// Those of the rows to write that have this action, batch by batch.
pub open spec fn written_for(
    s: MergeView,
    config: MergeConfig,
    codes: ActionCodes,
    batches: Seq<Seq<RowInput>>,
    action: Action,
) -> Seq<(int, int)>
    decreases batches.len(),
{
    if batches.len() == 0 {
        Seq::empty()
    } else {
        let front = batches.drop_last();
        let before = state_after(s, config, codes, front);
        written_for(s, config, codes, front, action) + rows_of(
            front.len() as int,
            kept_for(
                batches.last(),
                codes,
                run_rows(before, config, codes, batches.last()).kept,
                action,
            ),
        )
    }
}

/// The rows that an ordered write hands to the writer: all updates, then all
/// inserts.
pub open spec fn ordered(
    s: MergeView,
    config: MergeConfig,
    codes: ActionCodes,
    batches: Seq<Seq<RowInput>>,
) -> Seq<(int, int)> {
    written_for(s, config, codes, batches, Action::UpdateAll) + written_for(
        s,
        config,
        codes,
        batches,
        Action::Insert,
    )
}

/// Splitting the rows of a batch by their action loses none and doubles none.
proof fn lemma_split_keeps_rows(
    rows: Seq<RowInput>,
    codes: ActionCodes,
    kept: Seq<int>,
    b: int,
)
    requires
        forall|k: int|
            0 <= k < kept.len() ==> has_action(codes, rows[#[trigger] kept[k]], Action::UpdateAll)
                || has_action(codes, rows[kept[k]], Action::Insert),
    ensures
        rows_of(b, kept).to_multiset() == rows_of(
            b,
            kept_for(rows, codes, kept, Action::UpdateAll),
        ).to_multiset().add(
            rows_of(b, kept_for(rows, codes, kept, Action::Insert)).to_multiset(),
        ),
    decreases kept.len(),
{
    broadcast use vstd::seq_lib::group_to_multiset_ensures;

    reveal(Seq::filter);
    let updates = kept_for(rows, codes, kept, Action::UpdateAll);
    let inserts = kept_for(rows, codes, kept, Action::Insert);
    if kept.len() > 0 {
        let front = kept.drop_last();
        let last = kept.last();
        let front_updates = kept_for(rows, codes, front, Action::UpdateAll);
        let front_inserts = kept_for(rows, codes, front, Action::Insert);
        lemma_split_keeps_rows(rows, codes, front, b);
        assert(last == kept[kept.len() - 1]);
        assert(rows_of(b, kept) =~= rows_of(b, front).push((b, last)));
        if has_action(codes, rows[last], Action::UpdateAll) {
            assert(updates =~= front_updates.push(last));
            assert(inserts =~= front_inserts);
            assert(rows_of(b, updates) =~= rows_of(b, front_updates).push((b, last)));
        } else {
            assert(updates =~= front_updates);
            assert(inserts =~= front_inserts.push(last));
            assert(rows_of(b, inserts) =~= rows_of(b, front_inserts).push((b, last)));
        }
    } else {
        assert(rows_of(b, kept) =~= Seq::<(int, int)>::empty());
        assert(rows_of(b, updates) =~= Seq::<(int, int)>::empty());
        assert(rows_of(b, inserts) =~= Seq::<(int, int)>::empty());
    }
    assert(rows_of(b, kept).to_multiset() =~= rows_of(b, updates).to_multiset().add(
        rows_of(b, inserts).to_multiset(),
    ));
}

/// Ordered and streaming writes hand the same rows to the writer, each as often,
/// and differ in their order only. The state that they leave is the same: it is
/// `state_after` for both.
pub proof fn law_ordered_and_streamed_rows_agree(
    s: MergeView,
    config: MergeConfig,
    codes: ActionCodes,
    batches: Seq<Seq<RowInput>>,
)
    ensures
        ordered(s, config, codes, batches).to_multiset() == streamed(
            s,
            config,
            codes,
            batches,
        ).to_multiset(),
    decreases batches.len(),
{
    let updates = written_for(s, config, codes, batches, Action::UpdateAll);
    let inserts = written_for(s, config, codes, batches, Action::Insert);
    let all = streamed(s, config, codes, batches);
    vstd::seq_lib::lemma_multiset_commutative(updates, inserts);
    if batches.len() > 0 {
        let front = batches.drop_last();
        let rows = batches.last();
        let before = state_after(s, config, codes, front);
        let kept = run_rows(before, config, codes, rows).kept;
        let b = front.len() as int;
        let front_updates = written_for(s, config, codes, front, Action::UpdateAll);
        let front_inserts = written_for(s, config, codes, front, Action::Insert);
        let new_updates = rows_of(b, kept_for(rows, codes, kept, Action::UpdateAll));
        let new_inserts = rows_of(b, kept_for(rows, codes, kept, Action::Insert));
        law_ordered_and_streamed_rows_agree(s, config, codes, front);
        lemma_kept_actions(before, config, codes, rows);
        lemma_split_keeps_rows(rows, codes, kept, b);
        vstd::seq_lib::lemma_multiset_commutative(front_updates, front_inserts);
        vstd::seq_lib::lemma_multiset_commutative(front_updates, new_updates);
        vstd::seq_lib::lemma_multiset_commutative(front_inserts, new_inserts);
        vstd::seq_lib::lemma_multiset_commutative(
            streamed(s, config, codes, front),
            rows_of(b, kept),
        );
        assert(updates.to_multiset().add(inserts.to_multiset()) =~= all.to_multiset());
    } else {
        assert(updates + inserts =~= all);
    }
}

} // verus!
