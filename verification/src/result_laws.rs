//! What the numbers of a finished merge are numbers of.

use crate::action::ActionCodes;
use crate::batch_laws::{
    asks_delete, asks_insert, asks_update, counts_right, has_room, hits, hits_first, ControlSlots,
};
use crate::merge_state::{MergeView, MetricsView};
use crate::row_laws::count_rows;
use crate::transaction::{
    sum_of_sizes, total_bytes, total_files, DataFile, Fragment, MergeStats,
};
use vstd::prelude::*;

verus! {

/// The sum of the first `n` numbers.
pub open spec fn sum_up(n: nat, f: spec_fn(int) -> nat) -> nat
    decreases n,
{
    if n == 0 {
        0
    } else {
        sum_up((n - 1) as nat, f) + f(n - 1)
    }
}

/// The bytes and files of fragments are those of all their files, one by one: each
/// file counts once, and with its size where that is known, whatever it is.
pub proof fn law_bytes_are_those_of_all_files(fragments: Seq<Fragment>)
    ensures
        total_files(fragments) == sum_up(fragments.len(), |i: int| fragments[i].files@.len()),
        total_bytes(fragments) == sum_up(
            fragments.len(),
            |i: int|
                sum_up(
                    fragments[i].files@.len(),
                    |j: int|
                        match fragments[i].files@[j].file_size_bytes {
                            Some(size) => size as nat,
                            None => 0,
                        },
                ),
        ),
    decreases fragments.len(),
{
    if fragments.len() > 0 {
        let front = fragments.drop_last();
        let n = front.len();
        law_bytes_are_those_of_all_files(front);
        lemma_sum_same(
            n,
            |i: int| front[i].files@.len(),
            |i: int| fragments[i].files@.len(),
        );
        lemma_sum_same(
            n,
            |i: int|
                sum_up(
                    front[i].files@.len(),
                    |j: int|
                        match front[i].files@[j].file_size_bytes {
                            Some(size) => size as nat,
                            None => 0,
                        },
                ),
            |i: int|
                sum_up(
                    fragments[i].files@.len(),
                    |j: int|
                        match fragments[i].files@[j].file_size_bytes {
                            Some(size) => size as nat,
                            None => 0,
                        },
                ),
        );
        lemma_sum_of_files(fragments.last().files@);
    }
}

/// The sizes of files, one by one.
proof fn lemma_sum_of_files(files: Seq<DataFile>)
    ensures
        sum_of_sizes(files) == sum_up(
            files.len(),
            |j: int|
                match files[j].file_size_bytes {
                    Some(size) => size as nat,
                    None => 0,
                },
        ),
    decreases files.len(),
{
    if files.len() > 0 {
        let front = files.drop_last();
        lemma_sum_of_files(front);
        lemma_sum_same(
            front.len(),
            |j: int|
                match front[j].file_size_bytes {
                    Some(size) => size as nat,
                    None => 0,
                },
            |j: int|
                match files[j].file_size_bytes {
                    Some(size) => size as nat,
                    None => 0,
                },
        );
    }
}

/// Sums of the same numbers are the same.
proof fn lemma_sum_same(n: nat, f: spec_fn(int) -> nat, g: spec_fn(int) -> nat)
    requires
        forall|i: int| 0 <= i < n ==> #[trigger] f(i) == g(i),
    ensures
        sum_up(n, f) == sum_up(n, g),
    decreases n,
{
    if n > 0 {
        lemma_sum_same((n - 1) as nat, f, g);
        assert(f(n - 1) == g(n - 1));
    }
}

/// The batches follow each other: what has been done before batch `b` is `views[b]`,
/// each batch goes through, and no counter of rows wraps around.
pub open spec fn counted(
    codes: ActionCodes,
    batches: Seq<ControlSlots>,
    views: Seq<MergeView>,
) -> bool {
    &&& views.len() == batches.len() + 1
    &&& forall|b: int|
        0 <= b < batches.len() ==> has_room(
            views[b],
            (#[trigger] batches[b]).actions.len(),
        ) && counts_right(views[b], codes, batches[b], views[b + 1])
}

/// How the counters stand after batches.
proof fn lemma_counters(codes: ActionCodes, batches: Seq<ControlSlots>, views: Seq<MergeView>, n: nat)
    requires
        counted(codes, batches, views),
        n <= batches.len(),
    ensures
        ({
            let from = views[0].metrics;
            let to = views[n as int].metrics;
            &&& to.inserted == from.inserted + sum_up(
                n,
                |b: int|
                    count_rows(
                        batches[b].actions.len(),
                        |i: int| asks_insert(codes, batches[b].actions[i]),
                    ),
            )
            &&& to.updated == from.updated + sum_up(
                n,
                |b: int|
                    count_rows(
                        batches[b].actions.len(),
                        |i: int|
                            asks_update(codes, batches[b].actions[i]) && (!batches[b].addrs.valid[i]
                                || hits_first(views[b].processed_row_ids, codes, batches[b], i)),
                    ),
            )
            &&& to.deleted == from.deleted + sum_up(
                n,
                |b: int|
                    count_rows(
                        batches[b].actions.len(),
                        |i: int|
                            asks_delete(codes, batches[b].actions[i]) && hits_first(
                                views[b].processed_row_ids,
                                codes,
                                batches[b],
                                i,
                            ),
                    ),
            )
            &&& to.skipped == from.skipped + sum_up(
                n,
                |b: int|
                    count_rows(
                        batches[b].actions.len(),
                        |i: int|
                            hits(codes, batches[b], i) && !hits_first(
                                views[b].processed_row_ids,
                                codes,
                                batches[b],
                                i,
                            ),
                    ),
            )
            &&& to.bytes_written == from.bytes_written
            &&& to.files_written == from.files_written
        }),
    decreases n,
{
    if n > 0 {
        let b = n - 1;
        lemma_counters(codes, batches, views, b as nat);
        assert(has_room(views[b], batches[b].actions.len()) && counts_right(
            views[b],
            codes,
            batches[b],
            views[b + 1],
        ));
    }
}

/// The numbers of a finished merge, one by one. `stats` are those that are kept
/// once the last batch went through and the fragments were written. The number of
/// inserted rows is that of the rows whose action is to insert; of updated rows,
/// that of the rows written in place of a target row or without one; of deleted
/// rows, that of the target rows that a row deletes; of skipped duplicates, that of
/// the rows whose target row an earlier one deleted or replaced. Bytes and files
/// are those of the new fragments.
pub proof fn law_statistics_count_what_was_done(
    codes: ActionCodes,
    batches: Seq<ControlSlots>,
    views: Seq<MergeView>,
    new_fragments: Seq<Fragment>,
    stats: MergeStats,
)
    requires
        counted(codes, batches, views),
        views[0].metrics.inserted == 0,
        views[0].metrics.updated == 0,
        views[0].metrics.deleted == 0,
        views[0].metrics.skipped == 0,
        views[0].metrics.bytes_written == 0,
        views[0].metrics.files_written == 0,
        total_bytes(new_fragments) <= usize::MAX,
        total_bytes(new_fragments) <= u64::MAX,
        total_files(new_fragments) <= usize::MAX,
        stats == MergeStats::of(
            MetricsView {
                bytes_written: views.last().metrics.bytes_written.wrapping_add(
                    (total_bytes(new_fragments) as u64) as usize,
                ),
                files_written: views.last().metrics.files_written.wrapping_add(
                    total_files(new_fragments) as usize,
                ),
                ..views.last().metrics
            },
        ),
    ensures
        stats.num_inserted_rows == sum_up(
            batches.len(),
            |b: int|
                count_rows(
                    batches[b].actions.len(),
                    |i: int| asks_insert(codes, batches[b].actions[i]),
                ),
        ),
        stats.num_updated_rows == sum_up(
            batches.len(),
            |b: int|
                count_rows(
                    batches[b].actions.len(),
                    |i: int|
                        asks_update(codes, batches[b].actions[i]) && (!batches[b].addrs.valid[i]
                            || hits_first(views[b].processed_row_ids, codes, batches[b], i)),
                ),
        ),
        stats.num_deleted_rows == sum_up(
            batches.len(),
            |b: int|
                count_rows(
                    batches[b].actions.len(),
                    |i: int|
                        asks_delete(codes, batches[b].actions[i]) && hits_first(
                            views[b].processed_row_ids,
                            codes,
                            batches[b],
                            i,
                        ),
                ),
        ),
        stats.num_skipped_duplicates == sum_up(
            batches.len(),
            |b: int|
                count_rows(
                    batches[b].actions.len(),
                    |i: int|
                        hits(codes, batches[b], i) && !hits_first(
                            views[b].processed_row_ids,
                            codes,
                            batches[b],
                            i,
                        ),
                ),
        ),
        stats.bytes_written == sum_up(
            new_fragments.len(),
            |i: int|
                sum_up(
                    new_fragments[i].files@.len(),
                    |j: int|
                        match new_fragments[i].files@[j].file_size_bytes {
                            Some(size) => size as nat,
                            None => 0,
                        },
                ),
        ),
        stats.num_files_written == sum_up(
            new_fragments.len(),
            |i: int| new_fragments[i].files@.len(),
        ),
{
    law_bytes_are_those_of_all_files(new_fragments);
    lemma_counters(codes, batches, views, batches.len());
    assert(views.last() == views[batches.len() as int]);
}

} // verus!
