//! One execution of a merge, from its start to the transaction that it leaves.

use crate::error::MergeError;
use crate::merge_state::{
    MergeConfig, MergeInsertMetrics, MergeSetup, MergeState, MergeView, MetricsView,
};
use crate::params::{field_ids, DatasetInfo, MergeInsertParams};
use crate::text::texts;
use crate::transaction::{
    calculate_write_metrics, total_bytes, total_files, FilterView, Fragment, KeyExistenceFilter,
    MergeStats, Transaction, UpdateMode, UpdateOperation,
};
use roaring::RoaringTreemap;
use vstd::prelude::*;

verus! {

/// How a plan is shown.
#[derive(Clone, Copy, Debug, PartialEq, Eq, Structural)]
pub enum PlanFormat {
    /// In one line.
    Line,
    /// As a box in a tree.
    Tree,
}

/// Inserts new rows and updates rows of a dataset.
///
/// Updated rows move to new fragments, which suits updates of all columns best.
/// `G` describes a generation of rows that the merge takes over from elsewhere.
#[derive(Debug)]
pub struct FullSchemaMergeInsertExec<G> {
    pub dataset: DatasetInfo,
    pub params: MergeInsertParams,
    /// The numbers of the merge, once it is done and until they are taken.
    pub merge_stats: Option<MergeStats>,
    /// The transaction, once the merge is done and until it is taken.
    pub transaction: Option<Transaction<G>>,
    /// The addresses of the rows that were updated or deleted, once the merge
    /// is done and until they are taken.
    pub affected_rows: Option<RoaringTreemap>,
    /// The keys of the inserted rows, once the merge is done, for detecting
    /// conflicts.
    pub inserted_rows_filter: Option<KeyExistenceFilter>,
    /// Whether the merge joins on the primary key of the dataset. Only then is
    /// the filter of the inserted keys part of the transaction.
    pub is_primary_key: bool,
}

/// The names of columns, once more.
fn copy_names(names: &Vec<String>) -> (r: Vec<String>)
    ensures
        texts(r@) == texts(names@),
{
    let n: usize = names.len();
    let mut out: Vec<String> = Vec::with_capacity(n);
    for i in 0..n
        invariant
            n == names.len(),
            texts(out@) == texts(names@).take(i as int),
    {
        let ghost before = out@;
        out.push(names[i].clone());
        assert(texts(out@) =~= texts(before).push(names@[i as int]@));
        assert(texts(out@) =~= texts(names@).take(i + 1));
    }
    assert(texts(out@) =~= texts(names@));
    out
}

/// The filter of the keys that a merge in this state inserted.
pub open spec fn filter_of(state: MergeState) -> FilterView {
    FilterView {
        field_ids: state@.setup.field_ids,
        keys: state@.progress.inserted_keys,
    }
}

/// What a filter holds, if there is one.
pub open spec fn filter_view(filter: Option<KeyExistenceFilter>) -> Option<FilterView> {
    match filter {
        Some(filter) => Some(filter@),
        None => None,
    }
}

/// The filter is one for the merge's key fields, and holds the bytes of every key
/// that the merge inserted, in order.
pub open spec fn holds_keys(filter: Option<KeyExistenceFilter>, state: MergeState) -> bool {
    let keys = state.inserted_rows_filter.keys@;
    &&& filter matches Some(f)
    &&& f.field_ids@ == state.inserted_rows_filter.field_ids@
    &&& f.keys@.len() == keys.len()
    &&& forall|i: int| 0 <= i < keys.len() ==> (#[trigger] f.keys@[i]).bytes@ == keys[i].bytes@
}

impl<G> FullSchemaMergeInsertExec<G> {
    /// The flag says whether the merge joins on the primary key.
    pub open spec fn wf(&self) -> bool {
        self.is_primary_key == self.dataset.is_primary_key(texts(self.params.on@))
    }

    /// The plan, as text.
    pub open spec fn text(&self, format: PlanFormat) -> Seq<char> {
        match format {
            PlanFormat::Line => self.params.line(),
            PlanFormat::Tree => "MergeInsert["@ + self.dataset.uri@ + "]"@,
        }
    }

    /// A merge that was not executed yet.
    pub fn try_new(dataset: DatasetInfo, params: MergeInsertParams) -> (r: Result<Self, MergeError>)
        ensures
            r matches Ok(exec) && {
                &&& exec.wf()
                &&& exec.dataset == dataset
                &&& exec.params == params
                &&& exec.merge_stats is None
                &&& exec.transaction is None
                &&& exec.affected_rows is None
                &&& exec.inserted_rows_filter is None
                &&& exec.is_primary_key <==> {
                    &&& dataset.primary_key@.len() > 0
                    &&& field_ids(dataset.fields@, texts(params.on@)) == dataset.primary_key@
                }
            },
    {
        let is_primary_key: bool = dataset.matches_primary_key(&params.on);
        Ok(
            FullSchemaMergeInsertExec {
                dataset,
                params,
                merge_stats: None,
                transaction: None,
                affected_rows: None,
                inserted_rows_filter: None,
                is_primary_key,
            },
        )
    }

    /// Takes the numbers of the merge. `None` if it is not done or they were
    /// taken.
    pub fn merge_stats(&mut self) -> (r: Option<MergeStats>)
        ensures
            r == old(self).merge_stats,
            *final(self) == (FullSchemaMergeInsertExec { merge_stats: None, ..*old(self) }),
    {
        self.merge_stats.take()
    }

    /// Takes the transaction. `None` if the merge is not done or it was taken.
    pub fn transaction(&mut self) -> (r: Option<Transaction<G>>)
        ensures
            r == old(self).transaction,
            *final(self) == (FullSchemaMergeInsertExec { transaction: None, ..*old(self) }),
    {
        self.transaction.take()
    }

    /// The filter of the inserted keys, which stays. `None` if the merge is not
    /// done.
    pub fn inserted_rows_filter(&self) -> (r: Option<KeyExistenceFilter>)
        ensures
            filter_view(r) == filter_view(self.inserted_rows_filter),
            match self.inserted_rows_filter {
                None => r is None,
                Some(kept) => r matches Some(f) && {
                    &&& f.field_ids@ == kept.field_ids@
                    &&& f.keys@.len() == kept.keys@.len()
                    &&& forall|i: int|
                        0 <= i < kept.keys@.len() ==> (#[trigger] f.keys@[i]).bytes@
                            == kept.keys@[i].bytes@
                },
            },
    {
        match &self.inserted_rows_filter {
            Some(filter) => Some(filter.duplicate()),
            None => None,
        }
    }

    /// Takes the addresses of the rows that were updated or deleted. `None` if
    /// the merge is not done or they were taken.
    pub fn affected_rows(&mut self) -> (r: Option<RoaringTreemap>)
        ensures
            r == old(self).affected_rows,
            *final(self) == (FullSchemaMergeInsertExec { affected_rows: None, ..*old(self) }),
    {
        self.affected_rows.take()
    }

    /// Shows the plan.
    pub fn describe(&self, format: PlanFormat) -> (r: String)
        ensures
            r@ == self.text(format),
            format is Line ==> r@ == self.params.line(),
            format is Tree ==> r@ == "MergeInsert["@ + self.dataset.uri@ + "]"@,
    {
        match format {
            PlanFormat::Line => self.params.describe(),
            PlanFormat::Tree => {
                let mut out: String = String::new();
                out.append("MergeInsert[");
                out.append(self.dataset.uri.as_str());
                out.append("]");
                assert(out@ =~= self.text(format));
                out
            },
        }
    }

    /// The state of the merge before its first row.
    pub fn start(&self) -> (r: MergeState)
        ensures
            r.wf(),
            r@.setup == (MergeSetup {
                config: MergeConfig {
                    stable_row_ids: self.dataset.stable_row_ids,
                    dedupe: self.params.source_dedupe_behavior,
                },
                captures: self.dataset.stable_row_ids,
                on_columns: texts(self.params.on@),
                field_ids: field_ids(self.dataset.fields@, texts(self.params.on@)),
            }),
            r@.progress == (MergeView {
                delete_row_addrs: Set::empty(),
                captured_row_ids: Seq::empty(),
                inserted_keys: Seq::empty(),
                processed_row_ids: Set::empty(),
                metrics: MetricsView::zero(),
            }),
            r.metrics.num_inserted_rows@ == 0,
            r.metrics.num_updated_rows@ == 0,
            r.metrics.num_deleted_rows@ == 0,
            r.metrics.num_skipped_duplicates@ == 0,
            r.metrics.bytes_written@ == 0,
            r.metrics.num_files_written@ == 0,
    {
        MergeState::new(
            MergeInsertMetrics::new(),
            self.dataset.stable_row_ids,
            copy_names(&self.params.on),
            self.dataset.field_ids(&self.params.on),
            self.params.source_dedupe_behavior,
        )
    }

    /// Keeps what a merge leaves: the transaction, the numbers, the addresses
    /// of the rows that go away, and the inserted keys.
    ///
    /// Whole rows are written anew, so the transaction names all fields, nested
    /// ones too, as possibly changed. An index on a nested field would
    /// otherwise be taken to cover the new fragments.
    pub fn store_results(
        &mut self,
        state: MergeState,
        new_fragments: Vec<Fragment>,
        updated_fragments: Vec<Fragment>,
        removed_fragment_ids: Vec<u64>,
        merged_generations: Vec<G>,
    )
        requires
            total_bytes(new_fragments@) <= u64::MAX,
            total_files(new_fragments@) <= usize::MAX,
        ensures
            final(self).dataset == old(self).dataset,
            final(self).params == old(self).params,
            final(self).is_primary_key == old(self).is_primary_key,
            final(self).transaction matches Some(t) && {
                &&& t.read_version == old(self).dataset.version
                &&& t.operation.removed_fragment_ids == removed_fragment_ids
                &&& t.operation.updated_fragments == updated_fragments
                &&& t.operation.new_fragments == new_fragments
                &&& t.operation.fields_modified@ == Seq::<u32>::empty()
                &&& t.operation.merged_generations == merged_generations
                &&& t.operation.fields_for_preserving_frag_bitmap@ == old(
                    self,
                ).dataset.all_field_ids()
                &&& t.operation.update_mode == Some(UpdateMode::RewriteRows)
                &&& filter_view(t.operation.inserted_rows_filter) == (if old(self).is_primary_key {
                    Some(filter_of(state))
                } else {
                    None
                })
                &&& t.operation.updated_fragment_offsets is None
            },
            final(self).merge_stats == Some(
                MergeStats::of(
                    MetricsView {
                        bytes_written: state@.progress.metrics.bytes_written.wrapping_add(
                            (total_bytes(new_fragments@) as u64) as usize,
                        ),
                        files_written: state@.progress.metrics.files_written.wrapping_add(
                            total_files(new_fragments@) as usize,
                        ),
                        ..state@.progress.metrics
                    },
                ),
            ),
            final(self).affected_rows == Some(state.delete_row_addrs),
            filter_view(final(self).inserted_rows_filter) == Some(filter_of(state)),
            // All fields are named as possibly changed.
            ({
                let named = (final(self).transaction->0).operation.fields_for_preserving_frag_bitmap@;
                &&& named.len() == old(self).dataset.fields@.len()
                &&& forall|k: int|
                    0 <= k < named.len() ==> #[trigger] named[k] == old(self).dataset.fields@[k].id as u32
            }),
            // Each number is that of its own counter.
            ({
                let stats = final(self).merge_stats->0;
                &&& stats.num_inserted_rows == state.metrics.num_inserted_rows@
                &&& stats.num_updated_rows == state.metrics.num_updated_rows@
                &&& stats.num_deleted_rows == state.metrics.num_deleted_rows@
                &&& stats.num_skipped_duplicates == state.metrics.num_skipped_duplicates@
                &&& state.metrics.bytes_written@ + total_bytes(new_fragments@) <= usize::MAX
                    ==> stats.bytes_written == state.metrics.bytes_written@ + total_bytes(
                    new_fragments@,
                )
                &&& state.metrics.num_files_written@ + total_files(new_fragments@) <= usize::MAX
                    ==> stats.num_files_written == state.metrics.num_files_written@ + total_files(
                    new_fragments@,
                )
            }),
            // The filter holds every key.
            holds_keys(final(self).inserted_rows_filter, state),
            old(self).is_primary_key ==> holds_keys(
                (final(self).transaction->0).operation.inserted_rows_filter,
                state,
            ),
            !old(self).is_primary_key ==> (
            final(self).transaction->0).operation.inserted_rows_filter is None,
    {
        let (bytes, files): (usize, usize) = calculate_write_metrics(&new_fragments);
        let mut metrics: MergeInsertMetrics = state.metrics;
        metrics.bytes_written.add(bytes);
        metrics.num_files_written.add(files);

        let filter: KeyExistenceFilter = KeyExistenceFilter::from_builder(
            &state.inserted_rows_filter,
        );
        self.inserted_rows_filter = Some(filter);
        let committed_filter: Option<KeyExistenceFilter> = if self.is_primary_key {
            self.inserted_rows_filter()
        } else {
            None
        };
        let operation: UpdateOperation<G> = UpdateOperation {
            removed_fragment_ids,
            updated_fragments,
            new_fragments,
            fields_modified: Vec::new(),
            merged_generations,
            fields_for_preserving_frag_bitmap: self.dataset.preserved_field_ids(),
            update_mode: Some(UpdateMode::RewriteRows),
            inserted_rows_filter: committed_filter,
            updated_fragment_offsets: None,
        };
        self.transaction = Some(Transaction { read_version: self.dataset.version, operation });
        self.merge_stats = Some(MergeStats::from_metrics(&metrics));
        self.affected_rows = Some(state.delete_row_addrs);
    }
}

/// A plan node has to have exactly one child.
pub fn check_children(count: usize) -> (r: Result<(), MergeError>)
    ensures
        count == 1 ==> r is Ok,
        count != 1 ==> r == Err::<(), MergeError>(MergeError::ChildCount),
{
    if count != 1 {
        return Err(MergeError::ChildCount);
    }
    Ok(())
}

/// A step of an execution. What it does is done by whoever runs the merge.
#[derive(Clone, Copy, Debug, PartialEq, Eq, Structural)]
pub enum ExecutionStep {
    /// Find out where new files go.
    ResolveBases,
    /// Write the rows to new fragments.
    WriteFragments,
    /// Give the new fragments their row ids.
    AssignRowIds,
    /// Delete the replaced and removed rows of the old fragments.
    ApplyDeletions,
    /// Keep what the merge leaves.
    StoreResults,
    /// Remove the new fragments.
    CleanUp,
    /// Report the error. Nothing follows.
    Fail,
    /// Report success. Nothing follows.
    Succeed,
}

impl ExecutionStep {
    /// What follows a step that went well or failed.
    pub open spec fn after(self, ok: bool) -> ExecutionStep {
        match self {
            ExecutionStep::ResolveBases => if ok {
                ExecutionStep::WriteFragments
            } else {
                ExecutionStep::Fail
            },
            ExecutionStep::WriteFragments => if ok {
                ExecutionStep::AssignRowIds
            } else {
                ExecutionStep::Fail
            },
            ExecutionStep::AssignRowIds => if ok {
                ExecutionStep::ApplyDeletions
            } else {
                ExecutionStep::CleanUp
            },
            ExecutionStep::ApplyDeletions => if ok {
                ExecutionStep::StoreResults
            } else {
                ExecutionStep::CleanUp
            },
            ExecutionStep::StoreResults => ExecutionStep::Succeed,
            ExecutionStep::CleanUp => ExecutionStep::Fail,
            ExecutionStep::Fail => ExecutionStep::Fail,
            ExecutionStep::Succeed => ExecutionStep::Succeed,
        }
    }

    /// What follows this step, which went well or failed. New files that are
    /// not part of a transaction are removed before the error is reported.
    pub fn next(self, ok: bool) -> (r: ExecutionStep)
        ensures
            r == self.after(ok),
            self is ResolveBases ==> r == (if ok {
                ExecutionStep::WriteFragments
            } else {
                ExecutionStep::Fail
            }),
            self is WriteFragments ==> r == (if ok {
                ExecutionStep::AssignRowIds
            } else {
                ExecutionStep::Fail
            }),
            self is AssignRowIds ==> r == (if ok {
                ExecutionStep::ApplyDeletions
            } else {
                ExecutionStep::CleanUp
            }),
            self is ApplyDeletions ==> r == (if ok {
                ExecutionStep::StoreResults
            } else {
                ExecutionStep::CleanUp
            }),
            self is StoreResults || self is Succeed ==> r is Succeed,
            self is CleanUp || self is Fail ==> r is Fail,
    {
        match self {
            ExecutionStep::ResolveBases if ok => ExecutionStep::WriteFragments,
            ExecutionStep::WriteFragments if ok => ExecutionStep::AssignRowIds,
            ExecutionStep::AssignRowIds if ok => ExecutionStep::ApplyDeletions,
            ExecutionStep::ApplyDeletions if ok => ExecutionStep::StoreResults,
            ExecutionStep::AssignRowIds | ExecutionStep::ApplyDeletions => ExecutionStep::CleanUp,
            ExecutionStep::StoreResults | ExecutionStep::Succeed => ExecutionStep::Succeed,
            _ => ExecutionStep::Fail,
        }
    }
}

/// The steps of an execution, given how each went.
pub open spec fn steps(outcomes: Seq<bool>) -> Seq<ExecutionStep>
    decreases outcomes.len(),
{
    if outcomes.len() == 0 {
        seq![ExecutionStep::ResolveBases]
    } else {
        let before = steps(outcomes.drop_last());
        before.push(before.last().after(outcomes.last()))
    }
}

/// The steps of an execution that goes well, before it reports so.
pub open spec fn good_way() -> Seq<ExecutionStep> {
    seq![
        ExecutionStep::ResolveBases,
        ExecutionStep::WriteFragments,
        ExecutionStep::AssignRowIds,
        ExecutionStep::ApplyDeletions,
        ExecutionStep::StoreResults,
    ]
}

/// An execution keeps to the good way until a step fails.
proof fn lemma_good_way(outcomes: Seq<bool>)
    ensures
        steps(outcomes).len() == outcomes.len() + 1,
        match steps(outcomes).last() {
            ExecutionStep::CleanUp | ExecutionStep::Fail => true,
            ExecutionStep::Succeed => {
                &&& steps(outcomes).len() > 5
                &&& steps(outcomes).take(5) == good_way()
            },
            _ => {
                &&& steps(outcomes).len() <= 5
                &&& steps(outcomes) == good_way().take(steps(outcomes).len() as int)
            },
        },
    decreases outcomes.len(),
{
    if outcomes.len() == 0 {
        assert(steps(outcomes) =~= good_way().take(1));
    } else {
        let before = steps(outcomes.drop_last());
        let path = steps(outcomes);
        lemma_good_way(outcomes.drop_last());
        assert(path.drop_last() =~= before);
        match path.last() {
            ExecutionStep::CleanUp | ExecutionStep::Fail => {},
            ExecutionStep::Succeed => {
                assert(path.take(5) =~= before.take(5));
                assert(path.take(5) =~= good_way());
            },
            _ => {
                let n: int = before.len() as int;
                assert(before.last() == good_way().take(n)[n - 1]);
                assert(n < 5);
                assert(path.last() == good_way()[n]);
                assert(path =~= good_way().take(n + 1));
            },
        }
    }
}

/// Whether an execution wrote, deleted, stored and cleaned up, by where it got
/// to.
spec fn way_to(path: Seq<ExecutionStep>) -> bool {
    let written = path.contains(ExecutionStep::AssignRowIds);
    let cleaned = path.contains(ExecutionStep::CleanUp);
    let stored = path.contains(ExecutionStep::StoreResults);
    let deleted = path.contains(ExecutionStep::ApplyDeletions);
    match path.last() {
        ExecutionStep::ResolveBases => !written && !cleaned && !stored && !deleted,
        ExecutionStep::WriteFragments => !written && !cleaned && !stored && !deleted,
        ExecutionStep::AssignRowIds => written && !cleaned && !stored && !deleted,
        ExecutionStep::ApplyDeletions => written && !cleaned && !stored && deleted,
        ExecutionStep::StoreResults => written && !cleaned && stored && deleted,
        ExecutionStep::Succeed => written && !cleaned && stored && deleted,
        ExecutionStep::CleanUp => written && cleaned && !stored,
        ExecutionStep::Fail => cleaned == written && !stored,
    }
}

proof fn lemma_way(outcomes: Seq<bool>)
    ensures
        steps(outcomes).len() == outcomes.len() + 1,
        way_to(steps(outcomes)),
    decreases outcomes.len(),
{
    if outcomes.len() == 0 {
        assert(steps(outcomes).last() == ExecutionStep::ResolveBases);
    } else {
        let before = steps(outcomes.drop_last());
        lemma_way(outcomes.drop_last());
        let step = before.last().after(outcomes.last());
        assert forall|s: ExecutionStep| #[trigger]
            before.push(step).contains(s) == (before.contains(s) || s == step) by {
            if before.contains(s) {
                let i = choose|i: int| 0 <= i < before.len() && before[i] == s;
                assert(before.push(step)[i] == s);
            }
            assert(before.push(step)[before.len() as int] == step);
        }
    }
}

/// A failed execution removes what it wrote, and nothing else: it cleans up if
/// and only if the new fragments were written. It stores no results.
pub proof fn law_failure_leaves_nothing(outcomes: Seq<bool>)
    requires
        steps(outcomes).last() == ExecutionStep::Fail,
    ensures
        !steps(outcomes).contains(ExecutionStep::StoreResults),
        steps(outcomes).contains(ExecutionStep::CleanUp) == steps(outcomes).contains(
            ExecutionStep::AssignRowIds,
        ),
{
    lemma_way(outcomes);
}

/// An execution that succeeds wrote its rows, gave them their ids, deleted the
/// rows they replace and stored its results, in this order, and removed nothing
/// that it wrote.
pub proof fn law_success_stores_results(outcomes: Seq<bool>)
    requires
        steps(outcomes).last() == ExecutionStep::Succeed,
    ensures
        steps(outcomes).len() > 5,
        steps(outcomes).take(5) == good_way(),
        !steps(outcomes).contains(ExecutionStep::CleanUp),
{
    lemma_way(outcomes);
    lemma_good_way(outcomes);
}

/// An execution ends after at most five steps. It succeeds if and only if the
/// bases were resolved, the fragments written, the row ids assigned and the
/// deletions applied.
pub proof fn law_execution_ends(outcomes: Seq<bool>)
    requires
        outcomes.len() >= 5,
    ensures
        steps(outcomes).last() == (if outcomes[0] && outcomes[1] && outcomes[2] && outcomes[3] {
            ExecutionStep::Succeed
        } else {
            ExecutionStep::Fail
        }),
    decreases outcomes.len(),
{
    if outcomes.len() > 5 {
        law_execution_ends(outcomes.drop_last());
    } else {
        reveal_with_fuel(steps, 6);
    }
}

/// The steps of an execution that goes well, one by one.
pub proof fn law_steps_of_success(outcomes: Seq<bool>)
    requires
        steps(outcomes).last() == ExecutionStep::Succeed,
    ensures
        steps(outcomes)[0] == ExecutionStep::ResolveBases,
        steps(outcomes)[1] == ExecutionStep::WriteFragments,
        steps(outcomes)[2] == ExecutionStep::AssignRowIds,
        steps(outcomes)[3] == ExecutionStep::ApplyDeletions,
        steps(outcomes)[4] == ExecutionStep::StoreResults,
        forall|i: int|
            5 <= i < steps(outcomes).len() ==> #[trigger] steps(outcomes)[i]
                == ExecutionStep::Succeed,
    decreases outcomes.len(),
{
    law_success_stores_results(outcomes);
    let path = steps(outcomes);
    assert(path.take(5)[0] == path[0]);
    assert(path.take(5)[1] == path[1]);
    assert(path.take(5)[2] == path[2]);
    assert(path.take(5)[3] == path[3]);
    assert(path.take(5)[4] == path[4]);
    if outcomes.len() > 0 {
        let before = steps(outcomes.drop_last());
        lemma_good_way(outcomes.drop_last());
        if before.last() == ExecutionStep::Succeed {
            law_steps_of_success(outcomes.drop_last());
        } else {
            assert(before.last() == ExecutionStep::StoreResults);
            assert(before.len() <= 5);
        }
    }
}

} // verus!
