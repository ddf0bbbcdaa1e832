//! The state that a merge builds up row by row.

use std::collections::HashSet;

use crate::action::Action;
use crate::columns::UInt64Column;
use crate::error::MergeError;
use crate::text::texts;
use crate::treemap::treemap_values;
use roaring::RoaringTreemap;
use vstd::prelude::*;

verus! {

broadcast use vstd::std_specs::hash::group_hash_axioms;

/// What to do with a source row whose target row was already processed.
#[derive(Clone, Copy, Debug, PartialEq, Eq, Structural)]
pub enum SourceDedupeBehavior {
    /// Fail the merge.
    Fail,
    /// Keep the first row and skip the others.
    FirstSeen,
}

/// A counter. It wraps around where its number no longer fits.
#[derive(Clone, Copy, Debug, PartialEq, Eq, Structural)]
pub struct Count {
    n: usize,
}

impl View for Count {
    type V = usize;

    closed spec fn view(&self) -> usize {
        self.n
    }
}

impl Count {
    /// A counter at zero.
    pub fn new() -> (r: Count)
        ensures
            r@ == 0,
    {
        Count { n: 0 }
    }

    /// Counts `n` more.
    pub fn add(&mut self, n: usize)
        ensures
            final(self)@ == old(self)@.wrapping_add(n),
    {
        self.n = self.n.wrapping_add(n);
    }

    /// The number counted so far.
    pub fn value(&self) -> (r: usize)
        ensures
            r == self@,
    {
        self.n
    }
}

/// The counters of a merge.
#[derive(Clone, Copy, Debug, PartialEq, Eq, Structural)]
pub struct MergeInsertMetrics {
    pub num_inserted_rows: Count,
    pub num_updated_rows: Count,
    pub num_deleted_rows: Count,
    pub num_skipped_duplicates: Count,
    pub bytes_written: Count,
    pub num_files_written: Count,
}

impl MergeInsertMetrics {
    /// All counters at zero.
    pub fn new() -> (r: MergeInsertMetrics)
        ensures
            r@ == MetricsView::zero(),
            r.num_inserted_rows@ == 0,
            r.num_updated_rows@ == 0,
            r.num_deleted_rows@ == 0,
            r.num_skipped_duplicates@ == 0,
            r.bytes_written@ == 0,
            r.num_files_written@ == 0,
    {
        MergeInsertMetrics {
            num_inserted_rows: Count::new(),
            num_updated_rows: Count::new(),
            num_deleted_rows: Count::new(),
            num_skipped_duplicates: Count::new(),
            bytes_written: Count::new(),
            num_files_written: Count::new(),
        }
    }
}

/// What the counters of a merge show.
pub struct MetricsView {
    pub inserted: usize,
    pub updated: usize,
    pub deleted: usize,
    pub skipped: usize,
    pub bytes_written: usize,
    pub files_written: usize,
}

impl MetricsView {
    /// All counters at zero.
    pub open spec fn zero() -> MetricsView {
        MetricsView {
            inserted: 0,
            updated: 0,
            deleted: 0,
            skipped: 0,
            bytes_written: 0,
            files_written: 0,
        }
    }
}

impl View for MergeInsertMetrics {
    type V = MetricsView;

    open spec fn view(&self) -> MetricsView {
        MetricsView {
            inserted: self.num_inserted_rows@,
            updated: self.num_updated_rows@,
            deleted: self.num_deleted_rows@,
            skipped: self.num_skipped_duplicates@,
            bytes_written: self.bytes_written@,
            files_written: self.num_files_written@,
        }
    }
}

/// The ids of updated rows, in the order in which the rows are written. They
/// are only kept for a dataset whose row ids are stable.
#[derive(Debug, PartialEq, Eq)]
pub struct CapturedRowIds {
    pub stable: bool,
    pub row_ids: Vec<u64>,
}

impl CapturedRowIds {
    /// Nothing captured yet.
    pub fn new(stable: bool) -> (r: CapturedRowIds)
        ensures
            r.stable == stable,
            r.row_ids@ == Seq::<u64>::empty(),
    {
        CapturedRowIds { stable, row_ids: Vec::new() }
    }

    /// Captures one more row id.
    pub fn capture(&mut self, row_id: u64)
        ensures
            final(self).stable == old(self).stable,
            final(self).row_ids@ == old(self).row_ids@.push(row_id),
    {
        self.row_ids.push(row_id);
    }

    /// The captured ids, if row ids are stable.
    pub fn row_id_sequence(&self) -> (r: Option<&Vec<u64>>)
        ensures
            r == (if self.stable {
                Some(&self.row_ids)
            } else {
                None
            }),
    {
        if self.stable {
            Some(&self.row_ids)
        } else {
            None
        }
    }
}

/// The value of a row's key, encoded as bytes.
#[derive(Debug, PartialEq, Eq, Hash)]
pub struct KeyValue {
    pub bytes: Vec<u8>,
}

impl View for KeyValue {
    type V = Seq<u8>;

    open spec fn view(&self) -> Seq<u8> {
        self.bytes@
    }
}

/// The key of a row that may be inserted, and whether the filter of inserted
/// keys takes it.
#[derive(Debug, PartialEq, Eq)]
pub enum RowKey {
    /// The row has no key value.
    Absent,
    /// The row's key, which the filter takes.
    Captured(KeyValue),
    /// The filter refuses the row's key.
    Rejected(String),
}

/// What others say of a row.
#[derive(Debug, PartialEq, Eq)]
pub struct RowReply {
    /// The row's key, if the row is inserted.
    pub key: RowKey,
    /// Why the id of the target row cannot be captured, if it cannot.
    pub capture_error: Option<String>,
}

impl RowReply {
    /// The row has no key, and nothing speaks against capturing.
    pub fn none() -> (r: RowReply)
        ensures
            r.key is Absent,
            r.capture_error is None,
    {
        RowReply { key: RowKey::Absent, capture_error: None }
    }
}

/// A copy of some bytes.
pub(crate) fn copy_bytes(bytes: &Vec<u8>) -> (r: Vec<u8>)
    ensures
        r@ == bytes@,
{
    let mut out: Vec<u8> = Vec::new();
    let n: usize = bytes.len();
    for i in 0..n
        invariant
            n == bytes.len(),
            out@ == bytes@.take(i as int),
    {
        out.push(bytes[i]);
        assert(bytes@.take(i as int).push(bytes@[i as int]) =~= bytes@.take(i + 1));
    }
    assert(bytes@.take(n as int) =~= bytes@);
    out
}

/// The keys that a sequence of key values holds.
pub open spec fn key_bytes(keys: Seq<KeyValue>) -> Seq<Seq<u8>> {
    keys.map_values(|k: KeyValue| k@)
}

/// Collects the keys of inserted rows, to detect conflicting inserts.
#[derive(Debug)]
pub struct KeyExistenceFilterBuilder {
    /// The ids of the fields that make up the key.
    pub field_ids: Vec<i32>,
    /// The keys, in the order in which their rows were inserted.
    pub keys: Vec<KeyValue>,
}

impl KeyExistenceFilterBuilder {
    /// A builder without keys.
    pub fn new(field_ids: Vec<i32>) -> (r: KeyExistenceFilterBuilder)
        ensures
            r.field_ids == field_ids,
            key_bytes(r.keys@) == Seq::<Seq<u8>>::empty(),
            r.keys@.len() == 0,
    {
        let r = KeyExistenceFilterBuilder { field_ids, keys: Vec::new() };
        assert(key_bytes(r.keys@) =~= Seq::<Seq<u8>>::empty());
        r
    }

    /// Adds the key of one inserted row.
    pub fn insert(&mut self, key: &KeyValue)
        ensures
            final(self).field_ids == old(self).field_ids,
            key_bytes(final(self).keys@) == key_bytes(old(self).keys@).push(key@),
            final(self).keys@.len() == old(self).keys@.len() + 1,
            final(self).keys@.drop_last() == old(self).keys@,
            final(self).keys@.last().bytes@ == key.bytes@,
    {
        self.keys.push(KeyValue { bytes: copy_bytes(&key.bytes) });
        assert(key_bytes(self.keys@) =~= key_bytes(old(self).keys@).push(key@));
        assert(self.keys@.drop_last() =~= old(self).keys@);
    }
}

/// What a merge has done so far.
pub struct MergeView {
    /// Addresses of the target rows that are replaced or removed.
    pub delete_row_addrs: Set<u64>,
    /// Ids of the replaced rows, in the order of their replacements.
    pub captured_row_ids: Seq<u64>,
    /// Keys of the added rows.
    pub inserted_keys: Seq<Seq<u8>>,
    /// Ids of the target rows that were processed.
    pub processed_row_ids: Set<u64>,
    /// The counters.
    pub metrics: MetricsView,
}

/// How a merge treats its rows.
pub struct MergeConfig {
    pub stable_row_ids: bool,
    pub dedupe: SourceDedupeBehavior,
}

/// What a merge is set up with.
pub struct MergeSetup {
    pub config: MergeConfig,
    /// Whether the captured ids of updated rows are handed on.
    pub captures: bool,
    /// The columns that the merge joins on.
    pub on_columns: Seq<Seq<char>>,
    /// The ids of the fields that make up the key.
    pub field_ids: Seq<i32>,
}

/// A merge: what it is set up with, and what it has done so far.
pub struct MergeModel {
    pub setup: MergeSetup,
    pub progress: MergeView,
}

/// What becomes of one row.
pub enum RowOutcome {
    /// The row is written.
    Kept(MergeView),
    /// The row is not written.
    Dropped(MergeView),
    /// The merge fails, and this is where it got to.
    Failed(MergeView, MergeError),
}

/// The outcome of a row whose target row was already processed.
pub open spec fn duplicate_outcome(
    s: MergeView,
    dedupe: SourceDedupeBehavior,
    row_idx: usize,
) -> RowOutcome {
    match dedupe {
        SourceDedupeBehavior::Fail => RowOutcome::Failed(
            s,
            MergeError::DuplicateSourceRow { row_idx },
        ),
        SourceDedupeBehavior::FirstSeen => RowOutcome::Dropped(
            MergeView {
                metrics: MetricsView {
                    skipped: s.metrics.skipped.wrapping_add(1),
                    ..s.metrics
                },
                ..s
            },
        ),
    }
}

/// What becomes of row `row_idx`, which is to be treated by `action` and
/// matches the target row at `addr` with id `row_id`, if it matches one.
pub open spec fn row_outcome(
    s: MergeView,
    config: MergeConfig,
    action: Action,
    row_idx: usize,
    addr: Option<u64>,
    row_id: u64,
    reply: RowReply,
) -> RowOutcome {
    match action {
        Action::Nothing => RowOutcome::Dropped(s),
        Action::Fail => RowOutcome::Failed(s, MergeError::MatchedRow { row_idx }),
        Action::Delete => match addr {
            None => RowOutcome::Dropped(s),
            Some(a) => if s.processed_row_ids.contains(row_id) {
                duplicate_outcome(s, config.dedupe, row_idx)
            } else {
                RowOutcome::Dropped(
                    MergeView {
                        delete_row_addrs: s.delete_row_addrs.insert(a),
                        processed_row_ids: s.processed_row_ids.insert(row_id),
                        metrics: MetricsView {
                            deleted: s.metrics.deleted.wrapping_add(1),
                            ..s.metrics
                        },
                        ..s
                    },
                )
            },
        },
        Action::UpdateAll => {
            let counted = MetricsView {
                updated: s.metrics.updated.wrapping_add(1),
                ..s.metrics
            };
            match addr {
                None => RowOutcome::Kept(MergeView { metrics: counted, ..s }),
                Some(a) => if s.processed_row_ids.contains(row_id) {
                    duplicate_outcome(s, config.dedupe, row_idx)
                } else {
                    let claimed = MergeView {
                        delete_row_addrs: s.delete_row_addrs.insert(a),
                        processed_row_ids: s.processed_row_ids.insert(row_id),
                        ..s
                    };
                    if !config.stable_row_ids {
                        RowOutcome::Kept(MergeView { metrics: counted, ..claimed })
                    } else {
                        match reply.capture_error {
                            Some(reason) => RowOutcome::Failed(
                                claimed,
                                MergeError::CaptureRefused { reason },
                            ),
                            None => RowOutcome::Kept(
                                MergeView {
                                    captured_row_ids: s.captured_row_ids.push(row_id),
                                    metrics: counted,
                                    ..claimed
                                },
                            ),
                        }
                    }
                },
            }
        },
        Action::Insert => {
            let counted = MetricsView {
                inserted: s.metrics.inserted.wrapping_add(1),
                ..s.metrics
            };
            match reply.key {
                RowKey::Absent => RowOutcome::Kept(MergeView { metrics: counted, ..s }),
                RowKey::Captured(k) => RowOutcome::Kept(
                    MergeView {
                        inserted_keys: s.inserted_keys.push(k@),
                        metrics: counted,
                        ..s
                    },
                ),
                RowKey::Rejected(reason) => RowOutcome::Failed(
                    s,
                    MergeError::KeyRejected { reason },
                ),
            }
        },
    }
}

/// The state of a merge: which target rows go away, which ids and keys the new
/// rows have, and the counters.
pub struct MergeState {
    /// Addresses of the target rows to delete, because they are updated or
    /// deleted.
    pub delete_row_addrs: RoaringTreemap,
    /// Ids of the updated rows.
    pub updating_row_ids: CapturedRowIds,
    /// Keys of inserted rows, not of updated ones.
    pub inserted_rows_filter: KeyExistenceFilterBuilder,
    /// The counters.
    pub metrics: MergeInsertMetrics,
    /// Whether the dataset uses stable row ids.
    pub stable_row_ids: bool,
    /// Ids of the target rows that were processed, to detect duplicates.
    pub processed_row_ids: HashSet<u64>,
    /// The columns that the merge joins on.
    pub on_columns: Vec<String>,
    /// What to do with duplicate source rows.
    pub source_dedupe_behavior: SourceDedupeBehavior,
}

impl View for MergeState {
    type V = MergeModel;

    open spec fn view(&self) -> MergeModel {
        MergeModel {
            setup: MergeSetup {
                config: MergeConfig {
                    stable_row_ids: self.stable_row_ids,
                    dedupe: self.source_dedupe_behavior,
                },
                captures: self.updating_row_ids.stable,
                on_columns: texts(self.on_columns@),
                field_ids: self.inserted_rows_filter.field_ids@,
            },
            progress: MergeView {
                delete_row_addrs: treemap_values(self.delete_row_addrs),
                captured_row_ids: self.updating_row_ids.row_ids@,
                inserted_keys: key_bytes(self.inserted_rows_filter.keys@),
                processed_row_ids: self.processed_row_ids@,
                metrics: self.metrics@,
            },
        }
    }
}

impl MergeState {
    /// Captured row ids are handed on exactly where row ids are stable.
    pub open spec fn wf(&self) -> bool {
        self@.setup.captures == self@.setup.config.stable_row_ids
    }

    /// How the merge treats its rows.
    pub open spec fn config(&self) -> MergeConfig {
        self@.setup.config
    }

    /// What no row changes.
    pub open spec fn same_setup(&self, other: &MergeState) -> bool {
        self@.setup == other@.setup
    }

    /// The state before the first row.
    pub fn new(
        metrics: MergeInsertMetrics,
        stable_row_ids: bool,
        on_columns: Vec<String>,
        field_ids: Vec<i32>,
        source_dedupe_behavior: SourceDedupeBehavior,
    ) -> (r: MergeState)
        ensures
            r.wf(),
            r@.setup == (MergeSetup {
                config: MergeConfig { stable_row_ids, dedupe: source_dedupe_behavior },
                captures: stable_row_ids,
                on_columns: texts(on_columns@),
                field_ids: field_ids@,
            }),
            r@.progress == (MergeView {
                delete_row_addrs: Set::empty(),
                captured_row_ids: Seq::empty(),
                inserted_keys: Seq::empty(),
                processed_row_ids: Set::empty(),
                metrics: metrics@,
            }),
            r.metrics == metrics,
            r.stable_row_ids == stable_row_ids,
            r.on_columns == on_columns,
            r.source_dedupe_behavior == source_dedupe_behavior,
            r.inserted_rows_filter.field_ids == field_ids,
            r.updating_row_ids.stable == stable_row_ids,
    {
        MergeState {
            delete_row_addrs: RoaringTreemap::new(),
            updating_row_ids: CapturedRowIds::new(stable_row_ids),
            inserted_rows_filter: KeyExistenceFilterBuilder::new(field_ids),
            metrics,
            stable_row_ids,
            processed_row_ids: HashSet::new(),
            on_columns,
            source_dedupe_behavior,
        }
    }

    /// Marks the target row with id `row_id` as processed. If it already was,
    /// the answer says what becomes of the row that matches it again.
    fn claim_target_row(&mut self, row_idx: usize, row_id: u64) -> (r: Result<bool, MergeError>)
        requires
            old(self).wf(),
        ensures
            final(self).same_setup(old(self)),
            if old(self)@.progress.processed_row_ids.contains(row_id) {
                match r {
                    Ok(claimed) => !claimed && duplicate_outcome(
                        old(self)@.progress,
                        old(self).config().dedupe,
                        row_idx,
                    ) == RowOutcome::Dropped(final(self)@.progress),
                    Err(e) => final(self)@.progress == old(self)@.progress && duplicate_outcome(
                        old(self)@.progress,
                        old(self).config().dedupe,
                        row_idx,
                    ) == RowOutcome::Failed(final(self)@.progress, e),
                }
            } else {
                &&& r == Ok::<bool, MergeError>(true)
                &&& final(self)@.progress == (MergeView {
                    processed_row_ids: old(self)@.progress.processed_row_ids.insert(row_id),
                    ..old(self)@.progress
                })
            },
    {
        if !self.processed_row_ids.insert(row_id) {
            assert(self.processed_row_ids@ =~= old(self).processed_row_ids@);
            match self.source_dedupe_behavior {
                SourceDedupeBehavior::Fail => {
                    return Err(MergeError::DuplicateSourceRow { row_idx });
                },
                SourceDedupeBehavior::FirstSeen => {
                    self.metrics.num_skipped_duplicates.add(1);
                    return Ok(false);
                },
            }
        }
        Ok(true)
    }

    /// Processes one row. The answer is the row's index if it is to be
    /// written.
    pub fn process_row_action(
        &mut self,
        action: Action,
        row_idx: usize,
        row_addrs: &UInt64Column,
        row_ids: &UInt64Column,
        reply: &RowReply,
    ) -> (r: Result<Option<usize>, MergeError>)
        requires
            old(self).wf(),
            row_addrs.wf(),
            action is Delete || action is UpdateAll ==> {
                &&& row_idx < row_addrs@.options().len()
                &&& row_addrs@.options()[row_idx as int] is Some ==> row_idx < row_ids@.values.len()
            },
        ensures
            final(self).same_setup(old(self)),
            ({
                let outcome = row_outcome(
                    old(self)@.progress,
                    old(self).config(),
                    action,
                    row_idx,
                    row_addrs@.options()[row_idx as int],
                    row_ids@.values[row_idx as int],
                    *reply,
                );
                match r {
                    Ok(Some(i)) => i == row_idx && outcome == RowOutcome::Kept(final(self)@.progress),
                    Ok(None) => outcome == RowOutcome::Dropped(final(self)@.progress),
                    Err(e) => outcome == RowOutcome::Failed(final(self)@.progress, e),
                }
            }),
    {
        match action {
            Action::Delete => {
                if !row_addrs.is_null(row_idx) {
                    let row_addr: u64 = row_addrs.value(row_idx);
                    let row_id: u64 = row_ids.value(row_idx);
                    // A source with duplicate keys matches one target row more
                    // than once. A target row without a source row comes here
                    // too, but only once.
                    match self.claim_target_row(row_idx, row_id) {
                        Err(e) => {
                            return Err(e);
                        },
                        Ok(false) => {
                            return Ok(None);
                        },
                        Ok(true) => {},
                    }
                    self.delete_row_addrs.insert(row_addr);
                    self.metrics.num_deleted_rows.add(1);
                }
                Ok(None)
            },
            Action::UpdateAll => {
                if !row_addrs.is_null(row_idx) {
                    let row_addr: u64 = row_addrs.value(row_idx);
                    let row_id: u64 = row_ids.value(row_idx);
                    match self.claim_target_row(row_idx, row_id) {
                        Err(e) => {
                            return Err(e);
                        },
                        Ok(false) => {
                            return Ok(None);
                        },
                        Ok(true) => {},
                    }
                    self.delete_row_addrs.insert(row_addr);
                    if self.stable_row_ids {
                        if let Some(reason) = &reply.capture_error {
                            return Err(MergeError::CaptureRefused { reason: reason.clone() });
                        }
                        self.updating_row_ids.capture(row_id);
                    }
                    // The old row goes away, but this counts as an update only.
                }
                self.metrics.num_updated_rows.add(1);
                Ok(Some(row_idx))
            },
            Action::Insert => {
                match &reply.key {
                    RowKey::Absent => {},
                    RowKey::Captured(k) => {
                        self.inserted_rows_filter.insert(k);
                    },
                    RowKey::Rejected(reason) => {
                        return Err(MergeError::KeyRejected { reason: reason.clone() });
                    },
                }
                self.metrics.num_inserted_rows.add(1);
                Ok(Some(row_idx))
            },
            Action::Nothing => Ok(None),
            Action::Fail => Err(MergeError::MatchedRow { row_idx }),
        }
    }
}

/// The view of a merge leaves out nothing of what it has done: every address, every
/// captured id, the bytes of every key, and each counter under its own name.
pub proof fn law_view_leaves_nothing_out(state: MergeState)
    ensures
        state@.setup.config.stable_row_ids == state.stable_row_ids,
        state@.setup.config.dedupe == state.source_dedupe_behavior,
        state@.setup.captures == state.updating_row_ids.stable,
        state@.setup.field_ids == state.inserted_rows_filter.field_ids@,
        state@.setup.on_columns.len() == state.on_columns@.len(),
        forall|i: int|
            0 <= i < state.on_columns@.len() ==> #[trigger] state@.setup.on_columns[i]
                == state.on_columns@[i]@,
        forall|a: u64| #[trigger]
            state@.progress.delete_row_addrs.contains(a) <==> treemap_values(
                state.delete_row_addrs,
            ).contains(a),
        state@.progress.captured_row_ids == state.updating_row_ids.row_ids@,
        forall|id: u64| #[trigger]
            state@.progress.processed_row_ids.contains(id) <==> state.processed_row_ids@.contains(
                id,
            ),
        state@.progress.inserted_keys.len() == state.inserted_rows_filter.keys@.len(),
        forall|i: int|
            0 <= i < state.inserted_rows_filter.keys@.len()
                ==> #[trigger] state@.progress.inserted_keys[i]
                == state.inserted_rows_filter.keys@[i].bytes@,
        state@.progress.metrics.inserted == state.metrics.num_inserted_rows@,
        state@.progress.metrics.updated == state.metrics.num_updated_rows@,
        state@.progress.metrics.deleted == state.metrics.num_deleted_rows@,
        state@.progress.metrics.skipped == state.metrics.num_skipped_duplicates@,
        state@.progress.metrics.bytes_written == state.metrics.bytes_written@,
        state@.progress.metrics.files_written == state.metrics.num_files_written@,
{
}

/// How a merge treats its rows is what it was set up with; and of two states with
/// the same setup each part of it is the same.
pub proof fn law_setup_is_what_was_set(a: MergeState, b: MergeState)
    ensures
        a.config().stable_row_ids == a.stable_row_ids,
        a.config().dedupe == a.source_dedupe_behavior,
        a.wf() <==> a.updating_row_ids.stable == a.stable_row_ids,
        a.same_setup(&b) ==> {
            &&& a.stable_row_ids == b.stable_row_ids
            &&& a.source_dedupe_behavior == b.source_dedupe_behavior
            &&& a.updating_row_ids.stable == b.updating_row_ids.stable
            &&& a.inserted_rows_filter.field_ids@ == b.inserted_rows_filter.field_ids@
            &&& a.on_columns@.len() == b.on_columns@.len()
            &&& forall|i: int|
                0 <= i < a.on_columns@.len() ==> (#[trigger] a.on_columns@[i])@ == b.on_columns@[i]@
        },
{
    if a.same_setup(&b) {
        assert(texts(a.on_columns@).len() == texts(b.on_columns@).len());
        assert forall|i: int| 0 <= i < a.on_columns@.len() implies (#[trigger] a.on_columns@[i])@
            == b.on_columns@[i]@ by {
            assert(texts(a.on_columns@)[i] == texts(b.on_columns@)[i]);
        }
    }
}

} // verus!
