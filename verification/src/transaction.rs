//! What a finished merge hands over: fragments, counts and a transaction.

use crate::error::MergeError;
use crate::merge_state::{
    copy_bytes, key_bytes, CapturedRowIds, KeyExistenceFilterBuilder, KeyValue, MergeInsertMetrics,
    MetricsView,
};
use vstd::prelude::*;

verus! {

/// A data file of a fragment.
#[derive(Debug, PartialEq, Eq)]
pub struct DataFile {
    /// Where it is.
    pub path: String,
    /// How large it is, if that is known.
    pub file_size_bytes: Option<u64>,
}

/// A fragment of a dataset.
#[derive(Debug, PartialEq, Eq)]
pub struct Fragment {
    pub id: u64,
    pub files: Vec<DataFile>,
    /// The number of rows that were written to it, if that is known.
    pub physical_rows: Option<usize>,
    /// The ids of its first rows, serialised.
    pub row_id_meta: Option<Vec<u8>>,
}

/// The size of a file, as far as it is known.
pub open spec fn known_size(file: DataFile) -> nat {
    match file.file_size_bytes {
        Some(size) => size as nat,
        None => 0,
    }
}

/// The sizes of files together.
pub open spec fn sum_of_sizes(files: Seq<DataFile>) -> nat
    decreases files.len(),
{
    if files.len() == 0 {
        0
    } else {
        sum_of_sizes(files.drop_last()) + known_size(files.last())
    }
}

/// The sizes of all files of fragments together.
pub open spec fn total_bytes(fragments: Seq<Fragment>) -> nat
    decreases fragments.len(),
{
    if fragments.len() == 0 {
        0
    } else {
        total_bytes(fragments.drop_last()) + sum_of_sizes(fragments.last().files@)
    }
}

/// The number of files of fragments.
pub open spec fn total_files(fragments: Seq<Fragment>) -> nat
    decreases fragments.len(),
{
    if fragments.len() == 0 {
        0
    } else {
        total_files(fragments.drop_last()) + fragments.last().files@.len()
    }
}

/// Fewer fragments have no more bytes and files.
proof fn lemma_totals_grow(fragments: Seq<Fragment>, n: int)
    requires
        0 <= n <= fragments.len(),
    ensures
        total_bytes(fragments.take(n)) <= total_bytes(fragments),
        total_files(fragments.take(n)) <= total_files(fragments),
    decreases fragments.len(),
{
    if n < fragments.len() {
        assert(fragments.drop_last().take(n) =~= fragments.take(n));
        lemma_totals_grow(fragments.drop_last(), n);
    } else {
        assert(fragments.take(n) =~= fragments);
    }
}

/// Fewer files have no more bytes.
proof fn lemma_sizes_grow(files: Seq<DataFile>, n: int)
    requires
        0 <= n <= files.len(),
    ensures
        sum_of_sizes(files.take(n)) <= sum_of_sizes(files),
    decreases files.len(),
{
    if n < files.len() {
        assert(files.drop_last().take(n) =~= files.take(n));
        lemma_sizes_grow(files.drop_last(), n);
    } else {
        assert(files.take(n) =~= files);
    }
}

/// The bytes and files of new fragments. A file of unknown size counts as a
/// file without bytes.
pub fn calculate_write_metrics(new_fragments: &Vec<Fragment>) -> (r: (usize, usize))
    requires
        total_bytes(new_fragments@) <= u64::MAX,
        total_files(new_fragments@) <= usize::MAX,
    ensures
        r.0 == (total_bytes(new_fragments@) as u64) as usize,
        r.1 == total_files(new_fragments@),
{
    let n: usize = new_fragments.len();
    let mut bytes: u64 = 0;
    let mut count: usize = 0;
    for i in 0..n
        invariant
            n == new_fragments.len(),
            total_bytes(new_fragments@) <= u64::MAX,
            total_files(new_fragments@) <= usize::MAX,
            bytes == total_bytes(new_fragments@.take(i as int)),
            count == total_files(new_fragments@.take(i as int)),
    {
        let files: &Vec<DataFile> = &new_fragments[i].files;
        let m: usize = files.len();
        let ghost upto = new_fragments@.take(i + 1);
        let ghost bytes_before = bytes as nat;
        let ghost count_before = count as nat;
        proof {
            assert(upto.drop_last() =~= new_fragments@.take(i as int));
            assert(upto.last().files == *files);
            lemma_totals_grow(new_fragments@, i + 1);
        }
        for j in 0..m
            invariant
                m == files.len(),
                bytes_before + sum_of_sizes(files@) <= u64::MAX,
                count_before + files@.len() <= usize::MAX,
                bytes == bytes_before + sum_of_sizes(files@.take(j as int)),
                count == count_before + j,
        {
            proof {
                assert(files@.take(j + 1).drop_last() =~= files@.take(j as int));
                assert(files@.take(j + 1).last() == files@[j as int]);
                lemma_sizes_grow(files@, j + 1);
            }
            if let Some(size) = files[j].file_size_bytes {
                bytes = bytes + size;
            }
            count = count + 1;
        }
        assert(files@.take(m as int) =~= files@);
    }
    assert(new_fragments@.take(n as int) =~= new_fragments@);
    (bytes as usize, count)
}

/// All files of fragments, one fragment after the other.
pub open spec fn all_files(fragments: Seq<Fragment>) -> Seq<DataFile>
    decreases fragments.len(),
{
    if fragments.len() == 0 {
        Seq::empty()
    } else {
        all_files(fragments.drop_last()) + fragments.last().files@
    }
}

/// The sizes of two lists of files add up.
proof fn lemma_sizes_add_up(a: Seq<DataFile>, b: Seq<DataFile>)
    ensures
        sum_of_sizes(a + b) == sum_of_sizes(a) + sum_of_sizes(b),
    decreases b.len(),
{
    if b.len() > 0 {
        assert((a + b).drop_last() =~= a + b.drop_last());
        lemma_sizes_add_up(a, b.drop_last());
    } else {
        assert(a + b =~= a);
    }
}

/// Bytes and files are those of all files together.
proof fn lemma_totals_of_files(fragments: Seq<Fragment>)
    ensures
        total_bytes(fragments) == sum_of_sizes(all_files(fragments)),
        total_files(fragments) == all_files(fragments).len(),
    decreases fragments.len(),
{
    if fragments.len() > 0 {
        lemma_totals_of_files(fragments.drop_last());
        lemma_sizes_add_up(all_files(fragments.drop_last()), fragments.last().files@);
    }
}

/// A file counts the same wherever it stands.
proof fn lemma_sizes_without(files: Seq<DataFile>, i: int)
    requires
        0 <= i < files.len(),
    ensures
        sum_of_sizes(files) == sum_of_sizes(files.remove(i)) + known_size(files[i]),
    decreases files.len(),
{
    let front = files.drop_last();
    if i < front.len() {
        lemma_sizes_without(front, i);
        assert(files.remove(i).drop_last() =~= front.remove(i));
        assert(files.remove(i).last() == files.last());
    } else {
        assert(files.remove(i) =~= front);
    }
}

/// The same files in another order have the same sizes together.
proof fn lemma_sizes_ignore_order(a: Seq<DataFile>, b: Seq<DataFile>)
    requires
        a.to_multiset() == b.to_multiset(),
    ensures
        sum_of_sizes(a) == sum_of_sizes(b),
        a.len() == b.len(),
    decreases a.len(),
{
    broadcast use vstd::seq_lib::group_to_multiset_ensures;

    assert(a.len() == a.to_multiset().len());
    assert(b.len() == b.to_multiset().len());
    if a.len() > 0 {
        let file = a.last();
        assert(a.contains(file));
        assert(b.to_multiset().contains(file));
        assert(b.contains(file));
        let i = choose|i: int| 0 <= i < b.len() && b[i] == file;
        lemma_sizes_without(a, a.len() - 1);
        lemma_sizes_without(b, i);
        let front = a.remove(a.len() - 1);
        assert(front.to_multiset() =~= a.to_multiset().remove(file));
        assert(b.remove(i).to_multiset() =~= b.to_multiset().remove(file));
        lemma_sizes_ignore_order(front, b.remove(i));
    }
}

/// The bytes and files of two lists of fragments add up, and no fragments have
/// none.
pub proof fn law_write_metrics_add_up(a: Seq<Fragment>, b: Seq<Fragment>)
    ensures
        total_bytes(a + b) == total_bytes(a) + total_bytes(b),
        total_files(a + b) == total_files(a) + total_files(b),
        total_bytes(Seq::<Fragment>::empty()) == 0,
        total_files(Seq::<Fragment>::empty()) == 0,
        total_bytes(a + b) <= u64::MAX && total_bytes(a + b) <= usize::MAX ==> (total_bytes(
            a + b,
        ) as u64) as usize == (total_bytes(a) as u64) as usize + (total_bytes(b) as u64) as usize,
    decreases b.len(),
{
    if b.len() > 0 {
        assert((a + b).drop_last() =~= a + b.drop_last());
        law_write_metrics_add_up(a, b.drop_last());
    } else {
        assert(a + b =~= a);
    }
}

/// A fragment counts one file for each of its files, and the bytes of each file
/// whose size is known, whatever that size is. A file of unknown size counts as a
/// file without bytes.
pub proof fn law_each_file_counts_its_size(fragment: Fragment)
    ensures
        fragment.files@.len() == 0 ==> total_bytes(seq![fragment]) == 0 && total_files(
            seq![fragment],
        ) == 0,
        fragment.files@.len() == 1 ==> total_files(seq![fragment]) == 1,
        fragment.files@.len() == 1 && fragment.files@[0].file_size_bytes is None ==> total_bytes(
            seq![fragment],
        ) == 0,
        fragment.files@.len() == 1 && fragment.files@[0].file_size_bytes is Some ==> total_bytes(
            seq![fragment],
        ) == fragment.files@[0].file_size_bytes->0,
        total_files(seq![fragment]) == fragment.files@.len(),
{
    let one = seq![fragment];
    assert(one.drop_last() =~= Seq::<Fragment>::empty());
    assert(total_bytes(one.drop_last()) == 0);
    assert(total_files(one.drop_last()) == 0);
    assert(one.last() == fragment);
    if fragment.files@.len() == 1 {
        assert(sum_of_sizes(fragment.files@.drop_last()) == 0);
    }
}

/// A file more in a fragment is a file more, and its size more where that is known.
pub proof fn law_files_of_a_fragment_add_up(fragment: Fragment, other: Fragment)
    requires
        fragment.files@.len() > 0,
        other.files@ == fragment.files@.drop_last(),
    ensures
        total_files(seq![fragment]) == total_files(seq![other]) + 1,
        total_bytes(seq![fragment]) == total_bytes(seq![other])
            + match fragment.files@.last().file_size_bytes {
            Some(size) => size as int,
            None => 0,
        },
{
    assert(seq![fragment].drop_last() =~= seq![other].drop_last());
    assert(seq![fragment].last() == fragment);
    assert(seq![other].last() == other);
}

/// Bytes and files do not depend on the order of fragments, nor on which
/// fragment holds which file: only the files count.
pub proof fn law_write_metrics_count_files_only(a: Seq<Fragment>, b: Seq<Fragment>)
    requires
        all_files(a).to_multiset() == all_files(b).to_multiset(),
    ensures
        total_bytes(a) == total_bytes(b),
        total_files(a) == total_files(b),
{
    lemma_totals_of_files(a);
    lemma_totals_of_files(b);
    lemma_sizes_ignore_order(all_files(a), all_files(b));
}

/// Fragments in another order hold the same files.
pub proof fn law_reordered_fragments_hold_the_same_files(a: Seq<Fragment>, b: Seq<Fragment>)
    requires
        a.to_multiset() == b.to_multiset(),
    ensures
        all_files(a).to_multiset() == all_files(b).to_multiset(),
        total_bytes(a) == total_bytes(b),
        total_files(a) == total_files(b),
    decreases a.len(),
{
    broadcast use vstd::seq_lib::group_to_multiset_ensures;

    assert(a.len() == a.to_multiset().len());
    assert(b.len() == b.to_multiset().len());
    if a.len() > 0 {
        let fragment = a.last();
        assert(a.contains(fragment));
        assert(b.to_multiset().contains(fragment));
        assert(b.contains(fragment));
        let i = choose|i: int| 0 <= i < b.len() && b[i] == fragment;
        let front = a.remove(a.len() - 1);
        assert(front.to_multiset() =~= a.to_multiset().remove(fragment));
        assert(b.remove(i).to_multiset() =~= b.to_multiset().remove(fragment));
        law_reordered_fragments_hold_the_same_files(front, b.remove(i));
        lemma_files_without(a, a.len() - 1);
        lemma_files_without(b, i);
    } else {
        assert(all_files(a) =~= all_files(b));
    }
    law_write_metrics_count_files_only(a, b);
}

/// The files of one fragment can be counted apart from those of the others.
proof fn lemma_files_without(fragments: Seq<Fragment>, i: int)
    requires
        0 <= i < fragments.len(),
    ensures
        all_files(fragments).to_multiset() == all_files(fragments.remove(i)).to_multiset().add(
            fragments[i].files@.to_multiset(),
        ),
    decreases fragments.len(),
{
    let front = fragments.drop_last();
    vstd::seq_lib::lemma_multiset_commutative(all_files(front), fragments.last().files@);
    if i < front.len() {
        lemma_files_without(front, i);
        assert(fragments.remove(i).drop_last() =~= front.remove(i));
        assert(fragments.remove(i).last() == fragments.last());
        vstd::seq_lib::lemma_multiset_commutative(
            all_files(front.remove(i)),
            fragments.last().files@,
        );
        assert(all_files(fragments).to_multiset() =~= all_files(
            fragments.remove(i),
        ).to_multiset().add(fragments[i].files@.to_multiset()));
    } else {
        assert(fragments.remove(i) =~= front);
    }
}

/// The row counts of fragments whose row counts are known.
pub open spec fn row_counts(fragments: Seq<Fragment>) -> Seq<u64> {
    fragments.map_values(|f: Fragment| f.physical_rows->0 as u64)
}

/// What has to be known to give the new fragments their row ids: the captured
/// ids, and how many rows each fragment has. `None` if no ids were captured,
/// because they are not stable.
pub fn row_id_request<'a>(captured: &'a CapturedRowIds, new_fragments: &Vec<Fragment>) -> (r: Option<
    (&'a Vec<u64>, Vec<u64>),
>)
    requires
        captured.stable ==> forall|i: int|
            0 <= i < new_fragments.len() ==> (#[trigger] new_fragments@[i]).physical_rows is Some,
    ensures
        match r {
            Some((row_ids, sizes)) => captured.stable && *row_ids == captured.row_ids && sizes@
                == row_counts(new_fragments@),
            None => !captured.stable,
        },
        r matches Some((_, sizes)) ==> {
            &&& sizes@.len() == new_fragments@.len()
            &&& forall|i: int|
                0 <= i < sizes@.len() ==> Some(#[trigger] sizes@[i] as usize)
                    == new_fragments@[i].physical_rows
        },
{
    match captured.row_id_sequence() {
        None => None,
        Some(row_ids) => {
            let n: usize = new_fragments.len();
            let mut sizes: Vec<u64> = Vec::with_capacity(n);
            for i in 0..n
                invariant
                    n == new_fragments.len(),
                    forall|i: int|
                        0 <= i < new_fragments.len() ==> (
                        #[trigger] new_fragments@[i]).physical_rows is Some,
                    sizes@ == row_counts(new_fragments@).take(i as int),
            {
                if let Some(rows) = new_fragments[i].physical_rows {
                    sizes.push(rows as u64);
                }
                assert(new_fragments@[i as int].physical_rows is Some);
                assert(sizes@ =~= row_counts(new_fragments@).take(i + 1));
            }
            assert(sizes@ =~= row_counts(new_fragments@));
            assert forall|i: int| 0 <= i < sizes@.len() implies Some(#[trigger] sizes@[i] as usize)
                == new_fragments@[i].physical_rows by {
                assert(new_fragments@[i].physical_rows is Some);
            }
            Some((row_ids, sizes))
        },
    }
}

/// Gives each new fragment its serialised row ids, which were cut to the sizes
/// of the fragments. Where the captured ids do not fit those sizes, `reason`
/// says why, and nothing is changed. A fragment past the last serialised chunk
/// keeps what it has.
pub fn assign_row_ids(
    new_fragments: &mut Vec<Fragment>,
    chunks: Result<Vec<Vec<u8>>, String>,
) -> (r: Result<(), MergeError>)
    ensures
        match chunks {
            Err(reason) => r == Err::<(), MergeError>(MergeError::RowIdCount { reason })
                && final(new_fragments)@ == old(new_fragments)@,
            Ok(chunks) => {
                &&& r is Ok
                &&& final(new_fragments).len() == old(new_fragments).len()
                &&& forall|i: int|
                    0 <= i < old(new_fragments).len() ==> {
                        let before = old(new_fragments)@[i];
                        let after = #[trigger] final(new_fragments)@[i];
                        &&& after.id == before.id
                        &&& after.files == before.files
                        &&& after.physical_rows == before.physical_rows
                        &&& after.row_id_meta == (if i < chunks.len() {
                            Some(chunks@[i])
                        } else {
                            before.row_id_meta
                        })
                    }
            },
        },
{
    let chunks: Vec<Vec<u8>> = match chunks {
        Ok(chunks) => chunks,
        Err(reason) => {
            return Err(MergeError::RowIdCount { reason });
        },
    };
    let ghost given = chunks@;
    let mut left: Vec<Vec<u8>> = chunks;
    // What goes past the last fragment is not used.
    left.truncate(new_fragments.len());
    while left.len() > 0
        invariant
            left.len() <= new_fragments.len(),
            left@ == given.take(left.len() as int),
            left.len() <= given.len(),
            new_fragments.len() == old(new_fragments).len(),
            forall|i: int|
                0 <= i < old(new_fragments).len() ==> {
                    let before = old(new_fragments)@[i];
                    let after = #[trigger] new_fragments@[i];
                    &&& after.id == before.id
                    &&& after.files == before.files
                    &&& after.physical_rows == before.physical_rows
                    &&& after.row_id_meta == (if left.len() <= i < given.len() {
                        Some(given[i])
                    } else {
                        before.row_id_meta
                    })
                },
        decreases left.len(),
    {
        let ghost before = left@;
        if let Some(chunk) = left.pop() {
            let i: usize = left.len();
            assert(chunk == given[i as int]);
            assert(left@ =~= given.take(i as int));
            new_fragments[i].row_id_meta = Some(chunk);
        }
    }
    Ok(())
}

/// The numbers of a finished merge.
#[derive(Clone, Copy, Debug, PartialEq, Eq, Structural)]
pub struct MergeStats {
    pub num_inserted_rows: u64,
    pub num_updated_rows: u64,
    pub num_deleted_rows: u64,
    pub num_skipped_duplicates: u64,
    pub bytes_written: u64,
    pub num_files_written: u64,
}

impl MergeStats {
    /// What counters show.
    pub open spec fn of(m: MetricsView) -> MergeStats {
        MergeStats {
            num_inserted_rows: m.inserted as u64,
            num_updated_rows: m.updated as u64,
            num_deleted_rows: m.deleted as u64,
            num_skipped_duplicates: m.skipped as u64,
            bytes_written: m.bytes_written as u64,
            num_files_written: m.files_written as u64,
        }
    }

    /// What the counters of a merge show.
    pub fn from_metrics(metrics: &MergeInsertMetrics) -> (r: MergeStats)
        ensures
            r == MergeStats::of(metrics@),
            r.num_inserted_rows == metrics.num_inserted_rows@,
            r.num_updated_rows == metrics.num_updated_rows@,
            r.num_deleted_rows == metrics.num_deleted_rows@,
            r.num_skipped_duplicates == metrics.num_skipped_duplicates@,
            r.bytes_written == metrics.bytes_written@,
            r.num_files_written == metrics.num_files_written@,
    {
        MergeStats {
            num_inserted_rows: metrics.num_inserted_rows.value() as u64,
            num_updated_rows: metrics.num_updated_rows.value() as u64,
            num_deleted_rows: metrics.num_deleted_rows.value() as u64,
            num_skipped_duplicates: metrics.num_skipped_duplicates.value() as u64,
            bytes_written: metrics.bytes_written.value() as u64,
            num_files_written: metrics.num_files_written.value() as u64,
        }
    }
}

/// The keys of the rows that a merge inserted, for detecting conflicts with
/// other inserts.
#[derive(Debug, PartialEq, Eq)]
pub struct KeyExistenceFilter {
    /// The ids of the fields that make up the key.
    pub field_ids: Vec<i32>,
    /// The keys.
    pub keys: Vec<KeyValue>,
}

/// What a filter holds.
pub struct FilterView {
    pub field_ids: Seq<i32>,
    pub keys: Seq<Seq<u8>>,
}

impl View for KeyExistenceFilter {
    type V = FilterView;

    open spec fn view(&self) -> FilterView {
        FilterView { field_ids: self.field_ids@, keys: key_bytes(self.keys@) }
    }
}

/// A copy of field ids.
fn copy_ids(ids: &Vec<i32>) -> (r: Vec<i32>)
    ensures
        r@ == ids@,
{
    let n: usize = ids.len();
    let mut out: Vec<i32> = Vec::with_capacity(n);
    for i in 0..n
        invariant
            n == ids.len(),
            out@ == ids@.take(i as int),
    {
        out.push(ids[i]);
        assert(out@ =~= ids@.take(i + 1));
    }
    assert(out@ =~= ids@);
    out
}

/// A copy of keys.
fn copy_keys(keys: &Vec<KeyValue>) -> (r: Vec<KeyValue>)
    ensures
        key_bytes(r@) == key_bytes(keys@),
        r@.len() == keys@.len(),
        forall|i: int| 0 <= i < keys@.len() ==> (#[trigger] r@[i]).bytes@ == keys@[i].bytes@,
{
    let n: usize = keys.len();
    let mut out: Vec<KeyValue> = Vec::with_capacity(n);
    for i in 0..n
        invariant
            n == keys.len(),
            key_bytes(out@) == key_bytes(keys@).take(i as int),
            out.len() == i,
            forall|j: int| 0 <= j < i ==> (#[trigger] out@[j]).bytes@ == keys@[j].bytes@,
    {
        let ghost before = out@;
        out.push(KeyValue { bytes: copy_bytes(&keys[i].bytes) });
        assert(key_bytes(out@) =~= key_bytes(before).push(keys@[i as int]@));
        assert(key_bytes(out@) =~= key_bytes(keys@).take(i + 1));
    }
    assert(key_bytes(out@) =~= key_bytes(keys@));
    out
}

impl KeyExistenceFilter {
    /// The filter of the keys that were collected.
    pub fn from_builder(builder: &KeyExistenceFilterBuilder) -> (r: KeyExistenceFilter)
        ensures
            r@ == (FilterView {
                field_ids: builder.field_ids@,
                keys: key_bytes(builder.keys@),
            }),
            r.field_ids@ == builder.field_ids@,
            r.keys@.len() == builder.keys@.len(),
            forall|i: int|
                0 <= i < builder.keys@.len() ==> (#[trigger] r.keys@[i]).bytes@
                    == builder.keys@[i].bytes@,
    {
        KeyExistenceFilter {
            field_ids: copy_ids(&builder.field_ids),
            keys: copy_keys(&builder.keys),
        }
    }

    /// The same filter once more.
    pub fn duplicate(&self) -> (r: KeyExistenceFilter)
        ensures
            r@ == self@,
            r.field_ids@ == self.field_ids@,
            r.keys@.len() == self.keys@.len(),
            forall|i: int|
                0 <= i < self.keys@.len() ==> (#[trigger] r.keys@[i]).bytes@
                    == self.keys@[i].bytes@,
    {
        KeyExistenceFilter { field_ids: copy_ids(&self.field_ids), keys: copy_keys(&self.keys) }
    }
}

/// How an update changes rows.
#[derive(Clone, Copy, Debug, PartialEq, Eq, Structural)]
pub enum UpdateMode {
    /// Changed rows are written anew, to new fragments.
    RewriteRows,
    /// Changed columns are written anew.
    RewriteColumns,
}

/// The change that a merge makes to a dataset. `G` describes a generation of
/// rows that the merge takes over from elsewhere.
#[derive(Debug)]
pub struct UpdateOperation<G> {
    /// Fragments that lost all rows.
    pub removed_fragment_ids: Vec<u64>,
    /// Fragments that lost some rows.
    pub updated_fragments: Vec<Fragment>,
    /// Fragments with the rows that were written.
    pub new_fragments: Vec<Fragment>,
    /// Fields whose definition changes.
    pub fields_modified: Vec<u32>,
    pub merged_generations: Vec<G>,
    /// Fields whose values may change.
    pub fields_for_preserving_frag_bitmap: Vec<u32>,
    pub update_mode: Option<UpdateMode>,
    pub inserted_rows_filter: Option<KeyExistenceFilter>,
    /// Where rows changed within updated fragments.
    pub updated_fragment_offsets: Option<Vec<u64>>,
}

/// A change, and the version of the dataset that it was made against.
#[derive(Debug)]
pub struct Transaction<G> {
    pub read_version: u64,
    pub operation: UpdateOperation<G>,
}

} // verus!
