//! The buffer of one partition: one accepting generation that takes the
//! writes, and the frozen generations that wait for their persistence to
//! complete.

use vstd::prelude::*;
use std::collections::VecDeque;
use crate::batch::{BatchView, Datum, MergeError, MutableBatch, RecordBatch};
use crate::buffer::{batches_of, empty_batch, written, PartitionBuffer};
use crate::dedup::{latest, lemma_rows_of_concat, lemma_rows_of_one, law_later_rows_win, rows_of};
use crate::deferred::{Access, DeferredCell};
use crate::flight::batches_view;
use crate::query_view::{GenerationId, PersistHandle, QueryView};

verus! {

/// The columns by which the rows of a partition are sorted when persisted.
#[derive(Clone, Debug, PartialEq, Eq)]
pub struct SortKey {
    pub columns: Vec<String>,
}

impl View for SortKey {
    type V = Seq<Seq<char>>;

    open spec fn view(&self) -> Seq<Seq<char>> {
        Seq::new(self.columns.len() as nat, |i: int| self.columns[i]@)
    }
}

impl SortKey {
    pub fn from_columns(columns: Vec<String>) -> (k: SortKey)
        ensures
            k.columns == columns,
    {
        SortKey { columns }
    }

    /// A copy of this key.
    pub fn duplicate(&self) -> (k: SortKey)
        ensures
            k@ == self@,
    {
        let mut columns: Vec<String> = Vec::new();
        let mut i: usize = 0;
        while i < self.columns.len()
            invariant
                i <= self.columns.len(),
                columns.len() == i,
                forall|j: int| 0 <= j < i ==> columns[j]@ == self.columns[j]@,
            decreases self.columns.len() - i,
        {
            columns.push(self.columns[i].clone());
            i += 1;
        }
        let k = SortKey { columns };
        assert(k@ =~= self@);
        k
    }
}

/// The columns of a sort key that may be absent.
pub open spec fn sort_key_view(key: Option<SortKey>) -> Option<Seq<Seq<char>>> {
    match key {
        Some(k) => Some(k@),
        None => None,
    }
}

/// How the sort key of a partition is known.
#[derive(Clone, Debug, PartialEq, Eq)]
pub enum SortKeyState {
    /// The key has to be fetched; the cell says how far that is.
    Deferred(DeferredCell<Option<SortKey>>),
    /// The key is known: a partition may have none.
    Provided(Option<SortKey>),
}

impl SortKeyState {
    /// The sort key, as far as it is known without a fetch.
    pub open spec fn known(&self) -> Option<Option<SortKey>> {
        match self {
            SortKeyState::Deferred(cell) => cell.value(),
            SortKeyState::Provided(key) => Some(*key),
        }
    }

    /// What a reader of the sort key is told: a provided key is ready, a
    /// deferred one is what its cell says.
    pub open spec fn spec_access(&self) -> Access {
        match self {
            SortKeyState::Deferred(cell) => cell.access(),
            SortKeyState::Provided(_) => Access::Ready,
        }
    }

    /// The state after a reader asked. A provided key stays as it is.
    pub open spec fn after_access(self) -> SortKeyState {
        match self {
            SortKeyState::Deferred(cell) => SortKeyState::Deferred(cell.after_get()),
            SortKeyState::Provided(key) => SortKeyState::Provided(key),
        }
    }

    /// The state after `key` was fetched. A deferred key stays deferred,
    /// with the value in its cell; a provided key stays as it is.
    pub open spec fn after_resolve(self, key: Option<SortKey>) -> SortKeyState {
        match self {
            SortKeyState::Deferred(cell) => SortKeyState::Deferred(cell.after_resolve(key)),
            SortKeyState::Provided(kept) => SortKeyState::Provided(kept),
        }
    }

    /// Asks for the sort key: the reader is told to start the fetch, to
    /// join it, or to read the key. For a provided key nothing is fetched.
    pub fn access(&mut self) -> (a: Access)
        ensures
            a == old(self).spec_access(),
            *final(self) == old(self).after_access(),
    {
        match self {
            SortKeyState::Deferred(cell) => cell.get(),
            SortKeyState::Provided(_) => Access::Ready,
        }
    }

    /// Hands a fetched sort key to the cell of a deferred key.
    pub fn resolve(&mut self, key: Option<SortKey>)
        ensures
            *final(self) == old(self).after_resolve(key),
    {
        match self {
            SortKeyState::Deferred(cell) => cell.resolve(key),
            SortKeyState::Provided(_) => {},
        }
    }

    /// A copy of the sort key, or `None` while the key is deferred and its
    /// cell has no value yet. A provided key is returned at once, whatever
    /// was deferred before it was provided.
    pub fn get(&self) -> (r: Option<Option<SortKey>>)
        ensures
            r.is_some() == self.known().is_some(),
            r.is_some() ==> sort_key_view(r.unwrap()) == sort_key_view(self.known().unwrap()),
    {
        let held: Option<&Option<SortKey>> = match self {
            SortKeyState::Deferred(cell) => cell.peek(),
            SortKeyState::Provided(key) => Some(key),
        };
        match held {
            None => None,
            Some(None) => Some(None),
            Some(Some(key)) => Some(Some(key.duplicate())),
        }
    }
}

/// What a partition holds, as far as writes, reads and the persistence
/// workflow are concerned.
pub struct PartitionModel {
    pub partition_id: u64,
    pub partition_key: Seq<char>,
    pub namespace_id: u64,
    pub table_id: u64,
    pub namespace_name: DeferredCell<String>,
    pub table_name: DeferredCell<String>,
    pub sort_key: SortKeyState,
    /// The rows of the accepting generation.
    pub accepting: BatchView,
    /// The frozen generations that are not released yet, each with its
    /// number, the one frozen last first.
    pub persisting: Seq<(u64, BatchView)>,
    /// How many generations were frozen so far.
    pub started: u64,
}

/// The frozen generations are numbered downwards from the count of freezes,
/// without a gap, and none of them is empty.
pub open spec fn model_wf(m: PartitionModel) -> bool {
    &&& m.persisting.len() <= m.started
    &&& forall|i: int|
        0 <= i < m.persisting.len() ==> (#[trigger] m.persisting[i]).0 == m.started - i
            && m.persisting[i].1.rows.len() > 0
}

/// The rows of the frozen generations, in the order of the queue.
pub open spec fn frozen_batches(persisting: Seq<(u64, BatchView)>) -> Seq<BatchView> {
    Seq::new(persisting.len(), |i: int| persisting[i].1)
}

/// The batches that a reader is handed: the frozen generations in the order
/// of the queue, then the accepting generation.
pub open spec fn visible(m: PartitionModel) -> Seq<BatchView> {
    frozen_batches(m.persisting) + batches_of(m.accepting)
}

/// The partition after a write of `batch`, or `None` if the write is refused.
pub open spec fn after_write(m: PartitionModel, batch: BatchView) -> Option<PartitionModel> {
    match written(m.accepting, batch) {
        Some(accepting) => Some(PartitionModel { accepting, ..m }),
        None => None,
    }
}

/// The partition after a freeze: as before if the accepting generation has
/// no row.
pub open spec fn after_freeze(m: PartitionModel) -> PartitionModel {
    if m.accepting.rows.len() == 0 {
        m
    } else {
        PartitionModel {
            accepting: empty_batch(),
            persisting: seq![((m.started + 1) as u64, m.accepting)] + m.persisting,
            started: (m.started + 1) as u64,
            ..m
        }
    }
}

/// Whether the generation `ident` can be released now: it is the oldest of
/// the frozen generations.
pub open spec fn releasable(m: PartitionModel, ident: u64) -> bool {
    m.persisting.len() > 0 && m.persisting.last().0 == ident
}

/// The partition after the release of its oldest frozen generation.
pub open spec fn after_release(m: PartitionModel) -> PartitionModel {
    PartitionModel { persisting: m.persisting.drop_last(), ..m }
}

/// The buffer of one partition.
#[derive(Debug)]
pub struct PartitionData {
    partition_id: u64,
    partition_key: String,
    sort_key: SortKeyState,
    namespace_id: u64,
    namespace_name: DeferredCell<String>,
    table_id: u64,
    table_name: DeferredCell<String>,
    /// The generation that takes the writes.
    buffer: PartitionBuffer,
    /// The frozen generations, the one frozen last at the front.
    persisting: VecDeque<(GenerationId, PartitionBuffer)>,
    /// The number of the generation frozen last.
    started_persistence_count: GenerationId,
}

impl View for PartitionData {
    type V = PartitionModel;

    closed spec fn view(&self) -> PartitionModel {
        PartitionModel {
            partition_id: self.partition_id,
            partition_key: self.partition_key@,
            namespace_id: self.namespace_id,
            table_id: self.table_id,
            namespace_name: self.namespace_name,
            table_name: self.table_name,
            sort_key: self.sort_key,
            accepting: self.buffer.content(),
            persisting: Seq::new(
                self.persisting@.len(),
                |i: int| (self.persisting@[i].0.0, self.persisting@[i].1.content()),
            ),
            started: self.started_persistence_count.0,
        }
    }
}

impl PartitionData {
    /// The accepting generation accepts, the frozen ones are frozen.
    pub closed spec fn generations_wf(&self) -> bool {
        &&& self.buffer.is_accepting()
        &&& self.buffer.wf()
        &&& forall|i: int|
            0 <= i < self.persisting@.len() ==> !(#[trigger] self.persisting@[i]).1.is_accepting()
                && self.persisting@[i].1.wf()
    }

    /// The partition is in a state that its operations keep.
    pub open spec fn wf(&self) -> bool {
        self.generations_wf() && model_wf(self@)
    }

    /// A partition without rows, of which no generation was frozen yet.
    pub fn new(
        id: u64,
        partition_key: String,
        namespace_id: u64,
        namespace_name: DeferredCell<String>,
        table_id: u64,
        table_name: DeferredCell<String>,
        sort_key: SortKeyState,
    ) -> (p: PartitionData)
        ensures
            p.wf(),
            p@ == (PartitionModel {
                partition_id: id,
                partition_key: partition_key@,
                namespace_id,
                table_id,
                namespace_name,
                table_name,
                sort_key,
                accepting: empty_batch(),
                persisting: Seq::empty(),
                started: 0,
            }),
    {
        let p = PartitionData {
            partition_id: id,
            partition_key,
            sort_key,
            namespace_id,
            namespace_name,
            table_id,
            table_name,
            buffer: PartitionBuffer::new(),
            persisting: VecDeque::with_capacity(1),
            started_persistence_count: GenerationId(0),
        };
        assert(p@.persisting =~= Seq::empty());
        p
    }

    /// Buffers the rows of `batch`. A batch that gives a column a type other
    /// than the one it has in the accepting generation is refused with the
    /// error of the merge, and the partition is left as it was. The sequence
    /// number need not follow the ones of earlier writes.
    pub fn buffer_write(&mut self, batch: MutableBatch, sequence_number: u64) -> (res: Result<
        (),
        MergeError,
    >)
        requires
            old(self).wf(),
            batch.wf(),
        ensures
            final(self).wf(),
            res.is_ok() == after_write(old(self)@, batch@).is_some(),
            res.is_ok() ==> final(self)@ == after_write(old(self)@, batch@).unwrap(),
            res.is_err() ==> final(self)@ == old(self)@,
    {
        let res = self.buffer.write(batch, sequence_number);
        proof {
            assert(self@.persisting =~= old(self)@.persisting);
        }
        res
    }

    /// All rows of the partition for a reader, or `None` if there is none:
    /// the frozen generations in the order of the queue, the one frozen last
    /// first, and after them the accepting generation, so that the rows
    /// written last are seen last. The partition is left as it is.
    pub fn get_query_data(&mut self) -> (res: Option<QueryView>)
        requires
            old(self).wf(),
        ensures
            *final(self) == *old(self),
            res.is_none() == (visible(old(self)@).len() == 0),
            res.is_some() ==> res.unwrap().wf() && res.unwrap().batches() == visible(old(self)@)
                && res.unwrap().spec_partition_id() == old(self)@.partition_id,
    {
        let mut data: Vec<RecordBatch> = Vec::new();
        let mut i: usize = 0;
        while i < self.persisting.len()
            invariant
                i <= self.persisting@.len(),
                self.wf(),
                *self == *old(self),
                batches_view(data@) == frozen_batches(self@.persisting).take(i as int),
            decreases self.persisting@.len() - i,
        {
            let mut part = self.persisting[i].1.snapshot();
            let ghost before = batches_view(data@);
            let ghost added = batches_view(part@);
            data.append(&mut part);
            proof {
                assert(batches_view(data@) =~= before + added);
                assert(added =~= seq![self@.persisting[i as int].1]);
                assert(frozen_batches(self@.persisting).take(i + 1) =~= frozen_batches(
                    self@.persisting,
                ).take(i as int).push(self@.persisting[i as int].1));
            }
            i += 1;
        }
        let mut buffered = self.buffer.snapshot();
        proof {
            assert(frozen_batches(self@.persisting).take(i as int) =~= frozen_batches(self@.persisting));
        }
        let ghost before = batches_view(data@);
        let ghost added = batches_view(buffered@);
        data.append(&mut buffered);
        assert(batches_view(data@) =~= before + added);
        if data.len() == 0 {
            return None;
        }
        Some(QueryView::new(self.partition_id, data))
    }

    /// Freezes the accepting generation and queues it for persistence.
    /// Without buffered rows nothing is returned and nothing changes. Else
    /// the generation gets the next number, counted from 1, and goes to the
    /// front of the queue; a new generation takes the writes from then on;
    /// and the handle returned holds the frozen rows and the number.
    pub fn mark_persisting(&mut self) -> (res: Option<PersistHandle>)
        requires
            old(self).wf(),
            old(self)@.accepting.rows.len() > 0 ==> old(self)@.started < u64::MAX,
        ensures
            final(self).wf(),
            final(self)@ == after_freeze(old(self)@),
            res.is_none() == (old(self)@.accepting.rows.len() == 0),
            res.is_some() ==> res.unwrap().spec_ident().0 == old(self)@.started + 1
                && res.unwrap().spec_view().wf()
                && res.unwrap().spec_view().batches() == seq![old(self)@.accepting]
                && res.unwrap().spec_view().spec_partition_id() == old(self)@.partition_id,
    {
        let frozen = match self.buffer.freeze() {
            None => {
                return None;
            },
            Some(frozen) => frozen,
        };
        let ident = GenerationId(self.started_persistence_count.0 + 1);
        self.started_persistence_count = ident;
        let batches = frozen.snapshot();
        assert(batches_view(batches@).len() == 1);
        let view = QueryView::new(self.partition_id, batches);
        let ghost queued = self.persisting@;
        self.persisting.push_front((ident, frozen));
        proof {
            assert(self.persisting@ =~= seq![(ident, frozen)] + queued);
            assert(self@.persisting =~= after_freeze(old(self)@).persisting);
            assert forall|i: int| 0 <= i < self@.persisting.len() implies (#[trigger] self@.persisting[i]).0
                == self@.started - i && self@.persisting[i].1.rows.len() > 0 by {
                if i > 0 {
                    assert(self@.persisting[i] == old(self)@.persisting[i - 1]);
                }
            }
            assert forall|i: int| 0 <= i < self.persisting@.len() implies !(#[trigger] self.persisting@[i]).1.is_accepting()
                && self.persisting@[i].1.wf() by {
                if i > 0 {
                    assert(self.persisting@[i] == queued[i - 1]);
                }
            }
        }
        Some(PersistHandle::new(view, ident))
    }

    /// Whether `batch` is the handle of the oldest frozen generation, the
    /// only one that can be released.
    pub fn can_mark_persisted(&self, batch: &PersistHandle) -> (ok: bool)
        requires
            self.wf(),
        ensures
            ok == releasable(self@, batch.spec_ident().0),
    {
        let n = self.persisting.len();
        n > 0 && self.persisting[n - 1].0.get() == batch.batch_ident().get()
    }

    /// Releases the oldest frozen generation, whose handle `batch` must be:
    /// the generation leaves the queue and its rows are dropped with the
    /// handle. Generations are released in the order in which they were
    /// frozen.
    pub fn mark_persisted(&mut self, batch: PersistHandle)
        requires
            old(self).wf(),
            releasable(old(self)@, batch.spec_ident().0),
        ensures
            final(self).wf(),
            final(self)@ == after_release(old(self)@),
    {
        let ghost queued = self.persisting@;
        let oldest = self.persisting.pop_back();
        proof {
            assert(self.persisting@ =~= queued.drop_last());
            assert(self@.persisting =~= old(self)@.persisting.drop_last());
            assert forall|i: int| 0 <= i < self@.persisting.len() implies (#[trigger] self@.persisting[i]).0
                == self@.started - i && self@.persisting[i].1.rows.len() > 0 by {
                assert(self@.persisting[i] == old(self)@.persisting[i]);
            }
            assert forall|i: int| 0 <= i < self.persisting@.len() implies !(#[trigger] self.persisting@[i]).1.is_accepting()
                && self.persisting@[i].1.wf() by {
                assert(self.persisting@[i] == queued[i]);
            }
        }
    }

    /// Releases the generation of `batch` if it is the oldest frozen one, as
    /// `mark_persisted` does. Else nothing changes and the handle is given
    /// back: the caller has told of a persistence out of order, or of one
    /// that never started here.
    pub fn try_mark_persisted(&mut self, batch: PersistHandle) -> (res: Result<(), PersistHandle>)
        requires
            old(self).wf(),
        ensures
            final(self).wf(),
            res.is_ok() == releasable(old(self)@, batch.spec_ident().0),
            res.is_ok() ==> final(self)@ == after_release(old(self)@),
            res.is_err() ==> final(self)@ == old(self)@ && res == Err::<(), PersistHandle>(batch),
    {
        if self.can_mark_persisted(&batch) {
            self.mark_persisted(batch);
            Ok(())
        } else {
            Err(batch)
        }
    }

    /// Whether the accepting generation holds a row, so that a freeze would
    /// take a number.
    pub fn has_buffered_rows(&self) -> (b: bool)
        ensures
            b == (self@.accepting.rows.len() > 0),
    {
        !self.buffer.is_empty()
    }

    /// How many frozen generations wait for their release.
    pub fn persisting_count(&self) -> (n: usize)
        ensures
            n == self@.persisting.len(),
    {
        self.persisting.len()
    }

    /// How many generations were frozen so far: the number of the one
    /// frozen last.
    pub fn started_persistence_count(&self) -> (n: u64)
        ensures
            n == self@.started,
    {
        self.started_persistence_count.get()
    }

    pub fn partition_id(&self) -> (id: u64)
        ensures
            id == self@.partition_id,
    {
        self.partition_id
    }

    /// The name of the table, which may not be resolved yet.
    pub fn table_name(&self) -> (name: &DeferredCell<String>)
        ensures
            *name == self@.table_name,
    {
        &self.table_name
    }

    pub fn table_id(&self) -> (id: u64)
        ensures
            id == self@.table_id,
    {
        self.table_id
    }

    pub fn partition_key(&self) -> (key: &String)
        ensures
            key@ == self@.partition_key,
    {
        &self.partition_key
    }

    pub fn namespace_id(&self) -> (id: u64)
        ensures
            id == self@.namespace_id,
    {
        self.namespace_id
    }

    /// The name of the namespace, which may not be resolved yet.
    pub fn namespace_name(&self) -> (name: &DeferredCell<String>)
        ensures
            *name == self@.namespace_name,
    {
        &self.namespace_name
    }

    /// How the sort key is known. Reading it fetches nothing.
    pub fn sort_key(&self) -> (state: &SortKeyState)
        ensures
            *state == self@.sort_key,
    {
        &self.sort_key
    }

    /// Asks for the sort key, as `SortKeyState::access` does.
    pub fn sort_key_access(&mut self) -> (a: Access)
        requires
            old(self).wf(),
        ensures
            final(self).wf(),
            a == old(self)@.sort_key.spec_access(),
            final(self)@ == (PartitionModel { sort_key: old(self)@.sort_key.after_access(), ..old(self)@ }),
    {
        let a = self.sort_key.access();
        proof {
            assert(self@.persisting =~= old(self)@.persisting);
        }
        a
    }

    /// Hands a fetched sort key to the partition. A deferred sort key stays
    /// deferred: only `update_sort_key` provides one.
    pub fn resolve_sort_key(&mut self, key: Option<SortKey>)
        requires
            old(self).wf(),
        ensures
            final(self).wf(),
            final(self)@ == (PartitionModel { sort_key: old(self)@.sort_key.after_resolve(key), ..old(self)@ }),
    {
        self.sort_key.resolve(key);
        proof {
            assert(self@.persisting =~= old(self)@.persisting);
        }
    }

    /// Asks for the name of the namespace: start the fetch, join it, or
    /// read the name.
    pub fn namespace_name_access(&mut self) -> (a: Access)
        requires
            old(self).wf(),
        ensures
            final(self).wf(),
            a == old(self)@.namespace_name.access(),
            final(self)@ == (PartitionModel {
                namespace_name: old(self)@.namespace_name.after_get(),
                ..old(self)@
            }),
    {
        let a = self.namespace_name.get();
        proof {
            assert(self@.persisting =~= old(self)@.persisting);
        }
        a
    }

    /// Hands the fetched name of the namespace to the partition.
    pub fn resolve_namespace_name(&mut self, name: String)
        requires
            old(self).wf(),
        ensures
            final(self).wf(),
            final(self)@ == (PartitionModel {
                namespace_name: old(self)@.namespace_name.after_resolve(name),
                ..old(self)@
            }),
    {
        self.namespace_name.resolve(name);
        proof {
            assert(self@.persisting =~= old(self)@.persisting);
        }
    }

    /// Asks for the name of the table: start the fetch, join it, or read
    /// the name.
    pub fn table_name_access(&mut self) -> (a: Access)
        requires
            old(self).wf(),
        ensures
            final(self).wf(),
            a == old(self)@.table_name.access(),
            final(self)@ == (PartitionModel { table_name: old(self)@.table_name.after_get(), ..old(self)@ }),
    {
        let a = self.table_name.get();
        proof {
            assert(self@.persisting =~= old(self)@.persisting);
        }
        a
    }

    /// Hands the fetched name of the table to the partition.
    pub fn resolve_table_name(&mut self, name: String)
        requires
            old(self).wf(),
        ensures
            final(self).wf(),
            final(self)@ == (PartitionModel {
                table_name: old(self)@.table_name.after_resolve(name),
                ..old(self)@
            }),
    {
        self.table_name.resolve(name);
        proof {
            assert(self@.persisting =~= old(self)@.persisting);
        }
    }

    /// Provides the sort key. Whatever was known or deferred before, the
    /// sort key is `new` from now on.
    pub fn update_sort_key(&mut self, new: Option<SortKey>)
        requires
            old(self).wf(),
        ensures
            final(self).wf(),
            final(self)@ == (PartitionModel { sort_key: SortKeyState::Provided(new), ..old(self)@ }),
    {
        self.sort_key = SortKeyState::Provided(new);
        proof {
            assert(self@.persisting =~= old(self)@.persisting);
        }
    }
}

/// The partition after the writes of `batches`, one after the other, or
/// `None` if one of them is refused.
pub open spec fn after_writes(m: PartitionModel, batches: Seq<BatchView>) -> Option<PartitionModel>
    decreases batches.len(),
{
    if batches.len() == 0 {
        Some(m)
    } else {
        match after_writes(m, batches.drop_last()) {
            Some(before) => after_write(before, batches.last()),
            None => None,
        }
    }
}

/// A read after a write returns the rows that a read before it returned,
/// followed by the rows written.
pub proof fn law_read_after_write(m: PartitionModel, batch: BatchView)
    requires
        after_write(m, batch).is_some(),
    ensures
        rows_of(visible(after_write(m, batch).unwrap())) == rows_of(visible(m)) + batch.rows,
{
    let after = after_write(m, batch).unwrap();
    lemma_rows_of_concat(frozen_batches(m.persisting), batches_of(m.accepting));
    lemma_rows_of_concat(frozen_batches(m.persisting), batches_of(after.accepting));
    lemma_rows_of_buffer(m.accepting);
    lemma_rows_of_buffer(after.accepting);
    assert(rows_of(visible(after)) =~= rows_of(visible(m)) + batch.rows);
}

/// The rows of the batches of a generation are the rows of the generation.
pub proof fn lemma_rows_of_buffer(content: BatchView)
    ensures
        rows_of(batches_of(content)) == content.rows,
{
    if content.rows.len() == 0 {
        assert(rows_of(batches_of(content)) =~= content.rows);
    } else {
        lemma_rows_of_one(content);
    }
}

/// A read after any number of writes returns exactly the rows that were
/// there, followed by the rows written, in the order of the writes: from a
/// partition without rows, exactly the rows written.
pub proof fn law_read_after_writes(m: PartitionModel, batches: Seq<BatchView>)
    requires
        after_writes(m, batches).is_some(),
    ensures
        rows_of(visible(after_writes(m, batches).unwrap())) == rows_of(visible(m)) + rows_of(batches),
        m.persisting.len() == 0 && m.accepting.rows.len() == 0 ==> rows_of(
            visible(after_writes(m, batches).unwrap()),
        ) == rows_of(batches),
    decreases batches.len(),
{
    if m.persisting.len() == 0 && m.accepting.rows.len() == 0 {
        assert(visible(m) =~= Seq::<BatchView>::empty());
        assert(rows_of(visible(m)) + rows_of(batches) =~= rows_of(batches));
    }
    if batches.len() == 0 {
        assert(rows_of(visible(m)) + rows_of(batches) =~= rows_of(visible(m)));
    } else {
        let before = after_writes(m, batches.drop_last()).unwrap();
        law_read_after_writes(m, batches.drop_last());
        law_read_after_write(before, batches.last());
        assert(rows_of(visible(after_writes(m, batches).unwrap())) =~= rows_of(visible(m)) + rows_of(
            batches,
        ));
    }
}

/// After a write, a key that the written rows have is resolved to the last
/// of them, whatever was buffered or frozen before.
pub proof fn law_last_write_wins(m: PartitionModel, batch: BatchView, key: Seq<(Seq<char>, Datum)>)
    requires
        after_write(m, batch).is_some(),
        latest(batch.rows, key).is_some(),
    ensures
        latest(rows_of(visible(after_write(m, batch).unwrap())), key) == latest(batch.rows, key),
{
    law_read_after_write(m, batch);
    law_later_rows_win(rows_of(visible(m)), batch.rows, key);
}

/// A freeze leaves the accepting generation without rows, so that a freeze
/// right after it changes nothing: not the queue, not the count of freezes.
/// A freeze of a generation without rows changes nothing either, whatever
/// the queue and the count are. And a freeze keeps the partition well
/// formed, as long as the count of freezes can still grow where it has to.
pub proof fn law_freeze_twice(m: PartitionModel)
    ensures
        after_freeze(m).accepting.rows.len() == 0,
        after_freeze(after_freeze(m)) == after_freeze(m),
        m.accepting.rows.len() == 0 ==> after_freeze(m) == m,
        model_wf(m) && (m.accepting.rows.len() > 0 ==> m.started < u64::MAX) ==> model_wf(after_freeze(m)),
{
    let after = after_freeze(m);
    if m.accepting.rows.len() > 0 && model_wf(m) && m.started < u64::MAX {
        assert forall|i: int| 0 <= i < after.persisting.len() implies (#[trigger] after.persisting[i]).0
            == after.started - i && after.persisting[i].1.rows.len() > 0 by {
            if i > 0 {
                assert(after.persisting[i] == m.persisting[i - 1]);
            }
        }
    }
}

/// While no other frozen generation is outstanding, a freeze does not
/// change what a reader sees.
pub proof fn law_freeze_keeps_rows(m: PartitionModel)
    requires
        m.persisting.len() == 0,
    ensures
        rows_of(visible(after_freeze(m))) == rows_of(visible(m)),
{
    if m.accepting.rows.len() > 0 {
        let after = after_freeze(m);
        assert(frozen_batches(after.persisting) =~= seq![m.accepting]);
        assert(frozen_batches(m.persisting) =~= Seq::<BatchView>::empty());
        assert(visible(after) =~= seq![m.accepting]);
        assert(visible(m) =~= seq![m.accepting]);
    }
}

/// A freeze neither loses nor repeats a row, however many frozen
/// generations are outstanding: a reader sees the same rows after it as
/// before, each as often, though not always in the same order.
pub proof fn law_freeze_loses_nothing(m: PartitionModel)
    ensures
        rows_of(visible(after_freeze(m))).to_multiset() == rows_of(visible(m)).to_multiset(),
{
    if m.accepting.rows.len() > 0 {
        let after = after_freeze(m);
        let frozen = frozen_batches(m.persisting);
        assert(frozen_batches(after.persisting) =~= seq![m.accepting] + frozen);
        assert(visible(after) =~= seq![m.accepting] + frozen);
        assert(visible(m) =~= frozen + seq![m.accepting]);
        lemma_rows_of_concat(seq![m.accepting], frozen);
        lemma_rows_of_concat(frozen, seq![m.accepting]);
        vstd::seq_lib::lemma_seq_union_to_multiset_commutative(
            rows_of(seq![m.accepting]),
            rows_of(frozen),
        );
    }
}

/// A release takes away the rows of the oldest frozen generation and no
/// other row: what a reader saw before it is what it sees after it,
/// followed by those rows, but for the order.
pub proof fn law_release_drops_one_generation(m: PartitionModel)
    requires
        m.persisting.len() > 0,
    ensures
        rows_of(visible(m)).to_multiset() == (rows_of(visible(after_release(m)))
            + m.persisting.last().1.rows).to_multiset(),
{
    let after = after_release(m);
    let kept = frozen_batches(after.persisting);
    let oldest = m.persisting.last().1;
    let buffered = batches_of(m.accepting);
    assert(frozen_batches(m.persisting) =~= kept + seq![oldest]);
    assert(visible(m) =~= kept + (seq![oldest] + buffered));
    lemma_rows_of_concat(kept, seq![oldest] + buffered);
    lemma_rows_of_concat(seq![oldest], buffered);
    lemma_rows_of_concat(kept, buffered);
    lemma_rows_of_one(oldest);
    vstd::seq_lib::lemma_seq_union_to_multiset_commutative(oldest.rows, rows_of(buffered));
    vstd::seq_lib::lemma_multiset_commutative(rows_of(kept), oldest.rows + rows_of(buffered));
    vstd::seq_lib::lemma_multiset_commutative(rows_of(kept), rows_of(buffered) + oldest.rows);
    assert(rows_of(visible(m)) =~= rows_of(kept) + (oldest.rows + rows_of(buffered)));
    assert(rows_of(visible(after)) + oldest.rows =~= rows_of(kept) + (rows_of(buffered) + oldest.rows));
}

/// The number of a generation is above the numbers of all generations
/// frozen before it.
pub proof fn law_generation_numbers_grow(m: PartitionModel, i: int)
    requires
        model_wf(m),
        m.started < u64::MAX,
        m.accepting.rows.len() > 0,
        0 <= i < m.persisting.len(),
    ensures
        after_freeze(m).persisting[0].0 == m.started + 1,
        after_freeze(m).persisting[0].0 > m.persisting[i].0,
{
}

/// Generations are released in the order in which they were frozen: the one
/// that can be released is older than every other one in the queue, and no
/// generation can be released while an older one is outstanding.
pub proof fn law_release_in_order(m: PartitionModel, i: int, j: int)
    requires
        model_wf(m),
        0 <= i < j < m.persisting.len(),
    ensures
        m.persisting[i].0 > m.persisting[j].0,
        !releasable(m, m.persisting[i].0),
        releasable(m, m.persisting[m.persisting.len() - 1].0),
        model_wf(after_release(m)),
{
    let last = m.persisting.len() - 1;
    assert(m.persisting[last].0 == m.started - last);
    assert(m.persisting[i].0 == m.started - i);
    assert(m.persisting[j].0 == m.started - j);
    let after = after_release(m);
    assert forall|k: int| 0 <= k < after.persisting.len() implies (#[trigger] after.persisting[k]).0
        == after.started - k && after.persisting[k].1.rows.len() > 0 by {
        assert(after.persisting[k] == m.persisting[k]);
    }
}

/// Of two generations frozen one after the other, with a write between the
/// freezes, the second cannot be released first.
pub proof fn law_second_freeze_waits(m: PartitionModel, batch: BatchView)
    requires
        model_wf(m),
        m.started + 2 <= u64::MAX,
        m.accepting.rows.len() > 0,
        batch.rows.len() > 0,
        after_write(after_freeze(m), batch).is_some(),
    ensures
        ({
            let first = after_freeze(m);
            let second = after_freeze(after_write(first, batch).unwrap());
            &&& first.started == m.started + 1
            &&& second.started == m.started + 2
            &&& !releasable(second, second.started)
            &&& m.persisting.len() == 0 ==> releasable(second, first.started)
        }),
{
    let first = after_freeze(m);
    let written = after_write(first, batch).unwrap();
    let second = after_freeze(written);
    assert(written.accepting.rows.len() > 0);
    assert(second.persisting.len() == m.persisting.len() + 2);
    assert(second.persisting.last() == if m.persisting.len() == 0 {
        first.persisting[0]
    } else {
        m.persisting.last()
    });
    if m.persisting.len() > 0 {
        assert(m.persisting.last() == m.persisting[m.persisting.len() - 1]);
    }
}

/// A sort key that was provided is read as provided, whatever was deferred
/// before: it is known, a reader is told that it is ready, and neither a
/// reader nor a fetch that ends later changes it.
pub proof fn law_provided_sort_key_is_read(new: Option<SortKey>, late: Option<SortKey>)
    ensures
        SortKeyState::Provided(new).known() == Some(new),
        SortKeyState::Provided(new).spec_access() == Access::Ready,
        SortKeyState::Provided(new).after_access() == SortKeyState::Provided(new),
        SortKeyState::Provided(new).after_resolve(late) == SortKeyState::Provided(new),
{
}

/// A deferred sort key does not become a provided one by itself: whoever
/// reads it and whatever is fetched, it stays deferred.
pub proof fn law_deferred_sort_key_stays_deferred(state: SortKeyState, key: Option<SortKey>)
    requires
        state is Deferred,
    ensures
        state.after_access() is Deferred,
        state.after_resolve(key) is Deferred,
        state.after_resolve(key).known().is_some(),
{
}

} // verus!
