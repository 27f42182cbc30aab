//! What a reader or the persistence workflow is handed: batches in their
//! order, and the handle of a frozen generation.

use vstd::prelude::*;
use crate::batch::{BatchView, RecordBatch};
use crate::flight::batches_view;

verus! {

/// The number of a frozen generation. It grows by one with each freeze of a
/// partition and means nothing outside that partition.
#[derive(Clone, Copy, Debug, PartialEq, Eq, Structural)]
pub struct GenerationId(pub u64);

impl GenerationId {
    pub fn get(&self) -> (n: u64)
        ensures
            n == self.0,
    {
        self.0
    }
}

/// The batches of one partition, in the order in which a reader has to see
/// them. There is always at least one.
#[derive(Debug)]
pub struct QueryView {
    partition_id: u64,
    batches: Vec<RecordBatch>,
}

impl QueryView {
    /// The partition that the batches belong to.
    pub closed spec fn spec_partition_id(&self) -> u64 {
        self.partition_id
    }

    /// The batches, in order.
    pub closed spec fn batches(&self) -> Seq<BatchView> {
        batches_view(self.batches@)
    }

    /// A view holds at least one batch.
    pub open spec fn wf(&self) -> bool {
        self.batches().len() > 0
    }

    /// A view over `batches`, of which there must be one at least.
    pub fn new(partition_id: u64, batches: Vec<RecordBatch>) -> (v: QueryView)
        requires
            batches.len() > 0,
        ensures
            v.wf(),
            v.spec_partition_id() == partition_id,
            v.batches() == batches_view(batches@),
    {
        QueryView { partition_id, batches }
    }

    #[verifier::when_used_as_spec(spec_partition_id)]
    pub fn partition_id(&self) -> (id: u64)
        ensures
            id == self.spec_partition_id(),
    {
        self.partition_id
    }

    pub fn record_batches(&self) -> (b: &Vec<RecordBatch>)
        ensures
            batches_view(b@) == self.batches(),
    {
        &self.batches
    }

    /// The batches, taken out of the view.
    pub fn into_record_batches(self) -> (b: Vec<RecordBatch>)
        ensures
            batches_view(b@) == self.batches(),
    {
        self.batches
    }
}

/// The handle of a frozen generation: its rows and its number. Freezing
/// returns it and the release of the generation takes it back; it cannot be
/// copied.
#[derive(Debug)]
pub struct PersistHandle {
    view: QueryView,
    ident: GenerationId,
}

impl PersistHandle {
    pub closed spec fn spec_ident(&self) -> GenerationId {
        self.ident
    }

    pub closed spec fn spec_view(&self) -> QueryView {
        self.view
    }

    pub fn new(view: QueryView, ident: GenerationId) -> (h: PersistHandle)
        ensures
            h.spec_view() == view,
            h.spec_ident() == ident,
    {
        PersistHandle { view, ident }
    }

    /// The number of the generation.
    #[verifier::when_used_as_spec(spec_ident)]
    pub fn batch_ident(&self) -> (id: GenerationId)
        ensures
            id == self.spec_ident(),
    {
        self.ident
    }

    /// The rows of the generation.
    pub fn view(&self) -> (v: &QueryView)
        ensures
            *v == self.spec_view(),
    {
        &self.view
    }

    pub fn partition_id(&self) -> (id: u64)
        ensures
            id == self.spec_view().spec_partition_id(),
    {
        self.view.partition_id()
    }

    pub fn record_batches(&self) -> (b: &Vec<RecordBatch>)
        ensures
            batches_view(b@) == self.spec_view().batches(),
    {
        self.view.record_batches()
    }
}

} // verus!
