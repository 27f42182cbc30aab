//! One generation of buffered writes: accepting while it grows, frozen once
//! it was handed to persistence.

use vstd::prelude::*;
use crate::batch::{merged, BatchView, MergeError, MutableBatch, RecordBatch};
use crate::flight::batches_view;

verus! {

/// A batch without rows or columns.
pub open spec fn empty_batch() -> BatchView {
    BatchView { schema: Seq::empty(), rows: Seq::empty() }
}

/// The batches that hold `content`: none if it has no row, else one.
pub open spec fn batches_of(content: BatchView) -> Seq<BatchView> {
    if content.rows.len() == 0 {
        Seq::empty()
    } else {
        seq![content]
    }
}

/// What `content` becomes by a write of `batch`, or `None` if the write gives
/// a column a type other than the one it has.
pub open spec fn written(content: BatchView, batch: BatchView) -> Option<BatchView> {
    match merged(content.schema, batch.schema) {
        Some(schema) => Some(BatchView { schema, rows: content.rows + batch.rows }),
        None => None,
    }
}

/// One generation of writes. It accepts writes until it is frozen; a frozen
/// generation holds at least one row and never changes.
#[derive(Debug)]
pub enum PartitionBuffer {
    Accepting { rows: MutableBatch },
    Frozen { batch: RecordBatch },
}

impl PartitionBuffer {
    /// Whether the generation still takes writes.
    pub open spec fn is_accepting(&self) -> bool {
        self is Accepting
    }

    /// What the generation holds.
    pub open spec fn content(&self) -> BatchView {
        match self {
            PartitionBuffer::Accepting { rows } => rows@,
            PartitionBuffer::Frozen { batch } => batch@,
        }
    }

    /// An accepting generation keeps its batch well formed, a frozen one is
    /// not empty.
    pub open spec fn wf(&self) -> bool {
        match self {
            PartitionBuffer::Accepting { rows } => rows.wf(),
            PartitionBuffer::Frozen { batch } => batch@.rows.len() > 0,
        }
    }

    /// A new generation: accepting, without rows.
    pub fn new() -> (b: PartitionBuffer)
        ensures
            b.is_accepting(),
            b.wf(),
            b.content() == empty_batch(),
    {
        PartitionBuffer::Accepting { rows: MutableBatch::new() }
    }

    /// Whether the generation holds no row.
    pub fn is_empty(&self) -> (e: bool)
        ensures
            e == (self.content().rows.len() == 0),
    {
        match self {
            PartitionBuffer::Accepting { rows } => rows.row_count() == 0,
            PartitionBuffer::Frozen { batch } => batch.row_count() == 0,
        }
    }

    /// Appends the rows of `batch`. A batch that gives a column a type other
    /// than the one it has here is refused, and nothing changes. The
    /// sequence number is taken as it comes: it need not follow the ones
    /// before it.
    pub fn write(&mut self, batch: MutableBatch, sequence_number: u64) -> (res: Result<(), MergeError>)
        requires
            old(self).is_accepting(),
            old(self).wf(),
            batch.wf(),
        ensures
            final(self).is_accepting(),
            final(self).wf(),
            res.is_ok() == written(old(self).content(), batch@).is_some(),
            res.is_ok() ==> final(self).content() == written(old(self).content(), batch@).unwrap(),
            res.is_err() ==> final(self).content() == old(self).content(),
    {
        match self {
            PartitionBuffer::Accepting { rows } => rows.extend_from(&batch),
            // A frozen generation takes no writes: the precondition leaves
            // it out.
            PartitionBuffer::Frozen { .. } => Ok(()),
        }
    }

    /// The rows held now, as batches: none if there is no row. The
    /// generation is left as it is.
    pub fn snapshot(&self) -> (batches: Vec<RecordBatch>)
        ensures
            batches_view(batches@) == batches_of(self.content()),
    {
        let mut batches: Vec<RecordBatch> = Vec::new();
        if !self.is_empty() {
            let copy = match self {
                PartitionBuffer::Accepting { rows } => rows.to_record_batch(),
                PartitionBuffer::Frozen { batch } => batch.duplicate(),
            };
            batches.push(copy);
        }
        assert(batches_view(batches@) =~= batches_of(self.content()));
        batches
    }

    /// Freezes the generation. Without rows nothing happens and nothing is
    /// returned. Else the rows are returned as a frozen generation and a
    /// new accepting generation without rows takes their place.
    pub fn freeze(&mut self) -> (frozen: Option<PartitionBuffer>)
        requires
            old(self).is_accepting(),
            old(self).wf(),
        ensures
            final(self).is_accepting(),
            final(self).wf(),
            old(self).content().rows.len() == 0 ==> frozen is None && *final(self) == *old(self),
            old(self).content().rows.len() > 0 ==> frozen is Some && !frozen.unwrap().is_accepting()
                && frozen.unwrap().wf() && frozen.unwrap().content() == old(self).content()
                && final(self).content() == empty_batch(),
    {
        if self.is_empty() {
            return None;
        }
        let mut taken = PartitionBuffer::new();
        std::mem::swap(self, &mut taken);
        match taken {
            PartitionBuffer::Accepting { rows } => Some(PartitionBuffer::Frozen { batch: rows.into_record_batch() }),
            PartitionBuffer::Frozen { batch } => Some(PartitionBuffer::Frozen { batch }),
        }
    }
}

} // verus!
