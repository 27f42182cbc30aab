//! Framing of one partition's batches for the query response stream.
//!
//! A partition's batches are sent in their order, cut into the longest runs
//! of neighbours that share a schema. Each run is announced by its schema.

use vstd::prelude::*;
use crate::batch::{BatchView, ColumnType, RecordBatch, Schema};
use crate::metadata::{encode_metadata, metadata_bytes, MetadataView};

verus! {

/// The views of a list of batches.
pub open spec fn batches_view(batches: Seq<RecordBatch>) -> Seq<BatchView> {
    Seq::new(batches.len(), |i: int| batches[i]@)
}

/// `batches` cut into the longest runs of neighbours with one schema.
pub open spec fn runs(batches: Seq<BatchView>) -> Seq<Seq<BatchView>>
    decreases batches.len(),
{
    if batches.len() == 0 {
        Seq::empty()
    } else if batches.len() == 1 {
        seq![seq![batches[0]]]
    } else {
        let before = runs(batches.drop_last());
        if batches[batches.len() - 2].schema == batches.last().schema {
            before.drop_last().push(before.last().push(batches.last()))
        } else {
            before.push(seq![batches.last()])
        }
    }
}

/// A run of batches that share a schema.
#[derive(Clone, Debug, PartialEq, Eq)]
pub struct SchemaGroup {
    pub schema: Schema,
    pub batches: Vec<RecordBatch>,
}

impl View for SchemaGroup {
    type V = Seq<BatchView>;

    open spec fn view(&self) -> Seq<BatchView> {
        batches_view(self.batches@)
    }
}

/// The views of a list of groups.
pub open spec fn groups_view(groups: Seq<SchemaGroup>) -> Seq<Seq<BatchView>> {
    Seq::new(groups.len(), |g: int| groups[g]@)
}

/// Cuts `batches` into the longest runs of neighbours that share a schema,
/// keeping their order. Each group carries the schema of its batches.
pub fn group_by_schema(batches: Vec<RecordBatch>) -> (groups: Vec<SchemaGroup>)
    ensures
        groups_view(groups@) == runs(batches_view(batches@)),
        forall|g: int| 0 <= g < groups.len() ==> (#[trigger] groups[g]).batches.len() > 0 && groups[g].schema@ == groups[g]@[0].schema,
{
    let ghost all = batches_view(batches@);
    let mut groups: Vec<SchemaGroup> = Vec::new();
    let mut current: Vec<RecordBatch> = Vec::new();
    for b in it: batches
        invariant
            all == batches_view(batches@),
            it.index() == 0 ==> groups.len() == 0 && current.len() == 0,
            it.index() > 0 ==> current.len() > 0 && runs(all.take(it.index() as int)) == groups_view(groups@).push(batches_view(current@)),
            it.index() > 0 ==> batches_view(current@).last() == all[it.index() - 1],
            forall|g: int| 0 <= g < groups.len() ==> (#[trigger] groups[g]).batches.len() > 0 && groups[g].schema@ == groups[g]@[0].schema,
    {
        proof {
            let n = it.index() as int;
            assert(all.take(n + 1).drop_last() =~= all.take(n));
            assert(all.take(n + 1).last() == b@);
            if n > 0 {
                assert(all.take(n + 1)[n - 1] == all[n - 1]);
            } else {
                assert(all.take(1) =~= seq![b@]);
            }
        }
        let ghost before_groups = groups_view(groups@);
        let ghost before_current = batches_view(current@);
        if current.len() > 0 && !current[current.len() - 1].schema.same_as(&b.schema) {
            let schema = current[0].schema.duplicate();
            groups.push(SchemaGroup { schema, batches: current });
            current = Vec::new();
            assert(groups_view(groups@) =~= before_groups.push(before_current));
            assert(batches_view(current@) =~= Seq::<BatchView>::empty());
        }
        let ghost mid_current = batches_view(current@);
        current.push(b);
        proof {
            assert(batches_view(current@) =~= mid_current.push(b@));
            let n = it.index() as int;
            if n > 0 {
                if all[n - 1].schema == b@.schema {
                    assert(groups_view(groups@) =~= before_groups);
                    assert(before_groups.push(before_current).drop_last() =~= before_groups);
                } else {
                    assert(batches_view(current@) =~= seq![b@]);
                }
            } else {
                assert(batches_view(current@) =~= seq![b@]);
                assert(groups_view(groups@) =~= Seq::<Seq<BatchView>>::empty());
                assert(runs(all.take(1)) =~= groups_view(groups@).push(batches_view(current@)));
            }
        }
    }
    proof {
        assert(all.take(all.len() as int) =~= all);
    }
    if current.len() > 0 {
        let ghost before_groups = groups_view(groups@);
        let ghost before_current = batches_view(current@);
        let schema = current[0].schema.duplicate();
        groups.push(SchemaGroup { schema, batches: current });
        assert(groups_view(groups@) =~= before_groups.push(before_current));
    } else {
        assert(groups_view(groups@) =~= Seq::<Seq<BatchView>>::empty());
    }
    groups
}

/// The batches of `runs`, run after run.
pub open spec fn concat_runs(runs: Seq<Seq<BatchView>>) -> Seq<BatchView>
    decreases runs.len(),
{
    if runs.len() == 0 {
        Seq::empty()
    } else {
        concat_runs(runs.drop_last()) + runs.last()
    }
}

/// The runs of `batches` hold all batches in their order; no run is empty;
/// the batches of a run share one schema; and a run ends where the next
/// batch has another schema, so that no two neighbouring runs could be one.
pub proof fn law_runs_are_longest(batches: Seq<BatchView>)
    ensures
        concat_runs(runs(batches)) == batches,
        forall|g: int| 0 <= g < runs(batches).len() ==> (#[trigger] runs(batches)[g]).len() > 0,
        forall|g: int, i: int|
            0 <= g < runs(batches).len() && 0 <= i < runs(batches)[g].len() ==> (#[trigger] runs(
                batches,
            )[g][i]).schema == runs(batches)[g][0].schema,
        forall|g: int|
            0 <= g < runs(batches).len() - 1 ==> (#[trigger] runs(batches)[g]).last().schema != runs(
                batches,
            )[g + 1][0].schema,
        batches.len() > 0 ==> runs(batches).len() > 0 && runs(batches).last().last() == batches.last(),
    decreases batches.len(),
{
    let all = runs(batches);
    if batches.len() == 0 {
    } else if batches.len() == 1 {
        assert(all == seq![seq![batches[0]]]);
        assert(all.drop_last() =~= Seq::<Seq<BatchView>>::empty());
        assert(concat_runs(all.drop_last()) =~= Seq::<BatchView>::empty());
        assert(concat_runs(all) =~= batches);
    } else {
        let head = batches.drop_last();
        let before = runs(head);
        law_runs_are_longest(head);
        assert(head.last() == batches[batches.len() - 2]);
        assert(concat_runs(before) == concat_runs(before.drop_last()) + before.last());
        if batches[batches.len() - 2].schema == batches.last().schema {
            let grown = before.last().push(batches.last());
            assert(all == before.drop_last().push(grown));
            assert(all.drop_last() =~= before.drop_last());
            assert(all.last() == grown);
            assert(concat_runs(all) == concat_runs(before.drop_last()) + grown);
            assert(concat_runs(before.drop_last()) + grown =~= (concat_runs(before.drop_last())
                + before.last()).push(batches.last()));
            assert(head.push(batches.last()) =~= batches);
            assert(concat_runs(all) =~= batches);
            assert forall|g: int, i: int| 0 <= g < all.len() && 0 <= i < all[g].len() implies (#[trigger] all[g][i]).schema
                == all[g][0].schema by {
                if g < all.len() - 1 {
                    assert(all[g] == before[g]);
                } else if i < before.last().len() {
                    assert(all[g][i] == before.last()[i]);
                    assert(before[before.len() - 1][i].schema == before[before.len() - 1][0].schema);
                } else {
                    assert(before[before.len() - 1][before.last().len() - 1].schema
                        == before[before.len() - 1][0].schema);
                }
            }
            assert forall|g: int| 0 <= g < all.len() - 1 implies (#[trigger] all[g]).last().schema != all[g
                + 1][0].schema by {
                assert(all[g] == before[g]);
                assert(all[g + 1][0] == before[g + 1][0]);
            }
            assert forall|g: int| 0 <= g < all.len() implies (#[trigger] all[g]).len() > 0 by {
                if g < all.len() - 1 {
                    assert(all[g] == before[g]);
                }
            }
        } else {
            assert(all == before.push(seq![batches.last()]));
            assert(all.drop_last() =~= before);
            assert(concat_runs(all) == concat_runs(before) + seq![batches.last()]);
            assert(head + seq![batches.last()] =~= batches);
            assert(concat_runs(all) =~= batches);
            assert forall|g: int, i: int| 0 <= g < all.len() && 0 <= i < all[g].len() implies (#[trigger] all[g][i]).schema
                == all[g][0].schema by {
                if g < all.len() - 1 {
                    assert(all[g] == before[g]);
                }
            }
            assert forall|g: int| 0 <= g < all.len() - 1 implies (#[trigger] all[g]).last().schema != all[g
                + 1][0].schema by {
                assert(all[g] == before[g]);
                if g < all.len() - 2 {
                    assert(all[g + 1] == before[g + 1]);
                } else {
                    assert(before[before.len() - 1][before.last().len() - 1].schema
                        == before[before.len() - 1][0].schema);
                }
            }
            assert forall|g: int| 0 <= g < all.len() implies (#[trigger] all[g]).len() > 0 by {
                if g < all.len() - 1 {
                    assert(all[g] == before[g]);
                }
            }
        }
    }
}

/// The fifth version of the message format.
pub const METADATA_VERSION_V5: i16 = 4;

/// The kind of a message that has no header of its own.
pub const MESSAGE_HEADER_NONE: u8 = 0;

/// The bytes of a message header of the columnar stream format with the
/// given version, kind of header and length of body, as
/// `arrow::ipc::MessageBuilder` and `flatbuffers::FlatBufferBuilder` build
/// them.
pub uninterp spec fn ipc_message_bytes(version: i16, header_type: u8, body_length: i64) -> Seq<u8>;

/// Builds a message header of the columnar stream format, by
/// `arrow::ipc::MessageBuilder` on a `flatbuffers::FlatBufferBuilder`: the
/// finished buffer of a message with this version, kind of header and
/// length of body, and no header table.
#[verifier::external_body]
fn ipc_message(version: i16, header_type: u8, body_length: i64) -> (bytes: Vec<u8>)
    ensures
        bytes@ == ipc_message_bytes(version, header_type, body_length),
{
    let mut fbb = flatbuffers::FlatBufferBuilder::new();
    let mut message = arrow::ipc::MessageBuilder::new(&mut fbb);
    message.add_version(arrow::ipc::MetadataVersion(version));
    message.add_header_type(arrow::ipc::MessageHeader(header_type));
    message.add_bodyLength(body_length);
    let data = message.finish();
    fbb.finish(data, None);
    fbb.finished_data().to_vec()
}

/// The header of a frame that carries neither schema nor rows.
pub fn build_none_flight_msg() -> (bytes: Vec<u8>)
    ensures
        bytes@ == ipc_message_bytes(METADATA_VERSION_V5, MESSAGE_HEADER_NONE, 0),
{
    ipc_message(METADATA_VERSION_V5, MESSAGE_HEADER_NONE, 0)
}

/// The frame that goes before the batches of a partition. It has no
/// payload, only metadata.
#[derive(Clone, Debug, PartialEq, Eq)]
pub struct MetadataFrame {
    /// The message header of the frame.
    pub header: Vec<u8>,
    /// The metadata of the partition, encoded.
    pub app_metadata: Vec<u8>,
}

/// One frame of a response.
#[derive(Clone, Debug, PartialEq, Eq)]
pub enum Frame {
    Metadata(MetadataFrame),
    Schema(Schema),
    Batch(RecordBatch),
}

/// What a frame holds.
pub enum FrameView {
    Metadata { header: Seq<u8>, app_metadata: Seq<u8> },
    Schema(Seq<(Seq<char>, ColumnType)>),
    Batch(BatchView),
}

impl View for Frame {
    type V = FrameView;

    open spec fn view(&self) -> FrameView {
        match self {
            Frame::Metadata(m) => FrameView::Metadata { header: m.header@, app_metadata: m.app_metadata@ },
            Frame::Schema(s) => FrameView::Schema(s@),
            Frame::Batch(b) => FrameView::Batch(b@),
        }
    }
}

/// The views of a list of frames.
pub open spec fn frames_view(frames: Seq<Frame>) -> Seq<FrameView> {
    Seq::new(frames.len(), |i: int| frames[i]@)
}

/// The frame that announces a partition: the partition, the identity of
/// the service, and how many persist operations of the partition have
/// completed.
pub fn encode_partition(partition_id: u64, completed_persistence_count: u64, ingester_id: &str) -> (frame:
    MetadataFrame)
    ensures
        frame.header@ == ipc_message_bytes(METADATA_VERSION_V5, MESSAGE_HEADER_NONE, 0),
        frame.app_metadata@ == metadata_bytes(
            MetadataView { partition_id, ingester_uuid: ingester_id@, completed_persistence_count },
        ),
{
    MetadataFrame {
        header: build_none_flight_msg(),
        app_metadata: encode_metadata(partition_id, ingester_id, completed_persistence_count),
    }
}

/// What a query found in one partition.
#[derive(Debug)]
pub struct PartitionResponse {
    batches: Vec<RecordBatch>,
    id: u64,
    completed_persistence_count: u64,
}

impl PartitionResponse {
    pub closed spec fn spec_id(&self) -> u64 {
        self.id
    }

    pub closed spec fn spec_completed_persistence_count(&self) -> u64 {
        self.completed_persistence_count
    }

    /// The batches of the partition, in order.
    pub closed spec fn batches(&self) -> Seq<BatchView> {
        batches_view(self.batches@)
    }

    pub fn new(batches: Vec<RecordBatch>, id: u64, completed_persistence_count: u64) -> (p: PartitionResponse)
        ensures
            p.batches() == batches_view(batches@),
            p.spec_id() == id,
            p.spec_completed_persistence_count() == completed_persistence_count,
    {
        PartitionResponse { batches, id, completed_persistence_count }
    }

    #[verifier::when_used_as_spec(spec_id)]
    pub fn id(&self) -> (id: u64)
        ensures
            id == self.spec_id(),
    {
        self.id
    }

    /// How many persist operations of the partition have completed.
    #[verifier::when_used_as_spec(spec_completed_persistence_count)]
    pub fn completed_persistence_count(&self) -> (n: u64)
        ensures
            n == self.spec_completed_persistence_count(),
    {
        self.completed_persistence_count
    }

    pub fn into_record_batches(self) -> (batches: Vec<RecordBatch>)
        ensures
            batches_view(batches@) == self.batches(),
    {
        self.batches
    }
}

/// The frames of one run: its schema, then its batches.
pub open spec fn run_frames(run: Seq<BatchView>) -> Seq<FrameView> {
    seq![FrameView::Schema(run[0].schema)] + Seq::new(run.len(), |i: int| FrameView::Batch(run[i]))
}

/// The frames of a list of runs, run after run.
pub open spec fn runs_frames(runs: Seq<Seq<BatchView>>) -> Seq<FrameView>
    decreases runs.len(),
{
    if runs.len() == 0 {
        Seq::empty()
    } else {
        runs_frames(runs.drop_last()) + run_frames(runs.last())
    }
}

/// The frames of one partition: one metadata frame, then the batches in
/// their order, each of the longest runs with one schema behind a frame
/// with that schema.
pub open spec fn partition_frames(
    batches: Seq<BatchView>,
    partition_id: u64,
    completed_persistence_count: u64,
    ingester_id: Seq<char>,
) -> Seq<FrameView> {
    seq![
        FrameView::Metadata {
            header: ipc_message_bytes(METADATA_VERSION_V5, MESSAGE_HEADER_NONE, 0),
            app_metadata: metadata_bytes(
                MetadataView { partition_id, ingester_uuid: ingester_id, completed_persistence_count },
            ),
        },
    ] + runs_frames(runs(batches))
}

/// The frames of one partition of a response.
pub fn encode_partition_response(partition: PartitionResponse, ingester_id: &str) -> (frames: Vec<Frame>)
    ensures
        frames_view(frames@) == partition_frames(
            partition.batches(),
            partition.spec_id(),
            partition.spec_completed_persistence_count(),
            ingester_id@,
        ),
{
    let head = encode_partition(partition.id(), partition.completed_persistence_count(), ingester_id);
    let mut frames: Vec<Frame> = Vec::new();
    frames.push(Frame::Metadata(head));
    let ghost first = frames_view(frames@);
    let groups = group_by_schema(partition.into_record_batches());
    let ghost all = groups_view(groups@);
    for group in it: groups
        invariant
            all == groups_view(groups@),
            forall|g: int| 0 <= g < groups.len() ==> (#[trigger] groups[g]).batches.len() > 0 && groups[g].schema@ == groups[g]@[0].schema,
            frames_view(frames@) == first + runs_frames(all.take(it.index() as int)),
    {
        let ghost n = it.index() as int;
        let ghost run = group@;
        let ghost start = frames_view(frames@);
        proof {
            assert(all.take(n + 1).drop_last() =~= all.take(n));
            assert(all.take(n + 1).last() == run);
        }
        let SchemaGroup { schema, batches } = group;
        frames.push(Frame::Schema(schema));
        proof {
            assert(frames_view(frames@) =~= start.push(FrameView::Schema(run[0].schema)));
        }
        for batch in inner: batches
            invariant
                run == batches_view(batches@),
                frames_view(frames@) == start.push(FrameView::Schema(run[0].schema)) + Seq::new(
                    inner.index() as nat,
                    |i: int| FrameView::Batch(run[i]),
                ),
        {
            let ghost so_far = frames_view(frames@);
            frames.push(Frame::Batch(batch));
            proof {
                assert(frames_view(frames@) =~= so_far.push(FrameView::Batch(batch@)));
                assert(frames_view(frames@) =~= start.push(FrameView::Schema(run[0].schema)) + Seq::new(
                    (inner.index() + 1) as nat,
                    |i: int| FrameView::Batch(run[i]),
                ));
            }
        }
        proof {
            assert(frames_view(frames@) =~= start + run_frames(run));
            assert(frames_view(frames@) =~= first + runs_frames(all.take(n + 1)));
        }
    }
    proof {
        assert(all.take(all.len() as int) =~= all);
        assert(first =~= seq![
            FrameView::Metadata {
                header: ipc_message_bytes(METADATA_VERSION_V5, MESSAGE_HEADER_NONE, 0),
                app_metadata: metadata_bytes(
                    MetadataView {
                        partition_id: partition.spec_id(),
                        ingester_uuid: ingester_id@,
                        completed_persistence_count: partition.spec_completed_persistence_count(),
                    },
                ),
            },
        ]);
    }
    frames
}

/// The frames of the partitions of a response, partition after partition.
pub open spec fn response_frames(partitions: Seq<PartitionResponse>, ingester_id: Seq<char>) -> Seq<FrameView>
    decreases partitions.len(),
{
    if partitions.len() == 0 {
        Seq::empty()
    } else {
        response_frames(partitions.drop_last(), ingester_id) + partition_frames(
            partitions.last().batches(),
            partitions.last().spec_id(),
            partitions.last().spec_completed_persistence_count(),
            ingester_id,
        )
    }
}

/// The frames of a response: for each partition, in the order of the
/// response, its metadata frame and then its batches, run by run.
pub fn encode_response(response: Vec<PartitionResponse>, ingester_id: &str) -> (frames: Vec<Frame>)
    ensures
        frames_view(frames@) == response_frames(response@, ingester_id@),
{
    let mut frames: Vec<Frame> = Vec::new();
    assert(frames_view(frames@) =~= Seq::<FrameView>::empty());
    for partition in it: response
        invariant
            frames_view(frames@) == response_frames(response@.take(it.index() as int), ingester_id@),
    {
        let ghost n = it.index() as int;
        proof {
            assert(response@.take(n + 1).drop_last() =~= response@.take(n));
            assert(response@.take(n + 1).last() == partition);
        }
        let ghost so_far = frames_view(frames@);
        let mut part = encode_partition_response(partition, ingester_id);
        let ghost added = frames_view(part@);
        frames.append(&mut part);
        assert(frames_view(frames@) =~= so_far + added);
    }
    assert(response@.take(response@.len() as int) =~= response@);
    frames
}

} // verus!
