//! The metadata that goes with each partition of a response: which
//! partition it is, which service answered, and how many persist operations
//! of the partition have completed.

use vstd::prelude::*;
use vstd::utf8::{decode_utf8, encode_utf8, encode_utf8_decode_utf8, encode_utf8_valid_utf8, valid_utf8};
use crate::wire::{
    key_bytes, key_decode, lemma_key_round_trip, lemma_varint_round_trip, len_field, payload_decode,
    read_key, read_payload, read_string, read_unknown, read_varint, skipped_len, uint64_field,
    varint_bytes, varint_decode, write_len_field, write_uint64_field, WIRE_LEN, WIRE_VARINT,
};

verus! {

/// The number of the field that holds the partition.
pub const TAG_PARTITION_ID: u32 = 7;

/// The number of the field that holds the identity of the service.
pub const TAG_INGESTER_UUID: u32 = 9;

/// The number of the field that counts the completed persist operations.
pub const TAG_COMPLETED_PERSISTENCE_COUNT: u32 = 10;

/// The metadata of one partition of a response.
#[derive(Clone, Debug, PartialEq, Eq)]
pub struct ResponseMetadata {
    pub partition_id: u64,
    /// The identity of the service that answered.
    pub ingester_uuid: String,
    /// How many persist operations of the partition have completed.
    pub completed_persistence_count: u64,
}

/// What the metadata of a partition holds.
pub struct MetadataView {
    pub partition_id: u64,
    pub ingester_uuid: Seq<char>,
    pub completed_persistence_count: u64,
}

impl View for ResponseMetadata {
    type V = MetadataView;

    open spec fn view(&self) -> MetadataView {
        MetadataView {
            partition_id: self.partition_id,
            ingester_uuid: self.ingester_uuid@,
            completed_persistence_count: self.completed_persistence_count,
        }
    }
}

/// The metadata of a partition in the tagged binary encoding: its fields in
/// the order of their numbers, a field left out where it is 0 or empty.
pub open spec fn metadata_bytes(m: MetadataView) -> Seq<u8> {
    (if m.partition_id != 0 {
        uint64_field(TAG_PARTITION_ID, m.partition_id)
    } else {
        Seq::empty()
    }) + (if m.ingester_uuid.len() != 0 {
        len_field(TAG_INGESTER_UUID, encode_utf8(m.ingester_uuid))
    } else {
        Seq::empty()
    }) + (if m.completed_persistence_count != 0 {
        uint64_field(TAG_COMPLETED_PERSISTENCE_COUNT, m.completed_persistence_count)
    } else {
        Seq::empty()
    })
}

/// Writes the metadata of a partition.
pub fn encode_metadata(partition_id: u64, ingester_uuid: &str, completed_persistence_count: u64) -> (bytes:
    Vec<u8>)
    ensures
        bytes@ == metadata_bytes(
            MetadataView { partition_id, ingester_uuid: ingester_uuid@, completed_persistence_count },
        ),
{
    let mut bytes: Vec<u8> = Vec::new();
    if partition_id != 0 {
        write_uint64_field(TAG_PARTITION_ID, partition_id, &mut bytes);
    }
    if !ingester_uuid.is_empty() {
        write_len_field(TAG_INGESTER_UUID, ingester_uuid.as_bytes(), &mut bytes);
    }
    if completed_persistence_count != 0 {
        write_uint64_field(TAG_COMPLETED_PERSISTENCE_COUNT, completed_persistence_count, &mut bytes);
    }
    assert(bytes@ =~= metadata_bytes(
        MetadataView { partition_id, ingester_uuid: ingester_uuid@, completed_persistence_count },
    ));
    bytes
}

/// One field of the metadata.
pub enum MetadataField {
    PartitionId(u64),
    IngesterUuid(Seq<char>),
    CompletedPersistenceCount(u64),
    /// A field that the metadata does not have. It is passed over.
    Unknown,
}

/// The metadata without any field.
pub open spec fn empty_metadata() -> MetadataView {
    MetadataView { partition_id: 0, ingester_uuid: Seq::empty(), completed_persistence_count: 0 }
}

/// The field at the start of `bytes` and the number of bytes it takes, or
/// `None` if the bytes do not start with a well-formed field.
pub open spec fn next_metadata_field(bytes: Seq<u8>) -> Option<(MetadataField, nat)> {
    match key_decode(bytes) {
        None => None,
        Some((tag, wire_type, n)) => {
            let rest = bytes.skip(n as int);
            if tag == TAG_PARTITION_ID || tag == TAG_COMPLETED_PERSISTENCE_COUNT {
                match varint_decode(rest) {
                    Some((value, m)) if wire_type == WIRE_VARINT => Some(
                        (
                            if tag == TAG_PARTITION_ID {
                                MetadataField::PartitionId(value as u64)
                            } else {
                                MetadataField::CompletedPersistenceCount(value as u64)
                            },
                            n + m,
                        ),
                    ),
                    _ => None,
                }
            } else if tag == TAG_INGESTER_UUID {
                match payload_decode(rest) {
                    Some((payload, m)) if wire_type == WIRE_LEN && valid_utf8(payload) => Some(
                        (MetadataField::IngesterUuid(decode_utf8(payload)), n + m),
                    ),
                    _ => None,
                }
            } else {
                match skipped_len(wire_type, tag, rest) {
                    Some(m) => Some((MetadataField::Unknown, n + m)),
                    None => None,
                }
            }
        },
    }
}

/// The metadata `m` after the field `f` was read: the field replaces what
/// was read for it before.
pub open spec fn with_metadata_field(m: MetadataView, f: MetadataField) -> MetadataView {
    match f {
        MetadataField::PartitionId(id) => MetadataView { partition_id: id, ..m },
        MetadataField::IngesterUuid(id) => MetadataView { ingester_uuid: id, ..m },
        MetadataField::CompletedPersistenceCount(n) => MetadataView { completed_persistence_count: n, ..m },
        MetadataField::Unknown => m,
    }
}

/// The metadata `m` after all fields of `bytes` were read, or `None` if the
/// bytes are not well-formed fields from start to end.
pub open spec fn decode_metadata_fields(bytes: Seq<u8>, m: MetadataView) -> Option<MetadataView>
    decreases bytes.len(),
{
    if bytes.len() == 0 {
        Some(m)
    } else {
        match next_metadata_field(bytes) {
            Some((f, n)) => if 0 < n <= bytes.len() {
                decode_metadata_fields(bytes.skip(n as int), with_metadata_field(m, f))
            } else {
                None
            },
            None => None,
        }
    }
}

/// Reads the metadata of a partition, or returns `None` if the bytes are
/// malformed.
pub fn decode_metadata(bytes: &[u8]) -> (res: Option<ResponseMetadata>)
    ensures
        match res {
            Some(m) => decode_metadata_fields(bytes@, empty_metadata()) == Some(m@),
            None => decode_metadata_fields(bytes@, empty_metadata()).is_none(),
        },
{
    let mut partition_id: u64 = 0;
    let mut ingester_uuid: String = String::new();
    let mut completed_persistence_count: u64 = 0;
    let mut pos: usize = 0;
    assert(bytes@.skip(0) =~= bytes@);
    while pos < bytes.len()
        invariant
            pos <= bytes@.len(),
            decode_metadata_fields(bytes@, empty_metadata()) == decode_metadata_fields(
                bytes@.skip(pos as int),
                MetadataView { partition_id, ingester_uuid: ingester_uuid@, completed_persistence_count },
            ),
        decreases bytes@.len() - pos,
    {
        let ghost here = bytes@.skip(pos as int);
        let ghost before = MetadataView {
            partition_id,
            ingester_uuid: ingester_uuid@,
            completed_persistence_count,
        };
        let (tag, wire_type, value_at) = match read_key(bytes, pos) {
            Some(key) => key,
            None => {
                return None;
            },
        };
        assert(here.skip(value_at - pos) =~= bytes@.skip(value_at as int));
        let next: usize;
        if tag == TAG_PARTITION_ID || tag == TAG_COMPLETED_PERSISTENCE_COUNT {
            if wire_type != WIRE_VARINT {
                return None;
            }
            match read_varint(bytes, value_at) {
                Some((value, after)) => {
                    if tag == TAG_PARTITION_ID {
                        partition_id = value;
                    } else {
                        completed_persistence_count = value;
                    }
                    next = after;
                },
                None => {
                    return None;
                },
            }
        } else if tag == TAG_INGESTER_UUID {
            if wire_type != WIRE_LEN {
                return None;
            }
            match read_payload(bytes, value_at) {
                Some((start, end)) => {
                    match read_string(bytes, start, end) {
                        Some(id) => {
                            ingester_uuid = id;
                        },
                        None => {
                            return None;
                        },
                    }
                    next = end;
                },
                None => {
                    return None;
                },
            }
        } else {
            match read_unknown(bytes, value_at, wire_type, tag) {
                Some(after) => {
                    next = after;
                },
                None => {
                    return None;
                },
            }
        }
        proof {
            let f = next_metadata_field(here).unwrap().0;
            assert(next_metadata_field(here).unwrap().1 == next - pos);
            assert(here.skip(next - pos) =~= bytes@.skip(next as int));
            assert(with_metadata_field(before, f) == MetadataView {
                partition_id,
                ingester_uuid: ingester_uuid@,
                completed_persistence_count,
            });
        }
        pos = next;
    }
    Some(ResponseMetadata { partition_id, ingester_uuid, completed_persistence_count })
}

/// A field that holds an integer is read back as what was written.
proof fn lemma_next_uint64_field(tag: u32, value: u64, rest: Seq<u8>)
    requires
        tag == TAG_PARTITION_ID || tag == TAG_COMPLETED_PERSISTENCE_COUNT,
    ensures
        uint64_field(tag, value).len() > 0,
        next_metadata_field(uint64_field(tag, value) + rest) == Some(
            (
                if tag == TAG_PARTITION_ID {
                    MetadataField::PartitionId(value)
                } else {
                    MetadataField::CompletedPersistenceCount(value)
                },
                uint64_field(tag, value).len(),
            ),
        ),
{
    let bytes = uint64_field(tag, value) + rest;
    let key = key_bytes(tag, WIRE_VARINT);
    assert(bytes =~= key + (varint_bytes(value) + rest));
    lemma_key_round_trip(tag, WIRE_VARINT, varint_bytes(value) + rest);
    assert(bytes.skip(key.len() as int) =~= varint_bytes(value) + rest);
    lemma_varint_round_trip(value, rest);
}

/// The field of the identity is read back as what was written.
proof fn lemma_next_uuid_field(id: Seq<char>, rest: Seq<u8>)
    requires
        encode_utf8(id).len() <= u64::MAX,
    ensures
        len_field(TAG_INGESTER_UUID, encode_utf8(id)).len() > 0,
        next_metadata_field(len_field(TAG_INGESTER_UUID, encode_utf8(id)) + rest) == Some(
            (MetadataField::IngesterUuid(id), len_field(TAG_INGESTER_UUID, encode_utf8(id)).len()),
        ),
{
    let payload = encode_utf8(id);
    encode_utf8_valid_utf8(id);
    encode_utf8_decode_utf8(id);
    let bytes = len_field(TAG_INGESTER_UUID, payload) + rest;
    let key = key_bytes(TAG_INGESTER_UUID, WIRE_LEN);
    let len = varint_bytes(payload.len() as u64);
    assert(bytes =~= key + (len + payload + rest));
    lemma_key_round_trip(TAG_INGESTER_UUID, WIRE_LEN, len + payload + rest);
    let value = bytes.skip(key.len() as int);
    assert(value =~= len + (payload + rest));
    lemma_varint_round_trip(payload.len() as u64, payload + rest);
    assert(value.subrange(len.len() as int, (len.len() + payload.len()) as int) =~= payload);
}

/// Reading the bytes of one field and then `rest` is reading `rest` with
/// the field taken in.
proof fn lemma_decode_one(field: Seq<u8>, f: MetadataField, rest: Seq<u8>, m: MetadataView)
    requires
        field.len() > 0,
        next_metadata_field(field + rest) == Some((f, field.len())),
    ensures
        decode_metadata_fields(field + rest, m) == decode_metadata_fields(rest, with_metadata_field(m, f)),
{
    assert((field + rest).skip(field.len() as int) =~= rest);
}

/// Metadata that was written is read back as it was: sender and receiver
/// agree on the encoding.
pub proof fn law_metadata_round_trip(m: MetadataView)
    requires
        encode_utf8(m.ingester_uuid).len() <= u64::MAX,
    ensures
        decode_metadata_fields(metadata_bytes(m), empty_metadata()) == Some(m),
{
    let partition: Seq<u8> = if m.partition_id != 0 {
        uint64_field(TAG_PARTITION_ID, m.partition_id)
    } else {
        Seq::empty()
    };
    let uuid: Seq<u8> = if m.ingester_uuid.len() != 0 {
        len_field(TAG_INGESTER_UUID, encode_utf8(m.ingester_uuid))
    } else {
        Seq::empty()
    };
    let count: Seq<u8> = if m.completed_persistence_count != 0 {
        uint64_field(TAG_COMPLETED_PERSISTENCE_COUNT, m.completed_persistence_count)
    } else {
        Seq::empty()
    };
    let none = Seq::<u8>::empty();
    assert(metadata_bytes(m) =~= partition + (uuid + (count + none)));
    let m1 = MetadataView { partition_id: m.partition_id, ..empty_metadata() };
    if m.partition_id != 0 {
        lemma_next_uint64_field(TAG_PARTITION_ID, m.partition_id, uuid + (count + none));
        lemma_decode_one(partition, MetadataField::PartitionId(m.partition_id), uuid + (count + none), empty_metadata());
    } else {
        assert(partition + (uuid + (count + none)) =~= uuid + (count + none));
    }
    assert(decode_metadata_fields(partition + (uuid + (count + none)), empty_metadata())
        == decode_metadata_fields(uuid + (count + none), m1));
    let m2 = MetadataView { ingester_uuid: m.ingester_uuid, ..m1 };
    if m.ingester_uuid.len() != 0 {
        lemma_next_uuid_field(m.ingester_uuid, count + none);
        lemma_decode_one(uuid, MetadataField::IngesterUuid(m.ingester_uuid), count + none, m1);
    } else {
        assert(uuid + (count + none) =~= count + none);
        assert(m.ingester_uuid =~= Seq::<char>::empty());
    }
    assert(decode_metadata_fields(uuid + (count + none), m1) == decode_metadata_fields(count + none, m2));
    if m.completed_persistence_count != 0 {
        lemma_next_uint64_field(TAG_COMPLETED_PERSISTENCE_COUNT, m.completed_persistence_count, none);
        lemma_decode_one(
            count,
            MetadataField::CompletedPersistenceCount(m.completed_persistence_count),
            none,
            m2,
        );
    } else {
        assert(count + none =~= none);
    }
    assert(decode_metadata_fields(count + none, m2) == Some(m));
}

} // verus!
