use ingester::batch::{Cell, ColumnType, RecordBatch, Row, Schema, Value};
use ingester::error::{Error, QueryError, StatusCode};
use ingester::flight::{
    build_none_flight_msg, encode_partition, encode_partition_response, encode_response,
    group_by_schema, Frame, PartitionResponse,
};
use ingester::metadata::{decode_metadata, encode_metadata, ResponseMetadata};
use ingester::service::{decide_admission, FlightService};
use ingester::ticket::{encode_ticket, QueryRequest};

fn schema(columns: &[(&str, ColumnType)]) -> Schema {
    let mut s = Schema::new();
    for (name, kind) in columns {
        assert!(s.add_column(&name.to_string(), *kind));
    }
    s
}

fn float_int_batch(floats: &[f64], ints: &[i64]) -> RecordBatch {
    let mut rows = Vec::new();
    for (f, i) in floats.iter().zip(ints.iter()) {
        rows.push(Row::new(vec![
            Cell::new("float".to_string(), Value::F64(f.to_bits())),
            Cell::new("int".to_string(), Value::I64(*i)),
        ]));
    }
    RecordBatch::new(schema(&[("float", ColumnType::F64), ("int", ColumnType::I64)]), rows)
}

fn int_batch(ints: &[i64]) -> RecordBatch {
    let mut rows = Vec::new();
    for i in ints {
        rows.push(Row::new(vec![Cell::new("int".to_string(), Value::I64(*i))]));
    }
    RecordBatch::new(schema(&[("int", ColumnType::I64)]), rows)
}

// Reads the metadata of a partition back, field by field.
fn decode_with_prost(mut bytes: &[u8]) -> (u64, String, u64) {
    let mut partition_id = 0;
    let mut ingester_uuid = String::new();
    let mut completed = 0;
    while !bytes.is_empty() {
        let (tag, wire_type) = prost::encoding::decode_key(&mut bytes).unwrap();
        match tag {
            7 => {
                assert_eq!(wire_type, prost::encoding::WireType::Varint);
                partition_id = prost::encoding::decode_varint(&mut bytes).unwrap();
            }
            9 => {
                assert_eq!(wire_type, prost::encoding::WireType::LengthDelimited);
                let len = prost::encoding::decode_varint(&mut bytes).unwrap() as usize;
                ingester_uuid = String::from_utf8(bytes[..len].to_vec()).unwrap();
                bytes = &bytes[len..];
            }
            10 => {
                assert_eq!(wire_type, prost::encoding::WireType::Varint);
                completed = prost::encoding::decode_varint(&mut bytes).unwrap();
            }
            other => panic!("Unexpected field: {other:?}"),
        }
    }
    (partition_id, ingester_uuid, completed)
}

#[test]
fn limits_concurrent_queries() {
    let flight = FlightService::new("ingester".to_string(), 100);

    // An empty ticket is the request for all columns of table 0.
    match flight.begin_query(&[]) {
        Ok(q) => {
            assert_eq!(q.request.namespace_id, 0);
            let found: Result<Vec<PartitionResponse>, QueryError> = Err(QueryError::NamespaceNotFound(0));
            match flight.complete_query(found) {
                Ok(_) => panic!("expected error because nothing is buffered"),
                Err(e) => assert_eq!(e.code(), StatusCode::NotFound),
            }
        }
        Err(_) => panic!("expected the query to be taken up"),
    }
    assert_eq!(flight.rejected_count(), 0);

    let flight = FlightService::new("ingester".to_string(), 0);
    match flight.begin_query(&[]) {
        Ok(_) => panic!("expected error because of request limit"),
        Err(e) => {
            assert_eq!(e, Error::RequestLimit);
            assert_eq!(e.code(), StatusCode::ResourceExhausted);
        }
    }
    assert_eq!(flight.rejected_count(), 1);
}

#[test]
fn no_token_rejects_every_request() {
    let flight = FlightService::new("ingester".to_string(), 0);
    let good = encode_ticket(&QueryRequest {
        namespace_id: 1,
        table_id: 2,
        columns: vec!["a".to_string()],
        predicate: None,
    });
    for n in 1..=5u64 {
        assert_eq!(flight.begin_query(&good).err(), Some(Error::RequestLimit));
        // Even a malformed ticket is refused for the limit, before it is read.
        assert_eq!(flight.begin_query(&[0x30]).err(), Some(Error::RequestLimit));
        assert_eq!(flight.rejected_count(), 2 * n);
    }
}

#[test]
fn permits_are_held_until_dropped() {
    let flight = FlightService::new("ingester".to_string(), 2);
    let first = flight.begin_query(&[]).expect("first permit");
    let second = flight.begin_query(&[]).expect("second permit");
    assert_eq!(flight.begin_query(&[]).err(), Some(Error::RequestLimit));
    assert_eq!(flight.rejected_count(), 1);
    drop(first);
    let third = flight.begin_query(&[]).expect("a permit is free again");
    assert_eq!(flight.begin_query(&[]).err(), Some(Error::RequestLimit));
    drop(second);
    drop(third);
    assert!(flight.begin_query(&[]).is_ok());
    assert_eq!(flight.rejected_count(), 2);
}

#[test]
fn invalid_ticket_gives_its_permit_back() {
    let flight = FlightService::new("ingester".to_string(), 1);
    for _ in 0..3 {
        assert_eq!(flight.begin_query(&[0x30]).err(), Some(Error::InvalidTicket));
    }
    assert_eq!(flight.rejected_count(), 0);
    let held = flight.begin_query(&[0x30, 0x05]).expect("the permit is free");
    assert_eq!(held.request.namespace_id, 5);
    assert_eq!(flight.begin_query(&[]).err(), Some(Error::RequestLimit));
}

#[test]
fn admission_without_permit_is_refused_whatever_the_ticket() {
    let refused = decide_admission(None, &[]);
    assert_eq!(refused.outcome.err(), Some(Error::RequestLimit));
    assert_eq!(refused.rejections, 1);
    // A malformed ticket is not even read.
    let refused = decide_admission(None, &[0x30]);
    assert_eq!(refused.outcome.err(), Some(Error::RequestLimit));
    assert_eq!(refused.rejections, 1);
    assert_eq!(FlightService::new("x".to_string(), 3).ingester_id(), "x");
}

#[test]
fn test_chunks_with_different_schemas() {
    let ingester_id = "0b6f2c1e-8a71-4f0e-9d43-5a67c1e2f3a4";
    let batch1 = float_int_batch(&[1.1, 2.2, 3.3], &[1, 2, 3]);
    let batch2 = float_int_batch(&[4.4], &[4]);
    assert_eq!(batch1.schema, batch2.schema);
    let batch3 = int_batch(&[5, 6]);
    let batch4 = float_int_batch(&[7.7], &[8]);
    assert_eq!(batch1.schema, batch4.schema);

    let flight = FlightService::new(ingester_id.to_string(), 100);
    let admitted = flight.begin_query(&[]).unwrap();
    let flight_data = flight
        .complete_query(Ok(vec![PartitionResponse::new(
            vec![batch1.clone(), batch2.clone(), batch3.clone(), batch4.clone()],
            2,
            42,
        )]))
        .unwrap();
    drop(admitted);
    assert_eq!(flight_data.len(), 8);

    // partition info
    match &flight_data[0] {
        Frame::Metadata(m) => {
            assert_eq!(decode_with_prost(&m.app_metadata), (2, ingester_id.to_string(), 42));
            assert_eq!(m.header, build_none_flight_msg());
        }
        other => panic!("Unexpected payload: {other:?}"),
    }

    // first & second chunk
    assert_eq!(flight_data[1], Frame::Schema(batch1.schema.clone()));
    assert_eq!(flight_data[2], Frame::Batch(batch1.clone()));
    assert_eq!(flight_data[3], Frame::Batch(batch2.clone()));

    // third chunk
    assert_eq!(flight_data[4], Frame::Schema(batch3.schema.clone()));
    assert_eq!(flight_data[5], Frame::Batch(batch3.clone()));

    // forth chunk
    assert_eq!(flight_data[6], Frame::Schema(batch4.schema.clone()));
    assert_eq!(flight_data[7], Frame::Batch(batch4.clone()));
}

#[test]
fn groups_are_the_longest_runs() {
    let a = float_int_batch(&[1.0], &[1]);
    let b = int_batch(&[2]);
    assert!(group_by_schema(vec![]).is_empty());

    let one = group_by_schema(vec![a.clone()]);
    assert_eq!(one.len(), 1);
    assert_eq!(one[0].schema, a.schema);
    assert_eq!(one[0].batches, vec![a.clone()]);

    let groups = group_by_schema(vec![a.clone(), a.clone(), b.clone(), b.clone(), b.clone(), a.clone()]);
    assert_eq!(groups.len(), 3);
    assert_eq!(groups[0].batches.len(), 2);
    assert_eq!(groups[0].schema, a.schema);
    assert_eq!(groups[1].batches.len(), 3);
    assert_eq!(groups[1].schema, b.schema);
    assert_eq!(groups[2].batches, vec![a.clone()]);

    let alternating = group_by_schema(vec![a.clone(), b.clone(), a.clone(), b.clone()]);
    assert_eq!(alternating.len(), 4);
}

#[test]
fn partition_without_batches_is_its_metadata_frame() {
    let frames = encode_partition_response(PartitionResponse::new(vec![], 7, 0), "id");
    assert_eq!(frames.len(), 1);
    assert!(matches!(frames[0], Frame::Metadata(_)));
}

#[test]
fn response_frames_follow_the_partitions() {
    let a = float_int_batch(&[1.0], &[1]);
    let b = int_batch(&[2]);
    let frames = encode_response(
        vec![
            PartitionResponse::new(vec![a.clone()], 1, 10),
            PartitionResponse::new(vec![], 2, 20),
            PartitionResponse::new(vec![b.clone(), a.clone()], 3, 30),
        ],
        "me",
    );
    assert_eq!(frames.len(), 3 + 1 + 5);
    let ids: Vec<u64> = frames
        .iter()
        .filter_map(|f| match f {
            Frame::Metadata(m) => Some(decode_with_prost(&m.app_metadata).0),
            _ => None,
        })
        .collect();
    assert_eq!(ids, vec![1, 2, 3]);
    assert_eq!(frames[1], Frame::Schema(a.schema.clone()));
    assert_eq!(frames[2], Frame::Batch(a.clone()));
    assert!(matches!(frames[3], Frame::Metadata(_)));
    assert!(matches!(frames[4], Frame::Metadata(_)));
    assert_eq!(frames[5], Frame::Schema(b.schema.clone()));
    assert_eq!(frames[6], Frame::Batch(b));
    assert_eq!(frames[7], Frame::Schema(a.schema.clone()));
    assert_eq!(frames[8], Frame::Batch(a));
    assert!(encode_response(vec![], "me").is_empty());
}

#[test]
fn metadata_bytes_of_a_partition() {
    let frame = encode_partition(2, 42, "ab");
    assert_eq!(frame.app_metadata, vec![0x38, 0x02, 0x4a, 0x02, b'a', b'b', 0x50, 0x2a]);
    // Fields that are 0 or empty are left out.
    assert_eq!(encode_partition(0, 0, "").app_metadata, Vec::<u8>::new());
    assert_eq!(encode_partition(0, 1, "").app_metadata, vec![0x50, 0x01]);
    assert_eq!(encode_partition(300, 0, "").app_metadata, vec![0x38, 0xac, 0x02]);
    assert_eq!(
        decode_with_prost(&encode_partition(u64::MAX, 1 << 40, "né").app_metadata),
        (u64::MAX, "né".to_string(), 1 << 40)
    );
}

#[test]
fn none_message_is_a_message_without_header() {
    let bytes = build_none_flight_msg();
    let message = arrow::ipc::root_as_message(&bytes).expect("a message of the stream format");
    assert_eq!(message.version(), arrow::ipc::MetadataVersion::V5);
    assert_eq!(message.header_type(), arrow::ipc::MessageHeader::NONE);
    assert_eq!(message.bodyLength(), 0);
    assert!(message.header_as_schema().is_none());
    assert_eq!(encode_partition(1, 1, "x").header, bytes);
}

#[test]
fn partition_response_accessors() {
    let a = int_batch(&[1]);
    let p = PartitionResponse::new(vec![a.clone()], 9, 4);
    assert_eq!(p.id(), 9);
    assert_eq!(p.completed_persistence_count(), 4);
    assert_eq!(p.into_record_batches(), vec![a]);
}

fn metadata(partition_id: u64, ingester_uuid: &str, completed_persistence_count: u64) -> ResponseMetadata {
    ResponseMetadata {
        partition_id,
        ingester_uuid: ingester_uuid.to_string(),
        completed_persistence_count,
    }
}

#[test]
fn metadata_is_read_back() {
    for (p, id, c) in [
        (0u64, "", 0u64),
        (2, "0b6f2c1e-8a71-4f0e-9d43-5a67c1e2f3a4", 42),
        (u64::MAX, "né", 1 << 40),
        (0, "x", 0),
        (1, "", u64::MAX),
    ] {
        let bytes = encode_metadata(p, id, c);
        assert_eq!(decode_metadata(&bytes), Some(metadata(p, id, c)));
        assert_eq!(decode_with_prost(&bytes), (p, id.to_string(), c));
        assert_eq!(encode_partition(p, c, id).app_metadata, bytes);
    }
}

#[test]
fn metadata_fields_replace_earlier_ones_and_unknown_ones_are_passed_over() {
    // partition 1, identity "a", field 1 as integer, partition 2, identity "bc"
    let bytes = [0x38u8, 1, 0x4a, 1, b'a', 0x08, 5, 0x38, 2, 0x4a, 2, b'b', b'c'];
    assert_eq!(decode_metadata(&bytes), Some(metadata(2, "bc", 0)));
}

#[test]
fn malformed_metadata_is_refused() {
    // The partition as a payload.
    assert_eq!(decode_metadata(&[0x3a, 1, 1]), None);
    // The identity as an integer.
    assert_eq!(decode_metadata(&[0x48, 1]), None);
    // An identity that is not UTF-8.
    assert_eq!(decode_metadata(&[0x4a, 1, 0xff]), None);
    // An identity longer than the bytes.
    assert_eq!(decode_metadata(&[0x4a, 3, b'a']), None);
    // The count cut short.
    assert_eq!(decode_metadata(&[0x50, 0x80]), None);
    // The count as eight bytes.
    assert_eq!(decode_metadata(&[0x51, 0, 0, 0, 0, 0, 0, 0, 0]), None);
    // A key without a value.
    assert_eq!(decode_metadata(&[0x38]), None);
    // An unknown field cut short.
    assert_eq!(decode_metadata(&[0x0a, 4, 1]), None);
}
