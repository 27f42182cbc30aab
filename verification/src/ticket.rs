//! The ticket of a query request: which table of which namespace to read,
//! which columns, and a filter that is carried but not applied.

use vstd::prelude::*;
use vstd::utf8::{decode_utf8, encode_utf8, encode_utf8_decode_utf8, encode_utf8_valid_utf8, valid_utf8};
use crate::error::Error;
use crate::wire::{
    copy_range, key_bytes, key_decode, lemma_key_round_trip, lemma_varint_round_trip, len_field,
    payload_decode, read_key, read_payload, read_string, read_unknown, read_varint, skipped_len,
    uint64_field, varint_bytes, varint_decode, write_len_field, write_uint64_field, WIRE_LEN, WIRE_VARINT,
};

verus! {

/// The number of the field that names a column to return.
pub const TAG_COLUMNS: u32 = 2;

/// The number of the field that holds the filter.
pub const TAG_PREDICATE: u32 = 3;

/// The number of the field that holds the namespace.
pub const TAG_NAMESPACE_ID: u32 = 6;

/// The number of the field that holds the table.
pub const TAG_TABLE_ID: u32 = 7;

/// A query request.
#[derive(Clone, Debug, PartialEq, Eq)]
pub struct QueryRequest {
    pub namespace_id: u64,
    pub table_id: u64,
    /// The columns to return, in the order asked for: all of them if none
    /// is named.
    pub columns: Vec<String>,
    /// The filter of the request, as it came. It is not applied here.
    pub predicate: Option<Vec<u8>>,
}

/// What a query request holds.
pub struct RequestView {
    pub namespace_id: u64,
    pub table_id: u64,
    pub columns: Seq<Seq<char>>,
    pub predicate: Option<Seq<u8>>,
}

/// The names of a list of columns.
pub open spec fn names_view(columns: Seq<String>) -> Seq<Seq<char>> {
    Seq::new(columns.len(), |i: int| columns[i]@)
}

/// The bytes of a filter that may be absent.
pub open spec fn predicate_view(predicate: Option<Vec<u8>>) -> Option<Seq<u8>> {
    match predicate {
        Some(p) => Some(p@),
        None => None,
    }
}

impl View for QueryRequest {
    type V = RequestView;

    open spec fn view(&self) -> RequestView {
        RequestView {
            namespace_id: self.namespace_id,
            table_id: self.table_id,
            columns: names_view(self.columns@),
            predicate: predicate_view(self.predicate),
        }
    }
}

/// One field of a ticket.
pub enum FieldView {
    NamespaceId(u64),
    TableId(u64),
    Column(Seq<char>),
    Predicate(Seq<u8>),
    /// A field that a query request does not have. It is passed over.
    Unknown,
}

/// The request without any field: namespace and table 0, all columns, no
/// filter.
pub open spec fn empty_request() -> RequestView {
    RequestView { namespace_id: 0, table_id: 0, columns: Seq::empty(), predicate: None }
}

/// The field at the start of `bytes` and the number of bytes it takes, or
/// `None` if the bytes do not start with a well-formed field: the key cannot
/// be read, a field of a query request has another wire type than it
/// should, its value cannot be read, or a column name is not valid UTF-8.
pub open spec fn next_field(bytes: Seq<u8>) -> Option<(FieldView, nat)> {
    match key_decode(bytes) {
        None => None,
        Some((tag, wire_type, n)) => {
            let rest = bytes.skip(n as int);
            if tag == TAG_NAMESPACE_ID || tag == TAG_TABLE_ID {
                match varint_decode(rest) {
                    Some((value, m)) if wire_type == WIRE_VARINT => Some(
                        (
                            if tag == TAG_NAMESPACE_ID {
                                FieldView::NamespaceId(value as u64)
                            } else {
                                FieldView::TableId(value as u64)
                            },
                            n + m,
                        ),
                    ),
                    _ => None,
                }
            } else if tag == TAG_COLUMNS {
                match payload_decode(rest) {
                    Some((payload, m)) if wire_type == WIRE_LEN && valid_utf8(payload) => Some(
                        (FieldView::Column(decode_utf8(payload)), n + m),
                    ),
                    _ => None,
                }
            } else if tag == TAG_PREDICATE {
                match payload_decode(rest) {
                    Some((payload, m)) if wire_type == WIRE_LEN => Some((FieldView::Predicate(payload), n + m)),
                    _ => None,
                }
            } else {
                match skipped_len(wire_type, tag, rest) {
                    Some(m) => Some((FieldView::Unknown, n + m)),
                    None => None,
                }
            }
        },
    }
}

/// The request `r` after the field `f` was read: an integer replaces the
/// one read before, a column is added to the columns, and the bytes of a
/// filter are added to the filter read so far.
pub open spec fn with_field(r: RequestView, f: FieldView) -> RequestView {
    match f {
        FieldView::NamespaceId(id) => RequestView { namespace_id: id, ..r },
        FieldView::TableId(id) => RequestView { table_id: id, ..r },
        FieldView::Column(name) => RequestView { columns: r.columns.push(name), ..r },
        FieldView::Predicate(p) => RequestView {
            predicate: Some(
                match r.predicate {
                    Some(before) => before + p,
                    None => p,
                },
            ),
            ..r
        },
        FieldView::Unknown => r,
    }
}

/// The request `r` after all fields of `bytes` were read, or `None` if the
/// bytes are not well-formed fields from start to end.
pub open spec fn decode_fields(bytes: Seq<u8>, r: RequestView) -> Option<RequestView>
    decreases bytes.len(),
{
    if bytes.len() == 0 {
        Some(r)
    } else {
        match next_field(bytes) {
            Some((f, n)) => if 0 < n <= bytes.len() {
                decode_fields(bytes.skip(n as int), with_field(r, f))
            } else {
                None
            },
            None => None,
        }
    }
}

/// The request that a ticket holds, or `None` if the ticket is malformed.
pub open spec fn ticket_request(ticket: Seq<u8>) -> Option<RequestView> {
    decode_fields(ticket, empty_request())
}

/// Reads a ticket. A malformed ticket is refused as invalid.
pub fn decode_ticket(ticket: &[u8]) -> (res: Result<QueryRequest, Error>)
    ensures
        match res {
            Ok(request) => ticket_request(ticket@) == Some(request@),
            Err(e) => e == Error::InvalidTicket && ticket_request(ticket@).is_none(),
        },
{
    let mut namespace_id: u64 = 0;
    let mut table_id: u64 = 0;
    let mut columns: Vec<String> = Vec::new();
    let mut predicate: Option<Vec<u8>> = None;
    let mut pos: usize = 0;
    assert(names_view(columns@) =~= Seq::<Seq<char>>::empty());
    assert(ticket@.skip(0) =~= ticket@);
    while pos < ticket.len()
        invariant
            pos <= ticket@.len(),
            ticket_request(ticket@) == decode_fields(
                ticket@.skip(pos as int),
                RequestView {
                    namespace_id,
                    table_id,
                    columns: names_view(columns@),
                    predicate: predicate_view(predicate),
                },
            ),
        decreases ticket@.len() - pos,
    {
        let ghost here = ticket@.skip(pos as int);
        let ghost before = RequestView {
            namespace_id,
            table_id,
            columns: names_view(columns@),
            predicate: predicate_view(predicate),
        };
        let (tag, wire_type, value_at) = match read_key(ticket, pos) {
            Some(key) => key,
            None => {
                return Err(Error::InvalidTicket);
            },
        };
        assert(here.skip(value_at - pos) =~= ticket@.skip(value_at as int));
        let next: usize;
        if tag == TAG_NAMESPACE_ID || tag == TAG_TABLE_ID {
            if wire_type != WIRE_VARINT {
                return Err(Error::InvalidTicket);
            }
            match read_varint(ticket, value_at) {
                Some((value, after)) => {
                    if tag == TAG_NAMESPACE_ID {
                        namespace_id = value;
                    } else {
                        table_id = value;
                    }
                    next = after;
                },
                None => {
                    return Err(Error::InvalidTicket);
                },
            }
        } else if tag == TAG_COLUMNS {
            if wire_type != WIRE_LEN {
                return Err(Error::InvalidTicket);
            }
            match read_payload(ticket, value_at) {
                Some((start, end)) => {
                    match read_string(ticket, start, end) {
                        Some(name) => {
                            let ghost names = names_view(columns@);
                            columns.push(name);
                            assert(names_view(columns@) =~= names.push(name@));
                        },
                        None => {
                            return Err(Error::InvalidTicket);
                        },
                    }
                    next = end;
                },
                None => {
                    return Err(Error::InvalidTicket);
                },
            }
        } else if tag == TAG_PREDICATE {
            if wire_type != WIRE_LEN {
                return Err(Error::InvalidTicket);
            }
            match read_payload(ticket, value_at) {
                Some((start, end)) => {
                    let mut payload = copy_range(ticket, start, end);
                    predicate = match predicate {
                        Some(mut so_far) => {
                            so_far.append(&mut payload);
                            Some(so_far)
                        },
                        None => Some(payload),
                    };
                    next = end;
                },
                None => {
                    return Err(Error::InvalidTicket);
                },
            }
        } else {
            match read_unknown(ticket, value_at, wire_type, tag) {
                Some(after) => {
                    next = after;
                },
                None => {
                    return Err(Error::InvalidTicket);
                },
            }
        }
        proof {
            let f = next_field(here).unwrap().0;
            assert(next_field(here).unwrap().1 == next - pos);
            assert(here.skip(next - pos) =~= ticket@.skip(next as int));
            assert(with_field(before, f) == RequestView {
                namespace_id,
                table_id,
                columns: names_view(columns@),
                predicate: predicate_view(predicate),
            });
        }
        pos = next;
    }
    Ok(QueryRequest { namespace_id, table_id, columns, predicate })
}

/// The bytes of the fields that name the columns, in their order.
pub open spec fn columns_bytes(columns: Seq<Seq<char>>) -> Seq<u8>
    decreases columns.len(),
{
    if columns.len() == 0 {
        Seq::empty()
    } else {
        columns_bytes(columns.drop_last()) + len_field(TAG_COLUMNS, encode_utf8(columns.last()))
    }
}

/// The ticket of a request: its fields in the order of their numbers, an
/// integer left out where it is 0 and the filter where there is none.
pub open spec fn request_bytes(r: RequestView) -> Seq<u8> {
    columns_bytes(r.columns) + (match r.predicate {
        Some(p) => len_field(TAG_PREDICATE, p),
        None => Seq::empty(),
    }) + (if r.namespace_id != 0 {
        uint64_field(TAG_NAMESPACE_ID, r.namespace_id)
    } else {
        Seq::empty()
    }) + (if r.table_id != 0 {
        uint64_field(TAG_TABLE_ID, r.table_id)
    } else {
        Seq::empty()
    })
}

/// Writes the ticket of a request.
pub fn encode_ticket(request: &QueryRequest) -> (ticket: Vec<u8>)
    ensures
        ticket@ == request_bytes(request@),
{
    let mut ticket: Vec<u8> = Vec::new();
    let mut i: usize = 0;
    assert(names_view(request.columns@).take(0) =~= Seq::<Seq<char>>::empty());
    while i < request.columns.len()
        invariant
            i <= request.columns.len(),
            ticket@ == columns_bytes(names_view(request.columns@).take(i as int)),
        decreases request.columns.len() - i,
    {
        proof {
            let names = names_view(request.columns@);
            assert(names.take(i + 1).drop_last() =~= names.take(i as int));
            assert(names.take(i + 1).last() == request.columns[i as int]@);
        }
        write_len_field(TAG_COLUMNS, request.columns[i].as_str().as_bytes(), &mut ticket);
        i += 1;
    }
    assert(names_view(request.columns@).take(i as int) =~= names_view(request.columns@));
    match &request.predicate {
        Some(p) => {
            write_len_field(TAG_PREDICATE, p.as_slice(), &mut ticket);
        },
        None => {},
    }
    if request.namespace_id != 0 {
        write_uint64_field(TAG_NAMESPACE_ID, request.namespace_id, &mut ticket);
    }
    if request.table_id != 0 {
        write_uint64_field(TAG_TABLE_ID, request.table_id, &mut ticket);
    }
    assert(ticket@ =~= request_bytes(request@));
    ticket
}

/// A field that holds an integer is read back as what was written.
proof fn lemma_next_uint64_field(tag: u32, value: u64, rest: Seq<u8>)
    requires
        tag == TAG_NAMESPACE_ID || tag == TAG_TABLE_ID,
    ensures
        uint64_field(tag, value).len() > 0,
        next_field(uint64_field(tag, value) + rest) == Some(
            (
                if tag == TAG_NAMESPACE_ID {
                    FieldView::NamespaceId(value)
                } else {
                    FieldView::TableId(value)
                },
                uint64_field(tag, value).len(),
            ),
        ),
{
    let bytes = uint64_field(tag, value) + rest;
    let key = key_bytes(tag, WIRE_VARINT);
    assert(bytes =~= key + (varint_bytes(value) + rest));
    lemma_key_round_trip(tag, WIRE_VARINT, varint_bytes(value) + rest);
    assert(bytes.skip(key.len() as int) =~= varint_bytes(value) + rest);
    lemma_varint_round_trip(value, rest);
}

/// A field that holds a payload is read back as what was written.
proof fn lemma_next_len_field(tag: u32, payload: Seq<u8>, rest: Seq<u8>)
    requires
        tag == TAG_COLUMNS || tag == TAG_PREDICATE,
        payload.len() <= u64::MAX,
        tag == TAG_COLUMNS ==> valid_utf8(payload),
    ensures
        len_field(tag, payload).len() > 0,
        next_field(len_field(tag, payload) + rest) == Some(
            (
                if tag == TAG_COLUMNS {
                    FieldView::Column(decode_utf8(payload))
                } else {
                    FieldView::Predicate(payload)
                },
                len_field(tag, payload).len(),
            ),
        ),
{
    let bytes = len_field(tag, payload) + rest;
    let key = key_bytes(tag, WIRE_LEN);
    let len = varint_bytes(payload.len() as u64);
    assert(bytes =~= key + (len + payload + rest));
    lemma_key_round_trip(tag, WIRE_LEN, len + payload + rest);
    let value = bytes.skip(key.len() as int);
    assert(value =~= len + (payload + rest));
    lemma_varint_round_trip(payload.len() as u64, payload + rest);
    assert(value.subrange(len.len() as int, (len.len() + payload.len()) as int) =~= payload);
}

/// Reading the bytes of one field and then `rest` is reading `rest` with
/// the field taken in.
proof fn lemma_decode_one(field: Seq<u8>, f: FieldView, rest: Seq<u8>, r: RequestView)
    requires
        field.len() > 0,
        next_field(field + rest) == Some((f, field.len())),
    ensures
        decode_fields(field + rest, r) == decode_fields(rest, with_field(r, f)),
{
    assert((field + rest).skip(field.len() as int) =~= rest);
}

/// Reading the fields of some columns and then `rest` is reading `rest`
/// with the columns added.
proof fn lemma_decode_columns(columns: Seq<Seq<char>>, rest: Seq<u8>, r: RequestView)
    requires
        forall|i: int| 0 <= i < columns.len() ==> encode_utf8(#[trigger] columns[i]).len() <= u64::MAX,
    ensures
        decode_fields(columns_bytes(columns) + rest, r) == decode_fields(
            rest,
            RequestView { columns: r.columns + columns, ..r },
        ),
    decreases columns.len(),
{
    if columns.len() == 0 {
        assert(columns_bytes(columns) + rest =~= rest);
        assert(r.columns + columns =~= r.columns);
    } else {
        let head = columns.drop_last();
        let payload = encode_utf8(columns.last());
        let field = len_field(TAG_COLUMNS, payload);
        assert(columns_bytes(columns) + rest =~= columns_bytes(head) + (field + rest));
        assert forall|i: int| 0 <= i < head.len() implies encode_utf8(#[trigger] head[i]).len()
            <= u64::MAX by {
            assert(head[i] == columns[i]);
        }
        lemma_decode_columns(head, field + rest, r);
        let mid = RequestView { columns: r.columns + head, ..r };
        encode_utf8_valid_utf8(columns.last());
        encode_utf8_decode_utf8(columns.last());
        lemma_next_len_field(TAG_COLUMNS, payload, rest);
        lemma_decode_one(field, FieldView::Column(columns.last()), rest, mid);
        assert((r.columns + head).push(columns.last()) =~= r.columns + columns);
    }
}

/// A ticket that was written is read back as the request it was written
/// from.
pub proof fn law_ticket_round_trip(r: RequestView)
    requires
        forall|i: int| 0 <= i < r.columns.len() ==> encode_utf8(#[trigger] r.columns[i]).len() <= u64::MAX,
        r.predicate.is_some() ==> r.predicate.unwrap().len() <= u64::MAX,
    ensures
        ticket_request(request_bytes(r)) == Some(r),
{
    let predicate: Seq<u8> = match r.predicate {
        Some(p) => len_field(TAG_PREDICATE, p),
        None => Seq::empty(),
    };
    let namespace: Seq<u8> = if r.namespace_id != 0 {
        uint64_field(TAG_NAMESPACE_ID, r.namespace_id)
    } else {
        Seq::empty()
    };
    let table: Seq<u8> = if r.table_id != 0 {
        uint64_field(TAG_TABLE_ID, r.table_id)
    } else {
        Seq::empty()
    };
    let none = Seq::<u8>::empty();
    assert(request_bytes(r) =~= columns_bytes(r.columns) + (predicate + (namespace + (table + none))));
    lemma_decode_columns(r.columns, predicate + (namespace + (table + none)), empty_request());
    let r1 = RequestView { columns: empty_request().columns + r.columns, ..empty_request() };
    assert(r1.columns =~= r.columns);
    let r2 = RequestView { predicate: r.predicate, ..r1 };
    match r.predicate {
        Some(p) => {
            lemma_next_len_field(TAG_PREDICATE, p, namespace + (table + none));
            lemma_decode_one(predicate, FieldView::Predicate(p), namespace + (table + none), r1);
        },
        None => {
            assert(predicate + (namespace + (table + none)) =~= namespace + (table + none));
        },
    }
    assert(decode_fields(predicate + (namespace + (table + none)), r1) == decode_fields(
        namespace + (table + none),
        r2,
    ));
    let r3 = RequestView { namespace_id: r.namespace_id, ..r2 };
    if r.namespace_id != 0 {
        lemma_next_uint64_field(TAG_NAMESPACE_ID, r.namespace_id, table + none);
        lemma_decode_one(namespace, FieldView::NamespaceId(r.namespace_id), table + none, r2);
    } else {
        assert(namespace + (table + none) =~= table + none);
    }
    assert(decode_fields(namespace + (table + none), r2) == decode_fields(table + none, r3));
    if r.table_id != 0 {
        lemma_next_uint64_field(TAG_TABLE_ID, r.table_id, none);
        lemma_decode_one(table, FieldView::TableId(r.table_id), none, r3);
    } else {
        assert(table + none =~= none);
    }
    assert(decode_fields(table + none, r3) == Some(r));
}

} // verus!
