//! The tagged binary encoding of the request ticket and of the response
//! metadata: variable-length integers, field keys and length-delimited
//! payloads.

use vstd::prelude::*;
use vstd::slice::slice_subrange;

verus! {

/// `prost::DecodeError`, the error of a read that failed. Nothing is known
/// of what it holds.
#[verifier::external_type_specification]
#[verifier::external_body]
pub struct ExDecodeError(prost::DecodeError);

/// The wire type of a variable-length integer.
pub const WIRE_VARINT: u8 = 0;

/// The wire type of a payload that follows its length.
pub const WIRE_LEN: u8 = 2;

/// The greatest wire type there is.
pub const WIRE_MAX: u8 = 5;

/// The greatest field number there is.
pub const TAG_MAX: u32 = 0x1fff_ffff;

/// The bytes of `value` as a variable-length integer: seven bits a byte,
/// the low ones first, the top bit set on every byte but the last.
pub open spec fn varint_bytes(value: u64) -> Seq<u8>
    decreases value,
{
    if value < 0x80 {
        seq![value as u8]
    } else {
        seq![(value % 0x80 + 0x80) as u8] + varint_bytes(value / 0x80)
    }
}

/// The variable-length integer at the start of `bytes`, read with at most
/// `budget` bytes, and the number of bytes it takes. There is none if the
/// bytes or the budget end before a byte without the top bit, or if the
/// tenth byte is above 1, which would go beyond 64 bits.
pub open spec fn leb128(bytes: Seq<u8>, budget: nat) -> Option<(nat, nat)>
    decreases budget,
{
    if budget == 0 || bytes.len() == 0 {
        None
    } else if bytes[0] < 0x80 {
        if budget == 1 && bytes[0] >= 2 {
            None
        } else {
            Some((bytes[0] as nat, 1))
        }
    } else {
        match leb128(bytes.drop_first(), (budget - 1) as nat) {
            Some((high, n)) => Some((((bytes[0] - 0x80) + 0x80 * high) as nat, n + 1)),
            None => None,
        }
    }
}

/// The variable-length integer at the start of `bytes` and the number of
/// bytes it takes: ten at most.
pub open spec fn varint_decode(bytes: Seq<u8>) -> Option<(nat, nat)> {
    leb128(bytes, 10)
}

/// The least number that does not fit into `budget` bytes that end with
/// the tenth byte of a variable-length integer: 2 for that byte alone.
pub open spec fn varint_limit(budget: nat) -> nat
    decreases budget,
{
    if budget <= 1 {
        2
    } else {
        128 * varint_limit((budget - 1) as nat)
    }
}

/// A variable-length integer that can be read takes between one byte and
/// the budget, and lies within the bytes.
pub proof fn lemma_leb128_bounds(bytes: Seq<u8>, budget: nat)
    requires
        leb128(bytes, budget).is_some(),
    ensures
        1 <= leb128(bytes, budget).unwrap().1 <= budget,
        leb128(bytes, budget).unwrap().1 <= bytes.len(),
    decreases budget,
{
    if bytes[0] >= 0x80 {
        lemma_leb128_bounds(bytes.drop_first(), (budget - 1) as nat);
    }
}

/// Appends `value` as a variable-length integer, by
/// `prost::encoding::encode_varint`: seven bits a byte, low bits first, the
/// top bit set on all bytes but the last.
#[verifier::external_body]
fn put_varint(value: u64, buf: &mut Vec<u8>)
    ensures
        final(buf)@ == old(buf)@ + varint_bytes(value),
{
    prost::encoding::encode_varint(value, buf)
}

/// Reads the variable-length integer at the start of `bytes`, by
/// `prost::encoding::decode_varint`, and returns it with the number of bytes
/// left after it. It fails where the bytes hold no such integer: they end
/// before a byte without the top bit, ten bytes have the top bit set, or the
/// tenth byte is above 1.
#[verifier::external_body]
fn take_varint(bytes: &[u8]) -> (res: Result<(u64, usize), prost::DecodeError>)
    ensures
        match res {
            Ok((value, left)) => left <= bytes@.len() && varint_decode(bytes@) == Some(
                (value as nat, (bytes@.len() - left) as nat),
            ),
            Err(_) => varint_decode(bytes@).is_none(),
        },
{
    let mut buf = bytes;
    let value = prost::encoding::decode_varint(&mut buf)?;
    Ok((value, buf.len()))
}

/// Appends `value` as a variable-length integer.
pub fn write_varint(value: u64, buf: &mut Vec<u8>)
    ensures
        final(buf)@ == old(buf)@ + varint_bytes(value),
{
    put_varint(value, buf)
}

/// Reads the variable-length integer that starts at `pos` and returns it
/// with the place after it, or `None` if there is none.
pub fn read_varint(bytes: &[u8], pos: usize) -> (res: Option<(u64, usize)>)
    requires
        pos <= bytes@.len(),
    ensures
        match res {
            Some((value, next)) => pos < next <= bytes@.len() && varint_decode(bytes@.skip(pos as int))
                == Some((value as nat, (next - pos) as nat)),
            None => varint_decode(bytes@.skip(pos as int)).is_none(),
        },
{
    let tail = slice_subrange(bytes, pos, bytes.len());
    assert(tail@ =~= bytes@.skip(pos as int));
    match take_varint(tail) {
        Ok((value, left)) => {
            proof {
                lemma_leb128_bounds(tail@, 10);
            }
            Some((value, bytes.len() - left))
        },
        Err(_) => None,
    }
}

/// What was written as a variable-length integer is read back, whatever
/// follows it.
pub proof fn lemma_varint_round_trip(value: u64, rest: Seq<u8>)
    ensures
        varint_decode(varint_bytes(value) + rest) == Some((value as nat, varint_bytes(value).len())),
        1 <= varint_bytes(value).len() <= 10,
{
    assert(varint_limit(10) == 0x1_0000_0000_0000_0000) by {
        reveal_with_fuel(varint_limit, 11);
    }
    lemma_leb128_of_varint(value, rest, 10);
    lemma_leb128_bounds(varint_bytes(value) + rest, 10);
}

proof fn lemma_leb128_of_varint(value: u64, rest: Seq<u8>, budget: nat)
    requires
        1 <= budget,
        value < varint_limit(budget),
    ensures
        leb128(varint_bytes(value) + rest, budget) == Some((value as nat, varint_bytes(value).len())),
    decreases budget,
{
    let bytes = varint_bytes(value) + rest;
    if value < 0x80 {
        assert(bytes[0] == value as u8);
    } else {
        assert(budget >= 2);
        let low = (value % 0x80 + 0x80) as u8;
        let high = (value / 0x80) as u64;
        assert(varint_bytes(value) == seq![low] + varint_bytes(high));
        assert(bytes[0] == low);
        assert(bytes.drop_first() =~= varint_bytes(high) + rest);
        lemma_leb128_of_varint(high, rest, (budget - 1) as nat);
    }
}

/// The bytes of the key of a field: its number and its wire type in one
/// variable-length integer.
pub open spec fn key_bytes(tag: u32, wire_type: u8) -> Seq<u8> {
    varint_bytes((tag as u64 * 8 + wire_type as u64) as u64)
}

/// The key at the start of `bytes`: the number of the field, its wire type,
/// and the number of bytes that the key takes. There is none where there is
/// no variable-length integer, or one above 32 bits, with a wire type above
/// 5, or with the field number 0.
pub open spec fn key_decode(bytes: Seq<u8>) -> Option<(u32, u8, nat)> {
    match varint_decode(bytes) {
        Some((key, n)) => if key > u32::MAX || key % 8 > 5 || key / 8 < 1 {
            None
        } else {
            Some(((key / 8) as u32, (key % 8) as u8, n))
        },
        None => None,
    }
}

/// The key of a field that was written is read back, whatever follows it.
pub proof fn lemma_key_round_trip(tag: u32, wire_type: u8, rest: Seq<u8>)
    requires
        1 <= tag <= TAG_MAX,
        wire_type <= WIRE_MAX,
    ensures
        key_decode(key_bytes(tag, wire_type) + rest) == Some((tag, wire_type, key_bytes(tag, wire_type).len())),
        key_bytes(tag, wire_type).len() > 0,
{
    lemma_varint_round_trip((tag as u64 * 8 + wire_type as u64) as u64, rest);
}

/// The payload at the start of `bytes` that follows its length, and the
/// number of bytes that both take. There is none where the length cannot be
/// read or goes beyond the bytes.
pub open spec fn payload_decode(bytes: Seq<u8>) -> Option<(Seq<u8>, nat)> {
    match varint_decode(bytes) {
        Some((len, n)) => if len > bytes.len() - n {
            None
        } else {
            Some((bytes.subrange(n as int, (n + len) as int), n + len))
        },
        None => None,
    }
}

/// The bytes of a field that holds an integer.
pub open spec fn uint64_field(tag: u32, value: u64) -> Seq<u8> {
    key_bytes(tag, WIRE_VARINT) + varint_bytes(value)
}

/// The bytes of a field that holds a payload after its length.
pub open spec fn len_field(tag: u32, payload: Seq<u8>) -> Seq<u8> {
    key_bytes(tag, WIRE_LEN) + varint_bytes(payload.len() as u64) + payload
}

/// The number of bytes that the value of a field takes which the reader
/// does not know, by `prost::encoding::skip_field`; `None` where the bytes
/// hold no value of that wire type.
pub uninterp spec fn skipped_len(wire_type: u8, tag: u32, bytes: Seq<u8>) -> Option<nat>;

/// Skips the value of the field `tag` of wire type `wire_type` at the start
/// of `bytes`, by `prost::encoding::skip_field`, and returns the number of
/// bytes left after it.
#[verifier::external_body]
fn skip_value(wire_type: u8, tag: u32, bytes: &[u8]) -> (res: Result<usize, prost::DecodeError>)
    ensures
        match res {
            Ok(left) => left <= bytes@.len() && skipped_len(wire_type, tag, bytes@) == Some(
                (bytes@.len() - left) as nat,
            ),
            Err(_) => skipped_len(wire_type, tag, bytes@).is_none(),
        },
{
    let mut buf = bytes;
    let wire_type = prost::encoding::WireType::try_from(wire_type as u64)?;
    prost::encoding::skip_field(wire_type, tag, &mut buf, prost::encoding::DecodeContext::default())?;
    Ok(buf.len())
}

/// Appends the key of a field.
pub fn write_key(tag: u32, wire_type: u8, buf: &mut Vec<u8>)
    requires
        1 <= tag <= TAG_MAX,
        wire_type <= WIRE_MAX,
    ensures
        final(buf)@ == old(buf)@ + key_bytes(tag, wire_type),
{
    write_varint(tag as u64 * 8 + wire_type as u64, buf)
}

/// Appends a field that holds an integer.
pub fn write_uint64_field(tag: u32, value: u64, buf: &mut Vec<u8>)
    requires
        1 <= tag <= TAG_MAX,
    ensures
        final(buf)@ == old(buf)@ + uint64_field(tag, value),
{
    write_key(tag, WIRE_VARINT, buf);
    write_varint(value, buf);
    assert(buf@ =~= old(buf)@ + uint64_field(tag, value));
}

/// Appends a field that holds a payload after its length.
pub fn write_len_field(tag: u32, payload: &[u8], buf: &mut Vec<u8>)
    requires
        1 <= tag <= TAG_MAX,
    ensures
        final(buf)@ == old(buf)@ + len_field(tag, payload@),
{
    write_key(tag, WIRE_LEN, buf);
    write_varint(payload.len() as u64, buf);
    let ghost head = buf@;
    let mut i: usize = 0;
    while i < payload.len()
        invariant
            i <= payload@.len(),
            buf@ == head + payload@.take(i as int),
        decreases payload@.len() - i,
    {
        buf.push(payload[i]);
        assert(payload@.take(i + 1) =~= payload@.take(i as int).push(payload@[i as int]));
        assert(buf@ =~= head + payload@.take(i + 1));
        i += 1;
    }
    assert(payload@.take(i as int) =~= payload@);
    assert(buf@ =~= old(buf)@ + len_field(tag, payload@));
}

/// Reads the key that starts at `pos` and returns the number of the field,
/// its wire type and the place after the key, or `None` if there is none.
pub fn read_key(bytes: &[u8], pos: usize) -> (res: Option<(u32, u8, usize)>)
    requires
        pos <= bytes@.len(),
    ensures
        match res {
            Some((tag, wire_type, next)) => pos < next <= bytes@.len() && 1 <= tag <= TAG_MAX && wire_type
                <= WIRE_MAX && key_decode(bytes@.skip(pos as int)) == Some(
                (tag, wire_type, (next - pos) as nat),
            ),
            None => key_decode(bytes@.skip(pos as int)).is_none(),
        },
{
    match read_varint(bytes, pos) {
        Some((key, next)) => {
            if key > u32::MAX as u64 || key % 8 > 5 || key / 8 < 1 {
                None
            } else {
                Some(((key / 8) as u32, (key % 8) as u8, next))
            }
        },
        None => None,
    }
}

/// Reads the payload whose length starts at `pos` and returns the places
/// where the payload starts and ends, or `None` if there is none.
pub fn read_payload(bytes: &[u8], pos: usize) -> (res: Option<(usize, usize)>)
    requires
        pos <= bytes@.len(),
    ensures
        match res {
            Some((start, end)) => pos < start <= end <= bytes@.len() && payload_decode(
                bytes@.skip(pos as int),
            ) == Some((bytes@.subrange(start as int, end as int), (end - pos) as nat)),
            None => payload_decode(bytes@.skip(pos as int)).is_none(),
        },
{
    match read_varint(bytes, pos) {
        Some((len, start)) => {
            if len > (bytes.len() - start) as u64 {
                None
            } else {
                let end = start + len as usize;
                assert(bytes@.skip(pos as int).subrange(start - pos, end - pos) =~= bytes@.subrange(
                    start as int,
                    end as int,
                ));
                Some((start, end))
            }
        },
        None => None,
    }
}

/// Skips the value of a field that the reader does not know, which starts
/// at `pos`, and returns the place after it, or `None` if the bytes hold no
/// value of that wire type.
pub fn read_unknown(bytes: &[u8], pos: usize, wire_type: u8, tag: u32) -> (res: Option<usize>)
    requires
        pos <= bytes@.len(),
    ensures
        match res {
            Some(next) => pos <= next <= bytes@.len() && skipped_len(wire_type, tag, bytes@.skip(pos as int))
                == Some((next - pos) as nat),
            None => skipped_len(wire_type, tag, bytes@.skip(pos as int)).is_none(),
        },
{
    let tail = slice_subrange(bytes, pos, bytes.len());
    assert(tail@ =~= bytes@.skip(pos as int));
    match skip_value(wire_type, tag, tail) {
        Ok(left) => Some(bytes.len() - left),
        Err(_) => None,
    }
}

/// Turns bytes into a string, by `String::from_utf8`: the string that the
/// bytes encode, or nothing if they are not valid UTF-8.
#[verifier::external_body]
fn string_from_utf8(bytes: Vec<u8>) -> (res: Option<String>)
    ensures
        match res {
            Some(s) => vstd::utf8::valid_utf8(bytes@) && s@ == vstd::utf8::decode_utf8(bytes@),
            None => !vstd::utf8::valid_utf8(bytes@),
        },
{
    String::from_utf8(bytes).ok()
}

/// The bytes from `start` to `end`, as a vector.
pub fn copy_range(bytes: &[u8], start: usize, end: usize) -> (out: Vec<u8>)
    requires
        start <= end <= bytes@.len(),
    ensures
        out@ == bytes@.subrange(start as int, end as int),
{
    let mut out: Vec<u8> = Vec::new();
    let mut i: usize = start;
    while i < end
        invariant
            start <= i <= end <= bytes@.len(),
            out@ == bytes@.subrange(start as int, i as int),
        decreases end - i,
    {
        out.push(bytes[i]);
        assert(out@ =~= bytes@.subrange(start as int, i + 1));
        i += 1;
    }
    out
}

/// Reads the bytes from `start` to `end` as a string, or `None` if they are
/// not valid UTF-8.
pub fn read_string(bytes: &[u8], start: usize, end: usize) -> (res: Option<String>)
    requires
        start <= end <= bytes@.len(),
    ensures
        match res {
            Some(s) => vstd::utf8::valid_utf8(bytes@.subrange(start as int, end as int)) && s@
                == vstd::utf8::decode_utf8(bytes@.subrange(start as int, end as int)),
            None => !vstd::utf8::valid_utf8(bytes@.subrange(start as int, end as int)),
        },
{
    string_from_utf8(copy_range(bytes, start, end))
}

} // verus!
