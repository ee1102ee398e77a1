//! Laws of the decode loop: how it moves through a stream of records, and
//! why a field the message does not know leaves no trace.
//!
//! The functions here are proofs, stated over `merge_records`, the model of
//! the loop that `decode_inner` runs.

use crate::decoder::{parse_tag, payload_len};
use crate::encoder::{
    int32_bytes, length_delimited_bytes, length_prefixed, sign_extended, string_bytes,
};
use crate::error::WireError;
use crate::message::{decoded, merge_records, merge_step, parse_message, repeated_bytes, Message};
use crate::roundtrip::{
    length_delimited_reads_back, lemma_parse_tag_prefix, lemma_payload_len_prefix,
    lemma_reads_stay_in_bounds,
};
use crate::tag::{tag_field_number, tag_round_trip, tag_value, tag_wire_type, MAX_FIELD_NUMBER};
use crate::wire_type::WireType;
use vstd::utf8::encode_utf8;
use crate::varint::{bytes_from, varint_bytes, varint_len_bounds, varint_round_trip};
use vstd::prelude::*;

verus! {

/// One step of the loop is decided by the bytes of one record: what
/// follows them changes nothing, and the payload lies within them.
pub proof fn lemma_merge_step_prefix<M: Message>(
    m: M::Model,
    field_number: u64,
    wire_type: u32,
    s: Seq<u8>,
    rest: Seq<u8>,
)
    ensures
        merge_step::<M>(m, field_number, wire_type, s) is Ok ==> merge_step::<M>(
            m,
            field_number,
            wire_type,
            s + rest,
        ) == merge_step::<M>(m, field_number, wire_type, s),
        merge_step::<M>(m, field_number, wire_type, s) matches Ok((_, n)) ==> n <= s.len(),
{
    if M::knows(field_number) {
        M::merge_field_in_bounds(m, field_number, wire_type, s);
        if M::merge_field(m, field_number, wire_type, s) is Ok {
            M::merge_field_is_local(m, field_number, wire_type, s, rest);
        }
    } else {
        lemma_payload_len_prefix(s, wire_type, rest);
        lemma_reads_stay_in_bounds(s, wire_type);
    }
}

/// The loop passes over one record: where a stream opens with the tag
/// `tag`, and the step behind that tag reads exactly `body` and turns `m`
/// into `next`, decoding the stream from `m` is decoding what follows the
/// record from `next`.
pub proof fn lemma_record_step<M: Message>(
    m: M::Model,
    tag: u64,
    body: Seq<u8>,
    next: M::Model,
    rest: Seq<u8>,
)
    requires
        merge_step::<M>(m, tag_field_number(tag), tag_wire_type(tag), body + rest) == Ok::<
            (M::Model, nat),
            WireError,
        >((next, body.len())),
    ensures
        merge_records::<M>(m, varint_bytes(tag as nat) + body + rest) == merge_records::<M>(
            next,
            rest,
        ),
{
    let head = varint_bytes(tag as nat);
    let bytes = head + body + rest;
    varint_len_bounds(tag as nat);
    assert(bytes =~= head + (body + rest));
    varint_round_trip(tag as nat, body + rest);
    assert(bytes_from(bytes, head.len() as int) =~= body + rest);
    assert(bytes_from(bytes, (head.len() + body.len()) as int) =~= rest);
}

/// The loop decodes a stream piece by piece: where the records of `first`
/// can all be read, decoding `first` followed by `second` is decoding
/// `second` from the value that `first` left.
pub proof fn lemma_merge_records_concat<M: Message>(m: M::Model, first: Seq<u8>, second: Seq<u8>)
    requires
        merge_records::<M>(m, first).1 is Ok,
    ensures
        merge_records::<M>(m, first + second) == merge_records::<M>(
            merge_records::<M>(m, first).0,
            second,
        ),
    decreases first.len(),
{
    if first.len() == 0 {
        assert(first + second =~= second);
    } else {
        let ((field_number, wire_type), k) = parse_tag(first).unwrap();
        let behind_tag = bytes_from(first, k as int);
        let (next, n) = merge_step::<M>(m, field_number, wire_type, behind_tag).unwrap();
        lemma_parse_tag_prefix(first, second);
        lemma_reads_stay_in_bounds(first, wire_type);
        lemma_merge_step_prefix::<M>(m, field_number, wire_type, behind_tag, second);
        assert(bytes_from(first + second, k as int) =~= behind_tag + second);
        assert(bytes_from(first + second, (k + n) as int) =~= bytes_from(first, (k + n) as int)
            + second);
        lemma_merge_records_concat::<M>(next, bytes_from(first, (k + n) as int), second);
    }
}

/// A field the message does not know is stepped over: a stream that opens
/// with such a field, its payload well formed for the wire type its tag
/// announces, decodes to what the stream without it decodes to. The field
/// number may be any the tag can carry, however large.
pub proof fn unknown_field_is_ignored<M: Message>(
    m: M::Model,
    tag: u64,
    body: Seq<u8>,
    rest: Seq<u8>,
)
    requires
        !M::knows(tag_field_number(tag)),
        payload_len(body, tag_wire_type(tag)) == Ok::<nat, WireError>(body.len()),
    ensures
        merge_records::<M>(m, varint_bytes(tag as nat) + body + rest) == merge_records::<M>(
            m,
            rest,
        ),
{
    lemma_payload_len_prefix(body, tag_wire_type(tag), rest);
    lemma_record_step::<M>(m, tag, body, m, rest);
}

/// Forward compatibility: a field the message does not know, put before,
/// between or after the records of a stream, changes neither the decoded
/// value nor the outcome. `before` is any run of records that can all be
/// read, `after` any bytes at all; the unknown field's payload is well
/// formed for the wire type its tag announces.
pub proof fn injected_unknown_field_changes_nothing<M: Message>(
    m: M::Model,
    before: Seq<u8>,
    tag: u64,
    body: Seq<u8>,
    after: Seq<u8>,
)
    requires
        merge_records::<M>(m, before).1 is Ok,
        !M::knows(tag_field_number(tag)),
        payload_len(body, tag_wire_type(tag)) == Ok::<nat, WireError>(body.len()),
    ensures
        merge_records::<M>(m, before + (varint_bytes(tag as nat) + body) + after)
            == merge_records::<M>(m, before + after),
{
    let record = varint_bytes(tag as nat) + body;
    let reached = merge_records::<M>(m, before).0;
    assert(before + record + after =~= before + (record + after));
    lemma_merge_records_concat::<M>(m, before, record + after);
    lemma_merge_records_concat::<M>(m, before, after);
    unknown_field_is_ignored::<M>(reached, tag, body, after);
}

/// The loop reads a written string field: where the step behind the tag
/// turns `m` into `next` when it meets the text, and an empty text, which
/// leaves no record, finds `next` in `m` already.
pub proof fn lemma_string_field_is_read<M: Message>(
    m: M::Model,
    field_number: u32,
    text: Seq<char>,
    next: M::Model,
    rest: Seq<u8>,
)
    requires
        field_number <= MAX_FIELD_NUMBER,
        text.len() == 0 ==> next == m,
        text.len() > 0 ==> merge_step::<M>(
            m,
            field_number as u64,
            2,
            length_prefixed(encode_utf8(text)) + rest,
        ) == Ok::<(M::Model, nat), WireError>((next, length_prefixed(encode_utf8(text)).len())),
    ensures
        merge_records::<M>(m, string_bytes(field_number, text) + rest) == merge_records::<M>(
            next,
            rest,
        ),
{
    if text.len() == 0 {
        assert(string_bytes(field_number, text) + rest =~= rest);
    } else {
        let tag = tag_value(field_number, WireType::LengthDelimited);
        tag_round_trip(field_number, WireType::LengthDelimited);
        lemma_record_step::<M>(m, tag, length_prefixed(encode_utf8(text)), next, rest);
    }
}

/// The loop reads a written signed 32-bit field: where the step behind the
/// tag turns `m` into `next` when it meets the value, and a zero, which
/// leaves no record, finds `next` in `m` already.
pub proof fn lemma_int32_field_is_read<M: Message>(
    m: M::Model,
    field_number: u32,
    value: i32,
    next: M::Model,
    rest: Seq<u8>,
)
    requires
        field_number <= MAX_FIELD_NUMBER,
        value == 0 ==> next == m,
        value != 0 ==> merge_step::<M>(
            m,
            field_number as u64,
            0,
            varint_bytes(sign_extended(value) as nat) + rest,
        ) == Ok::<(M::Model, nat), WireError>(
            (next, varint_bytes(sign_extended(value) as nat).len()),
        ),
    ensures
        merge_records::<M>(m, int32_bytes(field_number, value) + rest) == merge_records::<M>(
            next,
            rest,
        ),
{
    if value == 0 {
        assert(int32_bytes(field_number, value) + rest =~= rest);
    } else {
        let tag = tag_value(field_number, WireType::Varint);
        tag_round_trip(field_number, WireType::Varint);
        lemma_record_step::<M>(m, tag, varint_bytes(sign_extended(value) as nat), next, rest);
    }
}

/// The loop reads a written length-delimited field: where the step behind
/// the tag turns `m` into `next` when it meets the payload.
pub proof fn lemma_length_delimited_field_is_read<M: Message>(
    m: M::Model,
    field_number: u32,
    payload: Seq<u8>,
    next: M::Model,
    rest: Seq<u8>,
)
    requires
        field_number <= MAX_FIELD_NUMBER,
        merge_step::<M>(m, field_number as u64, 2, length_prefixed(payload) + rest) == Ok::<
            (M::Model, nat),
            WireError,
        >((next, length_prefixed(payload).len())),
    ensures
        merge_records::<M>(m, length_delimited_bytes(field_number, payload) + rest)
            == merge_records::<M>(next, rest),
{
    let tag = tag_value(field_number, WireType::LengthDelimited);
    tag_round_trip(field_number, WireType::LengthDelimited);
    lemma_record_step::<M>(m, tag, length_prefixed(payload), next, rest);
}

/// A written embedded message is read back as whatever its own bytes
/// decode to, provided they fit the 64 bits of a length prefix.
pub proof fn message_reads_back<M: Message>(m: M::Model, rest: Seq<u8>)
    requires
        M::encoding(m).len() <= u64::MAX,
    ensures
        parse_message::<M>(length_prefixed(M::encoding(m)) + rest, 2) == match decoded::<M>(
            M::encoding(m),
        ) {
            Ok(read) => Ok::<(M::Model, nat), WireError>(
                (read, length_prefixed(M::encoding(m)).len()),
            ),
            Err(e) => Err::<(M::Model, nat), WireError>(e),
        },
{
    length_delimited_reads_back(M::encoding(m), rest);
}

/// The records of a repeated field are at least as long as any part of
/// them: the records of the elements before the last, and the encoding of
/// the last element.
pub proof fn lemma_repeated_bytes_len<M: Message>(field_number: u32, items: Seq<M::Model>)
    requires
        items.len() > 0,
    ensures
        repeated_bytes::<M>(field_number, items.drop_last()).len() <= repeated_bytes::<M>(
            field_number,
            items,
        ).len(),
        M::encoding(items.last()).len() <= repeated_bytes::<M>(field_number, items).len(),
{
}

/// A stream without records decodes to the default: a field that fills no
/// bytes comes back at its default value.
pub proof fn empty_stream_decodes_to_default<M: Message>()
    ensures
        decoded::<M>(Seq::<u8>::empty()) == Ok::<M::Model, WireError>(M::default_model()),
{
}

} // verus!
