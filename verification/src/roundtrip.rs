//! Laws that tie the two halves together: what the encoder writes, the
//! decoder reads back, and what the decoder reads it reads from the bytes of
//! that field alone.
//!
//! The functions here are proofs. They are stated over the byte-sequence
//! models the encoder's and the decoder's contracts use.

use crate::decoder::{
    low_32_bits_signed, parse_embedded, parse_int32, parse_length_delimited, parse_string,
    parse_tag, parse_varint_payload, payload_len,
};
use crate::encoder::{length_prefixed, sign_extended, tag_bytes};
use crate::error::WireError;
use crate::tag::{tag_round_trip, tag_value};
use crate::varint::{
    lemma_parse_varint_len, lemma_parse_varint_prefix, parse_varint, varint_bytes,
    varint_round_trip,
};
use vstd::utf8::{encode_utf8, encode_utf8_decode_utf8, encode_utf8_valid_utf8};
use crate::tag::MAX_FIELD_NUMBER;
use crate::wire_type::WireType;
use vstd::prelude::*;

verus! {

/// A written tag is read back as the same field number and wire type.
pub proof fn tag_reads_back(field_number: u32, wire_type: WireType, rest: Seq<u8>)
    requires
        field_number <= MAX_FIELD_NUMBER,
    ensures
        parse_tag(tag_bytes(field_number, wire_type) + rest) == Ok::<
            ((u64, u32), nat),
            WireError,
        >(
            (
                (field_number as u64, wire_type.raw_spec()),
                tag_bytes(field_number, wire_type).len(),
            ),
        ),
{
    let raw = tag_value(field_number, wire_type);
    varint_round_trip(raw as nat, rest);
    tag_round_trip(field_number, wire_type);
}

/// A written varint payload is read back as the same value.
pub proof fn varint_payload_reads_back(value: u64, rest: Seq<u8>)
    ensures
        parse_varint_payload(varint_bytes(value as nat) + rest)
            == Ok::<(u64, nat), WireError>(
            (value, varint_bytes(value as nat).len()),
        ),
{
    varint_round_trip(value as nat, rest);
}

/// Cutting a sign-extended value down to its low 32 bits gives the value
/// back.
pub proof fn sign_extension_is_undone(value: i32)
    ensures
        low_32_bits_signed(sign_extended(value)) == value,
{
}

/// A written signed 32-bit payload is read back as the same value.
pub proof fn int32_reads_back(value: i32, rest: Seq<u8>)
    ensures
        parse_int32(
            varint_bytes(sign_extended(value) as nat) + rest,
            0,
        ) == Ok::<(i32, nat), WireError>(
            (value, varint_bytes(sign_extended(value) as nat).len()),
        ),
{
    varint_payload_reads_back(sign_extended(value), rest);
    sign_extension_is_undone(value);
}

/// A written length-delimited payload is read back byte for byte, provided
/// its length fits the 64 bits of a length prefix.
pub proof fn length_delimited_reads_back(payload: Seq<u8>, rest: Seq<u8>)
    requires
        payload.len() <= u64::MAX,
    ensures
        parse_length_delimited(length_prefixed(payload) + rest) == Ok::<
            (Seq<u8>, nat),
            WireError,
        >((payload, length_prefixed(payload).len())),
{
    let prefix = varint_bytes(payload.len());
    let s = length_prefixed(payload) + rest;
    assert(s =~= prefix + (payload + rest));
    varint_round_trip(payload.len(), payload + rest);
    assert(s.subrange(prefix.len() as int, (prefix.len() + payload.len()) as int) =~= payload);
}

/// A written string payload is read back as the same text, provided its
/// length in bytes fits the 64 bits of a length prefix.
pub proof fn string_reads_back(text: Seq<char>, rest: Seq<u8>)
    requires
        encode_utf8(text).len() <= u64::MAX,
    ensures
        parse_string(length_prefixed(encode_utf8(text)) + rest, 2) == Ok::<
            (Seq<char>, nat),
            WireError,
        >((text, length_prefixed(encode_utf8(text)).len())),
{
    let payload = encode_utf8(text);
    length_delimited_reads_back(payload, rest);
    encode_utf8_valid_utf8(text);
    encode_utf8_decode_utf8(text);
}

/// A length prefix that announces more bytes than follow it is refused:
/// the read fails with `TruncatedPayload`, whatever the bytes that do follow.
pub proof fn truncated_payload_is_refused(declared: u64, held: Seq<u8>)
    requires
        held.len() < declared,
    ensures
        parse_length_delimited(
            varint_bytes(declared as nat) + held,
        ) == Err::<(Seq<u8>, nat), WireError>(WireError::TruncatedPayload),
{
    varint_round_trip(declared as nat, held);
}

/// A tag is read from its own bytes alone.
pub proof fn lemma_parse_tag_prefix(s: Seq<u8>, rest: Seq<u8>)
    ensures
        parse_tag(s) is Ok ==> parse_tag(s + rest)
            == parse_tag(s),
{
    lemma_parse_varint_prefix(s, rest);
}

/// A varint payload is read from its own bytes alone.
pub proof fn lemma_parse_varint_payload_prefix(s: Seq<u8>, rest: Seq<u8>)
    ensures
        parse_varint_payload(s) is Ok ==> parse_varint_payload(
            s + rest,
        ) == parse_varint_payload(s),
{
    lemma_parse_varint_prefix(s, rest);
}

/// A length-delimited payload is read from its own bytes alone.
pub proof fn lemma_parse_length_delimited_prefix(s: Seq<u8>, rest: Seq<u8>)
    ensures
        parse_length_delimited(s) is Ok
            ==> parse_length_delimited(s + rest)
            == parse_length_delimited(s),
{
    lemma_parse_varint_prefix(s, rest);
    lemma_parse_varint_len(s);
    match parse_length_delimited(s) {
        Ok((payload, n)) => {
            let k = parse_varint(s).unwrap().1;
            assert((s + rest).subrange(k as int, n as int) =~= s.subrange(k as int, n as int));
        },
        Err(_) => {},
    }
}

/// A string field is read from its own bytes alone.
pub proof fn lemma_parse_string_prefix(s: Seq<u8>, wire_type: u32, rest: Seq<u8>)
    ensures
        parse_string(s, wire_type) is Ok ==> parse_string(
            s + rest,
            wire_type,
        ) == parse_string(s, wire_type),
{
    lemma_parse_length_delimited_prefix(s, rest);
}

/// A signed 32-bit field is read from its own bytes alone.
pub proof fn lemma_parse_int32_prefix(s: Seq<u8>, wire_type: u32, rest: Seq<u8>)
    ensures
        parse_int32(s, wire_type) is Ok ==> parse_int32(
            s + rest,
            wire_type,
        ) == parse_int32(s, wire_type),
{
    lemma_parse_varint_payload_prefix(s, rest);
}

/// An embedded message is read from its own bytes alone.
pub proof fn lemma_parse_embedded_prefix(s: Seq<u8>, wire_type: u32, rest: Seq<u8>)
    ensures
        parse_embedded(s, wire_type) is Ok ==> parse_embedded(
            s + rest,
            wire_type,
        ) == parse_embedded(s, wire_type),
{
    lemma_parse_length_delimited_prefix(s, rest);
}

/// A payload is stepped over by its own bytes alone.
pub proof fn lemma_payload_len_prefix(s: Seq<u8>, wire_type: u32, rest: Seq<u8>)
    ensures
        payload_len(s, wire_type) is Ok ==> payload_len(
            s + rest,
            wire_type,
        ) == payload_len(s, wire_type),
{
    lemma_parse_varint_payload_prefix(s, rest);
    lemma_parse_length_delimited_prefix(s, rest);
}

/// No read runs past the end: whatever is parsed occupies at least one byte
/// where a varint is involved, and never more bytes than there are.
pub proof fn lemma_reads_stay_in_bounds(s: Seq<u8>, wire_type: u32)
    ensures
        parse_tag(s) matches Ok((_, n)) ==> 1 <= n <= s.len(),
        parse_varint_payload(s) matches Ok((_, n)) ==> 1 <= n <= s.len(),
        parse_length_delimited(s) matches Ok((_, n)) ==> 1 <= n <= s.len(),
        parse_string(s, wire_type) matches Ok((_, n)) ==> 1 <= n <= s.len(),
        parse_int32(s, wire_type) matches Ok((_, n)) ==> 1 <= n <= s.len(),
        parse_embedded(s, wire_type) matches Ok((_, n)) ==> 1 <= n <= s.len(),
        payload_len(s, wire_type) matches Ok(n) ==> 1 <= n <= s.len(),
{
    lemma_parse_varint_len(s);
}

} // verus!
