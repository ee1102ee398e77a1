//! The protocol between a message type and the engine.
//!
//! A message type says how its fields are written and how one field is read;
//! the engine owns the buffers, runs the decode loop, and steps over every
//! field the type does not know.

use crate::decoder::{parse_embedded, parse_tag, payload_len, Decoder};
use crate::encoder::{length_delimited_bytes, Encoder};
use crate::error::WireError;
use crate::roundtrip::{lemma_parse_embedded_prefix, lemma_reads_stay_in_bounds};
use crate::tag::MAX_FIELD_NUMBER;
use crate::varint::{bytes_from, lemma_parse_varint_len};
use vstd::prelude::*;

verus! {

/// What a type provides to travel in the wire format.
///
/// The contract is stated over `Model`, the mathematical value of a message:
/// `encoding` gives the bytes of a value, `merge_field` the value after one
/// more field has been read into it.
pub trait Message: Sized {
    /// The mathematical value a message stands for.
    type Model;

    /// The value this message stands for.
    spec fn model(&self) -> Self::Model;

    /// The value whose every field is at its default.
    spec fn default_model() -> Self::Model;

    /// The bytes of a value: its fields in field-number order, defaults
    /// left out.
    spec fn encoding(m: Self::Model) -> Seq<u8>;

    /// Whether the type has a field of this number.
    spec fn knows(field_number: u64) -> bool;

    /// The value after a known field has been read into `m`, with the number
    /// of payload bytes read. `rest` starts just behind the field's tag.
    spec fn merge_field(m: Self::Model, field_number: u64, wire_type: u32, rest: Seq<u8>) -> Result<
        (Self::Model, nat),
        WireError,
    >;

    /// A field is read from its own payload: bytes behind it change nothing.
    proof fn merge_field_is_local(
        m: Self::Model,
        field_number: u64,
        wire_type: u32,
        s: Seq<u8>,
        rest: Seq<u8>,
    )
        requires
            Self::knows(field_number),
            Self::merge_field(m, field_number, wire_type, s) is Ok,
        ensures
            Self::merge_field(m, field_number, wire_type, s + rest) == Self::merge_field(
                m,
                field_number,
                wire_type,
                s,
            ),
    ;

    /// A field's payload lies within the bytes it is read from.
    proof fn merge_field_in_bounds(m: Self::Model, field_number: u64, wire_type: u32, s: Seq<u8>)
        requires
            Self::knows(field_number),
        ensures
            Self::merge_field(m, field_number, wire_type, s) matches Ok((_, n)) ==> n <= s.len(),
    ;

    /// A message with every field at its default.
    fn default_value() -> (message: Self)
        ensures
            message.model() == Self::default_model(),
    ;

    /// Writes the fields of this message to `encoder`.
    fn encode_inner(&self, encoder: &mut Encoder)
        ensures
            final(encoder).encoded@ == old(encoder).encoded@ + Self::encoding(self.model()),
    ;

    /// Reads the payload of one field into this message, if the type knows
    /// the field number, and says whether it did. An unknown field is left
    /// unread, for the engine to step over. A field that cannot be read
    /// leaves the message as it was.
    fn decode_field(&mut self, field_number: u64, wire_type: u32, decoder: &mut Decoder) -> (r:
        Result<bool, WireError>)
        ensures
            final(decoder).encoded@ == old(decoder).encoded@,
            final(decoder).pos >= old(decoder).pos,
            old(decoder).wf() ==> final(decoder).wf(),
            !Self::knows(field_number) ==> r == Ok::<bool, WireError>(false) && final(self).model()
                == old(self).model() && final(decoder).unchanged(*old(decoder)),
            Self::knows(field_number) ==> match Self::merge_field(
                old(self).model(),
                field_number,
                wire_type,
                old(decoder).remaining(),
            ) {
                Ok((m, n)) => r == Ok::<bool, WireError>(true) && final(self).model() == m
                    && final(decoder).advanced(*old(decoder), n),
                Err(e) => r == Err::<bool, WireError>(e) && final(self).model()
                    == old(self).model(),
            },
    ;
}

/// One step of the decode loop behind a tag: a known field is merged, an
/// unknown one is stepped over by its wire type and changes nothing.
pub open spec fn merge_step<M: Message>(
    m: M::Model,
    field_number: u64,
    wire_type: u32,
    rest: Seq<u8>,
) -> Result<(M::Model, nat), WireError> {
    if M::knows(field_number) {
        M::merge_field(m, field_number, wire_type, rest)
    } else {
        match payload_len(rest, wire_type) {
            Ok(n) => Ok((m, n)),
            Err(e) => Err(e),
        }
    }
}

/// The decode loop: the value after every record of `bytes` has been read
/// into `m`, in order, and how the loop ended. After a failure the value is
/// what the records before the failing one made of it.
pub open spec fn merge_records<M: Message>(m: M::Model, bytes: Seq<u8>) -> (
    M::Model,
    Result<(), WireError>,
)
    decreases bytes.len(),
{
    if bytes.len() == 0 {
        (m, Ok(()))
    } else {
        match parse_tag(bytes) {
            Ok(((field_number, wire_type), k)) => {
                match merge_step::<M>(m, field_number, wire_type, bytes_from(bytes, k as int)) {
                    Ok((next, n)) => {
                        proof {
                            lemma_parse_varint_len(bytes);
                        }
                        merge_records::<M>(next, bytes_from(bytes, (k + n) as int))
                    },
                    Err(e) => (m, Err(e)),
                }
            },
            Err(e) => (m, Err(e)),
        }
    }
}

/// What decoding `bytes` from scratch gives: every record merged into the
/// default value, or the first failure.
pub open spec fn decoded<M: Message>(bytes: Seq<u8>) -> Result<M::Model, WireError> {
    match merge_records::<M>(M::default_model(), bytes).1 {
        Ok(_) => Ok(merge_records::<M>(M::default_model(), bytes).0),
        Err(e) => Err(e),
    }
}

/// Reads every record left in `decoder` into `message`: fields the type
/// knows are merged, all others are stepped over.
///
/// On failure the message keeps what the records before the failing one
/// made of it; nothing is rolled back.
pub fn decode_inner<M: Message>(message: &mut M, decoder: &mut Decoder) -> (r: Result<
    (),
    WireError,
>)
    ensures
        final(message).model() == merge_records::<M>(
            old(message).model(),
            old(decoder).remaining(),
        ).0,
        r == merge_records::<M>(old(message).model(), old(decoder).remaining()).1,
        final(decoder).encoded@ == old(decoder).encoded@,
        final(decoder).pos >= old(decoder).pos,
        old(decoder).wf() ==> final(decoder).wf(),
        r is Ok ==> final(decoder).remaining().len() == 0,
{
    while decoder.available()
        invariant
            merge_records::<M>(message.model(), decoder.remaining()) == merge_records::<M>(
                old(message).model(),
                old(decoder).remaining(),
            ),
            decoder.encoded@ == old(decoder).encoded@,
            decoder.pos >= old(decoder).pos,
            old(decoder).wf() ==> decoder.wf(),
        decreases decoder.encoded@.len() - decoder.pos,
    {
        let ghost before = decoder.remaining();
        let ghost m0 = message.model();
        let (field_number, wire_type) = match decoder.read_tag() {
            Ok(tag) => tag,
            Err(e) => {
                return Err(e);
            },
        };
        let ghost k = parse_tag(before).unwrap().1;
        let ghost behind_tag = decoder.remaining();
        assert(behind_tag =~= bytes_from(before, k as int));
        match message.decode_field(field_number, wire_type, decoder) {
            Ok(true) => {},
            Ok(false) => {
                match decoder.skip_field(wire_type) {
                    Ok(()) => {},
                    Err(e) => {
                        return Err(e);
                    },
                }
            },
            Err(e) => {
                return Err(e);
            },
        }
        proof {
            let n = merge_step::<M>(m0, field_number, wire_type, behind_tag).unwrap().1;
            assert(decoder.remaining() =~= bytes_from(before, (k + n) as int));
        }
    }
    Ok(())
}

/// Encodes `message` into a fresh buffer.
pub fn encode<M: Message>(message: &M) -> (bytes: Vec<u8>)
    ensures
        bytes@ == M::encoding(message.model()),
{
    let mut encoder = Encoder::new();
    message.encode_inner(&mut encoder);
    assert(encoder.encoded@ =~= M::encoding(message.model()));
    encoder.encoded
}

/// Decodes `bytes` into a message that starts out with every field at its
/// default: succeeds with the merged value when every record can be read,
/// and fails with the first record's error otherwise.
pub fn decode<M: Message>(bytes: Vec<u8>) -> (r: Result<M, WireError>)
    ensures
        match decoded::<M>(bytes@) {
            Ok(m) => r matches Ok(message) && message.model() == m,
            Err(e) => r matches Err(got) && got == e,
        },
{
    let mut decoder = Decoder::new(bytes);
    let mut message = M::default_value();
    match decode_inner(&mut message, &mut decoder) {
        Ok(()) => Ok(message),
        Err(e) => Err(e),
    }
}

/// The records of a repeated message field: one length-delimited record per
/// element, in order, each holding that element's own encoding.
pub open spec fn repeated_bytes<M: Message>(field_number: u32, items: Seq<M::Model>) -> Seq<u8>
    decreases items.len(),
{
    if items.len() == 0 {
        Seq::empty()
    } else {
        repeated_bytes::<M>(field_number, items.drop_last()) + length_delimited_bytes(
            field_number,
            M::encoding(items.last()),
        )
    }
}

/// The embedded message at the front of `s`, for a tag that announced
/// `wire_type`: a length-delimited payload, decoded on its own from the
/// default value.
pub open spec fn parse_message<M: Message>(s: Seq<u8>, wire_type: u32) -> Result<
    (M::Model, nat),
    WireError,
> {
    match parse_embedded(s, wire_type) {
        Ok((payload, n)) => match decoded::<M>(payload) {
            Ok(m) => Ok((m, n)),
            Err(e) => Err(e),
        },
        Err(e) => Err(e),
    }
}

/// Writes `message` as one length-delimited field: the message is encoded
/// into a buffer of its own, which then becomes the payload. The record is
/// written even when the message encodes to no bytes at all.
pub fn write_message<M: Message>(encoder: &mut Encoder, field_number: u32, message: &M) -> (r:
    Result<(), WireError>)
    ensures
        final(encoder).wrote(
            *old(encoder),
            field_number,
            length_delimited_bytes(field_number, M::encoding(message.model())),
            r,
        ),
{
    let payload = encode(message);
    encoder.write_length_delimited(field_number, payload.as_slice())
}

/// Reads an embedded message field whose tag announced `wire_type`: the
/// payload is decoded by a decoder of its own, bounded to exactly the bytes
/// the length prefix announced.
pub fn read_message<M: Message>(decoder: &mut Decoder, wire_type: u32) -> (r: Result<M, WireError>)
    ensures
        final(decoder).encoded@ == old(decoder).encoded@,
        final(decoder).pos >= old(decoder).pos,
        old(decoder).wf() ==> final(decoder).wf(),
        match parse_message::<M>(old(decoder).remaining(), wire_type) {
            Ok((m, n)) => r matches Ok(message) && message.model() == m && final(decoder).advanced(
                *old(decoder),
                n,
            ),
            Err(e) => r matches Err(got) && got == e,
        },
{
    let mut inner = match decoder.read_embedded(wire_type) {
        Ok(inner) => inner,
        Err(e) => {
            return Err(e);
        },
    };
    let mut message = M::default_value();
    match decode_inner(&mut message, &mut inner) {
        Ok(()) => Ok(message),
        Err(e) => Err(e),
    }
}

/// The values a sequence of messages stands for, element by element.
pub open spec fn models_of<M: Message>(items: Seq<M>) -> Seq<M::Model> {
    items.map_values(|item: M| item.model())
}

/// Writes a repeated message field: one length-delimited record per element
/// of `items`, in order. No element leaves no bytes behind.
pub fn write_repeated<M: Message>(encoder: &mut Encoder, field_number: u32, items: &Vec<M>) -> (r:
    Result<(), WireError>)
    ensures
        final(encoder).wrote(
            *old(encoder),
            field_number,
            repeated_bytes::<M>(field_number, models_of::<M>(items@)),
            r,
        ),
{
    if field_number > MAX_FIELD_NUMBER {
        return Err(WireError::FieldNumberOverflow);
    }
    let mut i: usize = 0;
    assert(encoder.encoded@ =~= old(encoder).encoded@ + repeated_bytes::<M>(
        field_number,
        models_of::<M>(items@).take(0),
    ));
    while i < items.len()
        invariant
            i <= items.len(),
            field_number <= MAX_FIELD_NUMBER,
            encoder.encoded@ == old(encoder).encoded@ + repeated_bytes::<M>(
                field_number,
                models_of::<M>(items@).take(i as int),
            ),
        decreases items.len() - i,
    {
        let ghost written = models_of::<M>(items@).take(i as int);
        let ghost next = models_of::<M>(items@).take(i + 1);
        let _ = write_message(encoder, field_number, &items[i]);
        proof {
            assert(next.drop_last() =~= written);
            assert(next.last() == items@[i as int].model());
            assert(encoder.encoded@ =~= old(encoder).encoded@ + repeated_bytes::<M>(
                field_number,
                next,
            ));
        }
        i = i + 1;
    }
    assert(models_of::<M>(items@).take(i as int) =~= models_of::<M>(items@));
    Ok(())
}

/// An embedded message is read from its own bytes alone, and they lie
/// within the bytes it is read from.
pub proof fn lemma_parse_message_prefix<M: Message>(s: Seq<u8>, wire_type: u32, rest: Seq<u8>)
    ensures
        parse_message::<M>(s, wire_type) is Ok ==> parse_message::<M>(s + rest, wire_type)
            == parse_message::<M>(s, wire_type),
        parse_message::<M>(s, wire_type) matches Ok((_, n)) ==> 1 <= n <= s.len(),
{
    lemma_parse_embedded_prefix(s, wire_type, rest);
    lemma_reads_stay_in_bounds(s, wire_type);
}

} // verus!
