//! The reading half of the engine: a cursor over a byte buffer with one
//! operation per kind of field, and one to step over fields it is not asked
//! to interpret.

use crate::error::WireError;
use crate::tag::{tag_field_number, tag_wire_type, unpack_tag};
use crate::varint::{bytes_from, decode_varint, lemma_parse_varint_len, low_64_bits, parse_varint};
use vstd::prelude::*;
use vstd::slice::{slice_subrange, slice_to_vec};
use vstd::utf8::{decode_utf8, encode_utf8_decode_utf8, valid_utf8};

verus! {

/// The tag at the front of `s`: field number and wire type number, with the
/// number of bytes the tag occupies.
pub open spec fn parse_tag(s: Seq<u8>) -> Result<((u64, u32), nat), WireError> {
    match parse_varint(s) {
        Some((v, n)) => {
            let raw = low_64_bits(v);
            Ok(((tag_field_number(raw), tag_wire_type(raw)), n))
        },
        None => Err(WireError::MalformedTag),
    }
}

/// The varint payload at the front of `s`, with the number of bytes it
/// occupies.
pub open spec fn parse_varint_payload(s: Seq<u8>) -> Result<(u64, nat), WireError> {
    match parse_varint(s) {
        Some((v, n)) => Ok((low_64_bits(v), n)),
        None => Err(WireError::MalformedVarint),
    }
}

/// The length-delimited payload at the front of `s`: the bytes that follow
/// the length prefix, with the size of prefix and payload together. The
/// payload is truncated when the prefix announces more bytes than `s` has
/// left after it.
pub open spec fn parse_length_delimited(s: Seq<u8>) -> Result<(Seq<u8>, nat), WireError> {
    match parse_varint(s) {
        Some((v, n)) => {
            let declared = low_64_bits(v) as nat;
            if declared > s.len() - n {
                Err(WireError::TruncatedPayload)
            } else {
                Ok((s.subrange(n as int, (n + declared) as int), n + declared))
            }
        },
        None => Err(WireError::MalformedVarint),
    }
}

/// The string field at the front of `s`, for a tag that announced
/// `wire_type`: a length-delimited payload that is valid UTF-8.
pub open spec fn parse_string(s: Seq<u8>, wire_type: u32) -> Result<(Seq<char>, nat), WireError> {
    if wire_type != 2 {
        Err(WireError::UnsupportedWireType)
    } else {
        match parse_length_delimited(s) {
            Ok((payload, n)) => if valid_utf8(payload) {
                Ok((decode_utf8(payload), n))
            } else {
                Err(WireError::InvalidUtf8)
            },
            Err(e) => Err(e),
        }
    }
}

/// The signed value in the low 32 bits of `v`, read as two's complement.
pub open spec fn low_32_bits_signed(v: u64) -> i32 {
    let low = v % 0x1_0000_0000;
    if low < 0x8000_0000 {
        low as i32
    } else {
        (low - 0x1_0000_0000) as i32
    }
}

/// The signed 32-bit field at the front of `s`, for a tag that announced
/// `wire_type`: a varint, cut down to its low 32 bits.
pub open spec fn parse_int32(s: Seq<u8>, wire_type: u32) -> Result<(i32, nat), WireError> {
    if wire_type != 0 {
        Err(WireError::UnsupportedWireType)
    } else {
        match parse_varint_payload(s) {
            Ok((v, n)) => Ok((low_32_bits_signed(v), n)),
            Err(e) => Err(e),
        }
    }
}

/// The embedded message at the front of `s`, for a tag that announced
/// `wire_type`: the bytes of a length-delimited payload.
pub open spec fn parse_embedded(s: Seq<u8>, wire_type: u32) -> Result<(Seq<u8>, nat), WireError> {
    if wire_type != 2 {
        Err(WireError::UnsupportedWireType)
    } else {
        parse_length_delimited(s)
    }
}

/// A payload of exactly `width` bytes at the front of `s`.
pub open spec fn parse_fixed(s: Seq<u8>, width: nat) -> Result<nat, WireError> {
    if s.len() < width {
        Err(WireError::TruncatedPayload)
    } else {
        Ok(width)
    }
}

/// The number of bytes the payload at the front of `s` occupies, judged by
/// its wire type alone.
pub open spec fn payload_len(s: Seq<u8>, wire_type: u32) -> Result<nat, WireError> {
    if wire_type == 0 {
        match parse_varint_payload(s) {
            Ok((_, n)) => Ok(n),
            Err(e) => Err(e),
        }
    } else if wire_type == 1 {
        parse_fixed(s, 8)
    } else if wire_type == 2 {
        match parse_length_delimited(s) {
            Ok((_, n)) => Ok(n),
            Err(e) => Err(e),
        }
    } else if wire_type == 5 {
        parse_fixed(s, 4)
    } else {
        Err(WireError::UnsupportedWireType)
    }
}

/// An input buffer and the index of the next byte to read.
#[derive(Debug)]
pub struct Decoder {
    /// Index of the next unread byte.
    pub pos: usize,
    /// The whole input.
    pub encoded: Vec<u8>,
}

impl Decoder {
    /// The bytes not yet read. A cursor past the end leaves none.
    pub open spec fn remaining(self) -> Seq<u8> {
        bytes_from(self.encoded@, self.pos as int)
    }

    /// The cursor stands within the buffer. Every decoder made by `new` is
    /// well formed, and every operation keeps it so.
    pub open spec fn wf(self) -> bool {
        self.pos <= self.encoded@.len()
    }

    /// This decoder is `before` with the cursor moved `n` bytes on, still
    /// within the same buffer.
    pub open spec fn advanced(self, before: Decoder, n: nat) -> bool {
        &&& self.encoded@ == before.encoded@
        &&& self.pos == before.pos + n
        &&& self.wf()
        &&& self.remaining() == before.remaining().skip(n as int)
    }

    /// This decoder is `before`, cursor and buffer.
    pub open spec fn unchanged(self, before: Decoder) -> bool {
        &&& self.encoded@ == before.encoded@
        &&& self.pos == before.pos
    }

    /// A decoder at the start of `encoded`.
    pub fn new(encoded: Vec<u8>) -> (decoder: Decoder)
        ensures
            decoder.pos == 0,
            decoder.encoded@ == encoded@,
            decoder.remaining() == encoded@,
            decoder.wf(),
    {
        let decoder = Decoder { pos: 0, encoded };
        assert(decoder.remaining() =~= decoder.encoded@);
        decoder
    }

    /// Whether any byte is left to read.
    pub fn available(&self) -> (r: bool)
        ensures
            r == (self.pos < self.encoded@.len()),
            r == (self.remaining().len() > 0),
    {
        self.pos < self.encoded.len()
    }

    /// Reads one varint payload.
    pub fn read_varint(&mut self) -> (r: Result<u64, WireError>)
        ensures
            match parse_varint_payload(old(self).remaining()) {
                Ok((v, n)) => r == Ok::<u64, WireError>(v) && n >= 1 && final(self).advanced(
                    *old(self),
                    n,
                ),
                Err(e) => r == Err::<u64, WireError>(e) && final(self).unchanged(*old(self)),
            },
    {
        match decode_varint(self.encoded.as_slice(), self.pos) {
            Ok((value, next)) => {
                proof {
                    lemma_parse_varint_len(self.remaining());
                    assert(self.encoded@.skip(next as int) =~= self.remaining().skip(
                        next - self.pos,
                    ));
                }
                self.pos = next;
                Ok(value)
            },
            Err(_) => Err(WireError::MalformedVarint),
        }
    }

    /// Reads one tag: a field number and a wire type number. The cursor
    /// moves on by at least one byte.
    pub fn read_tag(&mut self) -> (r: Result<(u64, u32), WireError>)
        ensures
            match parse_tag(old(self).remaining()) {
                Ok((tag, n)) => r == Ok::<(u64, u32), WireError>(tag) && n >= 1
                    && final(self).advanced(*old(self), n),
                Err(e) => r == Err::<(u64, u32), WireError>(e) && final(self).unchanged(
                    *old(self),
                ),
            },
    {
        match self.read_varint() {
            Ok(raw) => Ok(unpack_tag(raw)),
            Err(_) => Err(WireError::MalformedTag),
        }
    }

    /// Finds the length-delimited payload at the cursor without moving:
    /// the index of its first byte and the index just past its last.
    fn locate_payload(&self) -> (r: Result<(usize, usize), WireError>)
        ensures
            match parse_length_delimited(self.remaining()) {
                Ok((payload, n)) => r matches Ok((start, end)) && self.pos <= start <= end
                    <= self.encoded@.len() && end == self.pos + n && payload
                    == self.encoded@.subrange(start as int, end as int) && n >= 1,
                Err(e) => r == Err::<(usize, usize), WireError>(e),
            },
    {
        match decode_varint(self.encoded.as_slice(), self.pos) {
            Ok((declared, start)) => {
                proof {
                    lemma_parse_varint_len(self.remaining());
                }
                let left: usize = self.encoded.len() - start;
                if declared > left as u64 {
                    Err(WireError::TruncatedPayload)
                } else {
                    let end: usize = start + declared as usize;
                    assert(self.remaining().subrange(start - self.pos, end - self.pos)
                        =~= self.encoded@.subrange(start as int, end as int));
                    Ok((start, end))
                }
            },
            Err(_) => Err(WireError::MalformedVarint),
        }
    }

    /// Reads one length-delimited payload: a length prefix and exactly that
    /// many bytes, never more than the buffer holds.
    pub fn read_length_delimited(&mut self) -> (r: Result<Vec<u8>, WireError>)
        ensures
            match parse_length_delimited(old(self).remaining()) {
                Ok((payload, n)) => r matches Ok(bytes) && bytes@ == payload && n >= 1
                    && final(self).advanced(*old(self), n),
                Err(e) => r == Err::<Vec<u8>, WireError>(e) && final(self).unchanged(*old(self)),
            },
    {
        match self.locate_payload() {
            Ok((start, end)) => {
                let bytes = slice_to_vec(slice_subrange(self.encoded.as_slice(), start, end));
                proof {
                    assert(self.encoded@.skip(end as int) =~= self.remaining().skip(
                        end - self.pos,
                    ));
                }
                self.pos = end;
                Ok(bytes)
            },
            Err(e) => Err(e),
        }
    }

    /// Reads a string field whose tag announced `wire_type`.
    pub fn read_string(&mut self, wire_type: u32) -> (r: Result<String, WireError>)
        ensures
            match parse_string(old(self).remaining(), wire_type) {
                Ok((text, n)) => r matches Ok(value) && value@ == text && n >= 1
                    && final(self).advanced(*old(self), n),
                Err(e) => r == Err::<String, WireError>(e) && final(self).unchanged(*old(self)),
            },
    {
        if wire_type != 2 {
            return Err(WireError::UnsupportedWireType);
        }
        let start = self.pos;
        match self.read_length_delimited() {
            Ok(bytes) => {
                let ghost payload = bytes@;
                match String::from_utf8(bytes) {
                    Ok(value) => {
                        proof {
                            encode_utf8_decode_utf8(value@);
                        }
                        Ok(value)
                    },
                    Err(_) => {
                        self.pos = start;
                        Err(WireError::InvalidUtf8)
                    },
                }
            },
            Err(e) => Err(e),
        }
    }

    /// Reads a signed 32-bit field whose tag announced `wire_type`, keeping
    /// the low 32 bits of the varint.
    pub fn read_int32(&mut self, wire_type: u32) -> (r: Result<i32, WireError>)
        ensures
            match parse_int32(old(self).remaining(), wire_type) {
                Ok((value, n)) => r == Ok::<i32, WireError>(value) && n >= 1
                    && final(self).advanced(*old(self), n),
                Err(e) => r == Err::<i32, WireError>(e) && final(self).unchanged(*old(self)),
            },
    {
        if wire_type != 0 {
            return Err(WireError::UnsupportedWireType);
        }
        match self.read_varint() {
            Ok(pattern) => {
                let value: i32 = #[verifier::truncate] (pattern as u32 as i32);
                assert(value == low_32_bits_signed(pattern)) by (bit_vector)
                    requires
                        value == pattern as u32 as i32,
                ;
                Ok(value)
            },
            Err(e) => Err(e),
        }
    }

    /// Reads an embedded message field whose tag announced `wire_type` and
    /// hands back a decoder over exactly the bytes of that message.
    pub fn read_embedded(&mut self, wire_type: u32) -> (r: Result<Decoder, WireError>)
        ensures
            match parse_embedded(old(self).remaining(), wire_type) {
                Ok((payload, n)) => r matches Ok(inner) && inner.pos == 0 && inner.encoded@
                    == payload && inner.remaining() == payload && n >= 1 && final(self).advanced(
                    *old(self),
                    n,
                ),
                Err(e) => r matches Err(got) && got == e && final(self).unchanged(*old(self)),
            },
    {
        if wire_type != 2 {
            return Err(WireError::UnsupportedWireType);
        }
        match self.read_length_delimited() {
            Ok(bytes) => Ok(Decoder::new(bytes)),
            Err(e) => Err(e),
        }
    }

    /// Steps over a payload of exactly `width` bytes.
    fn skip_fixed(&mut self, width: usize) -> (r: Result<(), WireError>)
        requires
            width >= 1,
        ensures
            match parse_fixed(old(self).remaining(), width as nat) {
                Ok(n) => r == Ok::<(), WireError>(()) && final(self).advanced(*old(self), n),
                Err(e) => r == Err::<(), WireError>(e) && final(self).unchanged(*old(self)),
            },
    {
        let len = self.encoded.len();
        if self.pos > len || len - self.pos < width {
            Err(WireError::TruncatedPayload)
        } else {
            proof {
                assert(self.encoded@.skip(self.pos + width) =~= self.remaining().skip(
                    width as int,
                ));
            }
            self.pos = self.pos + width;
            Ok(())
        }
    }

    /// Steps over one payload without interpreting it, going by the wire
    /// type its tag announced: a varint, a length-prefixed span, or a fixed
    /// four or eight bytes. Wire type numbers the format leaves undefined are
    /// refused with `UnsupportedWireType`.
    pub fn skip_field(&mut self, wire_type: u32) -> (r: Result<(), WireError>)
        ensures
            match payload_len(old(self).remaining(), wire_type) {
                Ok(n) => r == Ok::<(), WireError>(()) && final(self).advanced(*old(self), n),
                Err(e) => r == Err::<(), WireError>(e) && final(self).unchanged(*old(self)),
            },
    {
        if wire_type == 0 {
            match self.read_varint() {
                Ok(_) => Ok(()),
                Err(e) => Err(e),
            }
        } else if wire_type == 1 {
            self.skip_fixed(8)
        } else if wire_type == 2 {
            match self.locate_payload() {
                Ok((_, end)) => {
                    proof {
                        assert(self.encoded@.skip(end as int) =~= self.remaining().skip(
                            end - self.pos,
                        ));
                    }
                    self.pos = end;
                    Ok(())
                },
                Err(e) => Err(e),
            }
        } else if wire_type == 5 {
            self.skip_fixed(4)
        } else {
            Err(WireError::UnsupportedWireType)
        }
    }
}

} // verus!
