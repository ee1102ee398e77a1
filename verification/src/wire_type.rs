//! The three-bit payload kinds a tag can announce.

use vstd::prelude::*;

verus! {

/// How the payload that follows a tag is laid out.
///
/// The engine writes and reads `Varint` and `LengthDelimited` payloads; the
/// two fixed-width kinds are known so that fields carrying them can be
/// stepped over.
#[derive(Clone, Copy, Debug, PartialEq, Eq, Structural)]
pub enum WireType {
    /// One varint.
    Varint,
    /// Eight bytes.
    Bits64,
    /// A varint length followed by that many bytes.
    LengthDelimited,
    /// Four bytes.
    Bits32,
}

impl WireType {
    /// The number that stands for this wire type in the low bits of a tag.
    pub open spec fn raw_spec(self) -> u32 {
        match self {
            WireType::Varint => 0,
            WireType::Bits64 => 1,
            WireType::LengthDelimited => 2,
            WireType::Bits32 => 5,
        }
    }

    /// The wire type a tag's low bits stand for, if the format defines one.
    pub open spec fn from_raw_spec(raw: u32) -> Option<WireType> {
        if raw == 0 {
            Some(WireType::Varint)
        } else if raw == 1 {
            Some(WireType::Bits64)
        } else if raw == 2 {
            Some(WireType::LengthDelimited)
        } else if raw == 5 {
            Some(WireType::Bits32)
        } else {
            None
        }
    }

    /// The number that stands for this wire type in the low bits of a tag.
    #[verifier::when_used_as_spec(raw_spec)]
    pub fn raw(self) -> (r: u32)
        ensures
            r == self.raw_spec(),
            r < 8,
    {
        match self {
            WireType::Varint => 0,
            WireType::Bits64 => 1,
            WireType::LengthDelimited => 2,
            WireType::Bits32 => 5,
        }
    }

    /// Names the wire type that `raw` stands for; `None` for the values the
    /// format leaves undefined.
    pub fn from_raw(raw: u32) -> (r: Option<WireType>)
        ensures
            r == WireType::from_raw_spec(raw),
    {
        if raw == 0 {
            Some(WireType::Varint)
        } else if raw == 1 {
            Some(WireType::Bits64)
        } else if raw == 2 {
            Some(WireType::LengthDelimited)
        } else if raw == 5 {
            Some(WireType::Bits32)
        } else {
            None
        }
    }

    /// Going to the raw number and back names the same wire type, and a raw
    /// number that names a wire type is that wire type's number.
    pub proof fn raw_round_trip(self, raw: u32)
        ensures
            WireType::from_raw_spec(self.raw_spec()) == Some(self),
            WireType::from_raw_spec(raw) == Some(self) ==> self.raw_spec() == raw,
    {
    }
}

} // verus!
