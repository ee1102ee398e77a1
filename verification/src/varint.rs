//! Base-128 varints: the integer encoding behind tags, lengths and values.

use crate::error::WireError;
use vstd::prelude::*;

verus! {

/// The canonical encoding of `v`: seven bits per byte, least significant
/// group first, the high bit set on every byte but the last.
pub open spec fn varint_bytes(v: nat) -> Seq<u8>
    decreases v,
{
    if v < 128 {
        seq![v as u8]
    } else {
        seq![(v % 128 + 128) as u8] + varint_bytes(v / 128)
    }
}

/// What a reader finds at the front of `s`: the value the seven-bit groups
/// add up to, before any truncation, and the number of bytes they occupy.
/// `None` when `s` ends before a byte with the high bit clear.
pub open spec fn parse_varint(s: Seq<u8>) -> Option<(nat, nat)>
    decreases s.len(),
{
    if s.len() == 0 {
        None
    } else if s[0] < 128 {
        Some((s[0] as nat, 1))
    } else {
        match parse_varint(s.drop_first()) {
            Some((v, n)) => Some(((s[0] - 128) as nat + 128 * v, n + 1)),
            None => None,
        }
    }
}

/// Appends the canonical encoding of `value` to `out`.
pub fn append_varint(out: &mut Vec<u8>, value: u64)
    ensures
        final(out)@ == old(out)@ + varint_bytes(value as nat),
{
    let mut rest: u64 = value;
    while rest >= 128
        invariant
            out@ + varint_bytes(rest as nat) == old(out)@ + varint_bytes(value as nat),
        decreases rest,
    {
        let low: u8 = (rest % 128) as u8;
        proof {
            assert(varint_bytes(rest as nat) == seq![(rest % 128 + 128) as u8] + varint_bytes(
                (rest / 128) as nat,
            ));
            assert(out@.push((low + 128) as u8) + varint_bytes((rest / 128) as nat) =~= out@
                + varint_bytes(rest as nat));
        }
        out.push(low + 128);
        rest = rest / 128;
    }
    proof {
        assert(out@.push(rest as u8) =~= out@ + varint_bytes(rest as nat));
    }
    out.push(rest as u8);
}

/// Encodes `value` in the fewest bytes that hold it: one to ten.
pub fn encode_varint(value: u64) -> (bytes: Vec<u8>)
    ensures
        bytes@ == varint_bytes(value as nat),
        1 <= bytes@.len() <= 10,
{
    let mut bytes: Vec<u8> = Vec::new();
    append_varint(&mut bytes, value);
    proof {
        assert(bytes@ =~= varint_bytes(value as nat));
        varint_len_bounds(value as nat);
    }
    bytes
}

/// The low 64 bits of `v`: what is left of a varint's value once the groups
/// beyond the tenth byte have fallen off the end of a `u64`.
pub open spec fn low_64_bits(v: nat) -> u64 {
    (v % 0x1_0000_0000_0000_0000) as u64
}

/// The bytes of `s` from index `pos` on; nothing when `pos` lies past the end.
pub open spec fn bytes_from(s: Seq<u8>, pos: int) -> Seq<u8> {
    if 0 <= pos <= s.len() {
        s.skip(pos)
    } else {
        Seq::empty()
    }
}

/// A varint occupies at least one byte and never more than `s` holds.
pub proof fn lemma_parse_varint_len(s: Seq<u8>)
    ensures
        parse_varint(s) matches Some((_, n)) ==> 1 <= n <= s.len(),
    decreases s.len(),
{
    if s.len() > 0 && s[0] >= 128 {
        lemma_parse_varint_len(s.drop_first());
    }
}

proof fn lemma_parse_step(s: Seq<u8>, i: int)
    requires
        0 <= i < s.len(),
    ensures
        s.skip(i).len() > 0,
        s.skip(i)[0] == s[i],
        s.skip(i).drop_first() == s.skip(i + 1),
{
    assert(s.skip(i).drop_first() =~= s.skip(i + 1));
}

proof fn lemma_or_is_add(value: u64, p: u64, shift: u64)
    requires
        shift < 64,
        p < 128,
        value < (1u64 << shift),
    ensures
        (value | (p << shift)) == (value + p * (1u64 << shift)) % 0x1_0000_0000_0000_0000,
{
    assert(shift < 64 && p < 128 && value < (1u64 << shift) ==> (value | (p << shift)) == (value + p
        * (1u64 << shift)) % 0x1_0000_0000_0000_0000) by (bit_vector);
}

proof fn lemma_next_scale(shift: u64)
    requires
        shift <= 63,
        shift % 7 == 0,
    ensures
        shift <= 56 ==> (1u64 << ((shift + 7) as u64)) == 128 * (1u64 << shift),
        shift == 63 ==> (128 * (1u64 << shift)) % 0x1_0000_0000_0000_0000 == 0,
        (1u64 << shift) >= 1,
{
    assert(shift <= 56 ==> (1u64 << ((shift + 7) as u64)) == 128 * (1u64 << shift))
        by (bit_vector);
    assert(shift == 63 ==> (128 * (1u64 << shift)) % 0x1_0000_0000_0000_0000 == 0)
        by (bit_vector);
    assert(shift <= 63 ==> (1u64 << shift) >= 1) by (bit_vector);
}

proof fn lemma_group_vanishes(acc: nat, scale: nat, p: nat)
    requires
        scale % 0x1_0000_0000_0000_0000 == 0,
    ensures
        (acc + scale * p) % 0x1_0000_0000_0000_0000 == acc % 0x1_0000_0000_0000_0000,
        (scale * 128) % 0x1_0000_0000_0000_0000 == 0,
{
    let m = 0x1_0000_0000_0000_0000int;
    let q = scale as int / m;
    assert(scale == q * m);
    assert(scale * p == (q * p) * m) by (nonlinear_arith)
        requires
            scale == q * m,
    ;
    vstd::arithmetic::div_mod::lemma_mod_multiples_vanish(q * p, acc as int, m);
    assert(scale * 128 == (q * 128) * m) by (nonlinear_arith)
        requires
            scale == q * m,
    ;
    vstd::arithmetic::div_mod::lemma_mod_multiples_vanish(q * 128, 0, m);
}

/// Reads one varint from `bytes`, starting at index `pos`.
///
/// Succeeds with the value and the index just past its last byte whenever a
/// byte with the high bit clear is found at or after `pos`; the value keeps
/// the low 64 bits of the sum of the seven-bit groups. Fails with
/// `UnexpectedEof` exactly when the buffer ends first.
pub fn decode_varint(bytes: &[u8], pos: usize) -> (r: Result<(u64, usize), WireError>)
    ensures
        match parse_varint(bytes_from(bytes@, pos as int)) {
            Some((v, n)) => r matches Ok((value, next)) && value == low_64_bits(v) && next == pos
                + n && next <= bytes@.len(),
            None => r == Err::<(u64, usize), WireError>(WireError::UnexpectedEof),
        },
{
    let len = bytes.len();
    if pos >= len {
        return Err(WireError::UnexpectedEof);
    }
    let ghost whole = bytes@.skip(pos as int);
    let mut i: usize = pos;
    let mut value: u64 = 0;
    let mut shift: u32 = 0;
    let ghost mut acc: nat = 0;
    let ghost mut scale: nat = 1;
    proof {
        assert(1u64 << 0u64 == 1) by (bit_vector);
    }
    while i < len
        invariant
            pos <= i <= len,
            len == bytes@.len(),
            whole == bytes@.skip(pos as int),
            shift <= 70,
            shift % 7 == 0,
            shift < 64 ==> scale == (1u64 << (shift as u64)) && acc < scale,
            shift >= 64 ==> scale % 0x1_0000_0000_0000_0000 == 0,
            value == low_64_bits(acc),
            parse_varint(whole) == match parse_varint(bytes@.skip(i as int)) {
                Some((v, k)) => Some((acc + scale * v, (k + (i - pos)) as nat)),
                None => None,
            },
        decreases len - i,
    {
        let byte: u8 = bytes[i];
        let group: u8 = byte % 128;
        let ghost tail = parse_varint(bytes@.skip(i + 1));
        proof {
            lemma_parse_step(bytes@, i as int);
            if shift < 64 {
                lemma_or_is_add(value, group as u64, shift as u64);
                lemma_next_scale(shift as u64);
            } else {
                lemma_group_vanishes(acc, scale, group as nat);
            }
        }
        if shift < 64 {
            value = value | ((group as u64) << shift);
        }
        assert(value == low_64_bits(acc + scale * (group as nat)));
        if byte < 128 {
            assert(parse_varint(whole) == Some(
                (acc + scale * (group as nat), (1 + (i - pos)) as nat),
            ));
            return Ok((value, i + 1));
        }
        proof {
            match tail {
                Some((v, k)) => {
                    assert(acc + scale * (group as nat + 128 * v) == (acc + scale * (group as nat))
                        + (scale * 128) * v) by (nonlinear_arith);
                },
                None => {},
            }
            if shift < 64 {
                assert(acc + scale * (group as nat) < scale * 128) by (nonlinear_arith)
                    requires
                        acc < scale,
                        group < 128,
                ;
            }
            acc = acc + scale * (group as nat);
            scale = scale * 128;
        }
        if shift < 64 {
            shift = shift + 7;
        }
        i = i + 1;
    }
    Err(WireError::UnexpectedEof)
}

/// Decoding undoes encoding: a reader that meets the canonical bytes of `v`,
/// whatever follows them, finds `v` and consumes exactly those bytes. For a
/// value that fits 64 bits nothing is lost to truncation.
pub proof fn varint_round_trip(v: nat, rest: Seq<u8>)
    ensures
        parse_varint(varint_bytes(v) + rest) == Some((v, varint_bytes(v).len())),
        v <= u64::MAX ==> low_64_bits(v) == v,
    decreases v,
{
    let bytes = varint_bytes(v);
    if v >= 128 {
        varint_round_trip(v / 128, rest);
        assert((bytes + rest).drop_first() =~= varint_bytes(v / 128) + rest);
    }
}

/// Decoding an encoded value gives the value back: read from their first
/// byte, the bytes `encode_varint` returns for `value` make `decode_varint`
/// return `value` and the index just past them.
pub proof fn decode_undoes_encode(value: u64)
    ensures
        parse_varint(bytes_from(varint_bytes(value as nat), 0)) == Some(
            (value as nat, varint_bytes(value as nat).len()),
        ),
        low_64_bits(value as nat) == value,
{
    let bytes = varint_bytes(value as nat);
    varint_round_trip(value as nat, Seq::empty());
    assert(bytes + Seq::<u8>::empty() =~= bytes);
    assert(bytes_from(bytes, 0) =~= bytes);
}

/// A larger value never has a shorter canonical encoding.
pub proof fn lemma_varint_len_monotonic(a: nat, b: nat)
    requires
        a <= b,
    ensures
        varint_bytes(a).len() <= varint_bytes(b).len(),
    decreases b,
{
    if a >= 128 {
        lemma_varint_len_monotonic(a / 128, b / 128);
    }
}

/// The canonical encoding takes at least one byte, and at most ten for a
/// value that fits 64 bits.
pub proof fn varint_len_bounds(v: nat)
    ensures
        1 <= varint_bytes(v).len(),
        v <= u64::MAX ==> varint_bytes(v).len() <= 10,
{
    if v <= u64::MAX {
        lemma_varint_len_monotonic(v, 0xFFFF_FFFF_FFFF_FFFF);
        reveal_with_fuel(varint_bytes, 10);
        assert(varint_bytes(0xFFFF_FFFF_FFFF_FFFF).len() == 10);
    }
}

proof fn lemma_exact_value_is_shortest(s: Seq<u8>)
    ensures
        parse_varint(s) matches Some((w, n)) ==> varint_bytes(w).len() <= n,
    decreases s.len(),
{
    if s.len() > 0 && s[0] >= 128 {
        lemma_exact_value_is_shortest(s.drop_first());
        lemma_parse_varint_len(s.drop_first());
    }
}

/// The canonical encoding is the shortest there is: whatever bytes a reader
/// decodes to a value, the canonical encoding of that value is no longer.
/// Padded and over-long forms are read but never written.
pub proof fn varint_is_shortest(s: Seq<u8>)
    ensures
        parse_varint(s) matches Some((w, n)) ==> varint_bytes(low_64_bits(w) as nat).len() <= n,
{
    match parse_varint(s) {
        Some((w, n)) => {
            lemma_exact_value_is_shortest(s);
            lemma_varint_len_monotonic(low_64_bits(w) as nat, w);
        },
        None => {},
    }
}

/// A varint is read from its own bytes alone: what follows them changes
/// nothing.
pub proof fn lemma_parse_varint_prefix(s: Seq<u8>, rest: Seq<u8>)
    ensures
        parse_varint(s) is Some ==> parse_varint(s + rest) == parse_varint(s),
    decreases s.len(),
{
    if s.len() > 0 && s[0] >= 128 {
        lemma_parse_varint_prefix(s.drop_first(), rest);
        assert((s + rest).drop_first() =~= s.drop_first() + rest);
    }
}

} // verus!
