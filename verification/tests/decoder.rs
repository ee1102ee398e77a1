use pbtools::{Decoder, Encoder, WireError};

#[test]
fn available_compares_cursor_and_length() {
    assert!(!Decoder::new(vec![]).available());
    assert!(Decoder::new(vec![0]).available());
    assert!(!Decoder { pos: 1, encoded: vec![0] }.available());
    assert!(!Decoder { pos: 7, encoded: vec![0] }.available());
}

#[test]
fn read_tag_unpacks_one_varint() {
    let mut decoder = Decoder::new(vec![0x0A, 0x10, 0x80, 0x01]);
    assert_eq!(decoder.read_tag(), Ok((1, 2)));
    assert_eq!(decoder.pos, 1);
    assert_eq!(decoder.read_tag(), Ok((2, 0)));
    assert_eq!(decoder.pos, 2);
    assert_eq!(decoder.read_tag(), Ok((16, 0)));
    assert_eq!(decoder.pos, 4);
    assert!(!decoder.available());
}

#[test]
fn read_tag_takes_huge_field_numbers() {
    let mut encoder = Encoder::new();
    encoder.write_varint((1u64 << 43) | 5);
    let mut decoder = Decoder::new(encoder.encoded);
    assert_eq!(decoder.read_tag(), Ok((1 << 40, 5)));
}

#[test]
fn read_tag_on_a_truncated_varint_is_malformed_tag() {
    let mut decoder = Decoder::new(vec![0x80, 0x80]);
    assert_eq!(decoder.read_tag(), Err(WireError::MalformedTag));
    assert_eq!(decoder.pos, 0);
    let mut decoder = Decoder::new(vec![]);
    assert_eq!(decoder.read_tag(), Err(WireError::MalformedTag));
    let mut decoder = Decoder { pos: 9, encoded: vec![0x08] };
    assert_eq!(decoder.read_tag(), Err(WireError::MalformedTag));
    assert_eq!(decoder.pos, 9);
}

#[test]
fn read_varint_reads_and_advances() {
    let mut decoder = Decoder::new(vec![0xAC, 0x02, 0x05]);
    assert_eq!(decoder.read_varint(), Ok(300));
    assert_eq!(decoder.pos, 2);
    assert_eq!(decoder.read_varint(), Ok(5));
    assert_eq!(decoder.pos, 3);
}

#[test]
fn read_varint_on_a_truncated_varint_is_malformed_varint() {
    let mut decoder = Decoder::new(vec![0x01, 0xFF]);
    assert_eq!(decoder.read_varint(), Ok(1));
    assert_eq!(decoder.read_varint(), Err(WireError::MalformedVarint));
    assert_eq!(decoder.pos, 1);
    assert_eq!(decoder.encoded, vec![0x01, 0xFF]);
}

#[test]
fn read_int32_keeps_the_low_32_bits() {
    let mut decoder = Decoder::new(vec![0x38]);
    assert_eq!(decoder.read_int32(0), Ok(56));
    // 2^32 + 5
    let mut decoder = Decoder::new(vec![0x85, 0x80, 0x80, 0x80, 0x10]);
    assert_eq!(decoder.read_int32(0), Ok(5));
    // 2^32 - 1
    let mut decoder = Decoder::new(vec![0xFF, 0xFF, 0xFF, 0xFF, 0x0F]);
    assert_eq!(decoder.read_int32(0), Ok(-1));
    // 2^31
    let mut decoder = Decoder::new(vec![0x80, 0x80, 0x80, 0x80, 0x08]);
    assert_eq!(decoder.read_int32(0), Ok(i32::MIN));
}

#[test]
fn read_int32_reads_back_what_write_int32_wrote() {
    for value in [1, -1, 56, -56, 127, 128, -128, 65536, i32::MAX, i32::MIN, i32::MIN + 1] {
        let mut encoder = Encoder::new();
        assert_eq!(encoder.write_int32(7, value), Ok(()));
        let mut decoder = Decoder::new(encoder.encoded);
        assert_eq!(decoder.read_tag(), Ok((7, 0)));
        assert_eq!(decoder.read_int32(0), Ok(value));
        assert!(!decoder.available());
    }
}

#[test]
fn read_int32_refuses_another_wire_type() {
    let mut decoder = Decoder::new(vec![0x01, 0x02]);
    for wire_type in [1u32, 2, 3, 4, 5, 6, 7, 99] {
        assert_eq!(decoder.read_int32(wire_type), Err(WireError::UnsupportedWireType));
        assert_eq!(decoder.pos, 0);
    }
}

#[test]
fn read_int32_on_a_truncated_varint_is_malformed_varint() {
    let mut decoder = Decoder::new(vec![0x80]);
    assert_eq!(decoder.read_int32(0), Err(WireError::MalformedVarint));
    assert_eq!(decoder.pos, 0);
}

#[test]
fn read_length_delimited_takes_exactly_the_declared_bytes() {
    let mut decoder = Decoder::new(vec![0x03, 1, 2, 3, 0x00, 0x01, 9]);
    assert_eq!(decoder.read_length_delimited(), Ok(vec![1, 2, 3]));
    assert_eq!(decoder.pos, 4);
    assert_eq!(decoder.read_length_delimited(), Ok(vec![]));
    assert_eq!(decoder.pos, 5);
    assert_eq!(decoder.read_length_delimited(), Ok(vec![9]));
    assert_eq!(decoder.pos, 7);
}

#[test]
fn read_length_delimited_refuses_a_truncated_payload() {
    let mut decoder = Decoder::new(vec![0x05, b'a', b'b']);
    assert_eq!(decoder.read_length_delimited(), Err(WireError::TruncatedPayload));
    assert_eq!(decoder.pos, 0);
    let mut decoder = Decoder::new(vec![0x01]);
    assert_eq!(decoder.read_length_delimited(), Err(WireError::TruncatedPayload));
    assert_eq!(decoder.pos, 0);
}

#[test]
fn read_length_delimited_refuses_an_enormous_declared_length() {
    let mut decoder =
        Decoder::new(vec![0xFF, 0xFF, 0xFF, 0xFF, 0xFF, 0xFF, 0xFF, 0xFF, 0xFF, 0x01, 1, 2, 3]);
    assert_eq!(decoder.read_length_delimited(), Err(WireError::TruncatedPayload));
    assert_eq!(decoder.pos, 0);
}

#[test]
fn read_length_delimited_with_a_truncated_length_is_malformed_varint() {
    let mut decoder = Decoder::new(vec![0x80]);
    assert_eq!(decoder.read_length_delimited(), Err(WireError::MalformedVarint));
    let mut decoder = Decoder::new(vec![]);
    assert_eq!(decoder.read_length_delimited(), Err(WireError::MalformedVarint));
}

#[test]
fn read_string_reads_utf8() {
    let mut decoder = Decoder::new(vec![0x0A, b'K', b'a', b'l', b'l', b'e', b' ', b'K', b'u', b'l', b'a']);
    assert_eq!(decoder.read_string(2), Ok(String::from("Kalle Kula")));
    assert_eq!(decoder.pos, 11);
    let mut decoder = Decoder::new(vec![0x07, 0xC3, 0xA5, 0xC3, 0xA4, 0xE2, 0x82, 0xAC, 0x00]);
    assert_eq!(decoder.read_string(2), Ok(String::from("åä€")));
    assert_eq!(decoder.pos, 8);
    assert_eq!(decoder.read_string(2), Ok(String::new()));
}

#[test]
fn read_string_reads_back_what_write_string_wrote() {
    for text in ["a", "Kalle Kula", "kalle.kula@foobar.com", "höjd 𝄞 ≠ längd", "\u{0}\u{7f}\u{80}"] {
        let mut encoder = Encoder::new();
        assert_eq!(encoder.write_string(3, &String::from(text)), Ok(()));
        let mut decoder = Decoder::new(encoder.encoded);
        assert_eq!(decoder.read_tag(), Ok((3, 2)));
        assert_eq!(decoder.read_string(2), Ok(String::from(text)));
        assert!(!decoder.available());
    }
}

#[test]
fn read_string_refuses_invalid_utf8() {
    for payload in [
        vec![0xC3, 0x28],
        vec![0xFF],
        vec![0x80],
        vec![0xE2, 0x82],
        vec![0xED, 0xA0, 0x80],
        vec![0xC0, 0xAF],
        vec![0xF4, 0x90, 0x80, 0x80],
    ] {
        let mut bytes = vec![payload.len() as u8];
        bytes.extend(payload);
        let mut decoder = Decoder::new(bytes);
        assert_eq!(decoder.read_string(2), Err(WireError::InvalidUtf8));
        assert_eq!(decoder.pos, 0);
    }
}

#[test]
fn read_string_refuses_another_wire_type() {
    let mut decoder = Decoder::new(vec![0x01, b'a']);
    for wire_type in [0u32, 1, 3, 4, 5, 6, 7, 99] {
        assert_eq!(decoder.read_string(wire_type), Err(WireError::UnsupportedWireType));
        assert_eq!(decoder.pos, 0);
    }
}

#[test]
fn read_string_refuses_a_truncated_payload() {
    let mut decoder = Decoder::new(vec![0x0A, b'K', b'a']);
    assert_eq!(decoder.read_string(2), Err(WireError::TruncatedPayload));
    assert_eq!(decoder.pos, 0);
    let mut decoder = Decoder::new(vec![0x8A]);
    assert_eq!(decoder.read_string(2), Err(WireError::MalformedVarint));
}

#[test]
fn read_embedded_hands_back_a_bounded_decoder() {
    let mut decoder = Decoder::new(vec![0x02, 0x10, 0x01, 0x10, 0x05]);
    let mut inner = decoder.read_embedded(2).unwrap();
    assert_eq!(decoder.pos, 3);
    assert_eq!(inner.pos, 0);
    assert_eq!(inner.encoded, vec![0x10, 0x01]);
    assert_eq!(inner.read_tag(), Ok((2, 0)));
    assert_eq!(inner.read_int32(0), Ok(1));
    assert!(!inner.available());
    assert!(decoder.available());
}

#[test]
fn read_embedded_fails_as_a_length_delimited_read_does() {
    let mut decoder = Decoder::new(vec![0x03, 0x10]);
    assert_eq!(decoder.read_embedded(2).unwrap_err(), WireError::TruncatedPayload);
    assert_eq!(decoder.read_embedded(0).unwrap_err(), WireError::UnsupportedWireType);
    assert_eq!(decoder.pos, 0);
    let mut decoder = Decoder::new(vec![0x83]);
    assert_eq!(decoder.read_embedded(2).unwrap_err(), WireError::MalformedVarint);
}

#[test]
fn skip_field_steps_over_a_varint() {
    let mut decoder = Decoder::new(vec![0xAC, 0x02, 0x07]);
    assert_eq!(decoder.skip_field(0), Ok(()));
    assert_eq!(decoder.pos, 2);
}

#[test]
fn skip_field_steps_over_a_length_delimited_span() {
    let mut decoder = Decoder::new(vec![0x03, 0xFF, 0xFF, 0xFF, 0x07]);
    assert_eq!(decoder.skip_field(2), Ok(()));
    assert_eq!(decoder.pos, 4);
    let mut decoder = Decoder::new(vec![0x00]);
    assert_eq!(decoder.skip_field(2), Ok(()));
    assert_eq!(decoder.pos, 1);
}

#[test]
fn skip_field_steps_over_fixed_widths() {
    let mut decoder = Decoder::new(vec![1, 2, 3, 4, 5, 6, 7, 8, 9, 10, 11, 12]);
    assert_eq!(decoder.skip_field(1), Ok(()));
    assert_eq!(decoder.pos, 8);
    assert_eq!(decoder.skip_field(5), Ok(()));
    assert_eq!(decoder.pos, 12);
}

#[test]
fn skip_field_refuses_truncated_payloads() {
    let mut decoder = Decoder::new(vec![1, 2, 3, 4, 5, 6, 7]);
    assert_eq!(decoder.skip_field(1), Err(WireError::TruncatedPayload));
    assert_eq!(decoder.pos, 0);
    let mut decoder = Decoder::new(vec![1, 2, 3]);
    assert_eq!(decoder.skip_field(5), Err(WireError::TruncatedPayload));
    assert_eq!(decoder.pos, 0);
    let mut decoder = Decoder::new(vec![0x04, 1, 2, 3]);
    assert_eq!(decoder.skip_field(2), Err(WireError::TruncatedPayload));
    assert_eq!(decoder.pos, 0);
    let mut decoder = Decoder::new(vec![0x80, 0x80]);
    assert_eq!(decoder.skip_field(0), Err(WireError::MalformedVarint));
    assert_eq!(decoder.skip_field(2), Err(WireError::MalformedVarint));
    assert_eq!(decoder.pos, 0);
    let mut decoder = Decoder { pos: 3, encoded: vec![1, 2] };
    assert_eq!(decoder.skip_field(5), Err(WireError::TruncatedPayload));
    assert_eq!(decoder.skip_field(1), Err(WireError::TruncatedPayload));
    assert_eq!(decoder.pos, 3);
}

#[test]
fn skip_field_refuses_undefined_wire_types() {
    let mut decoder = Decoder::new(vec![1, 2, 3, 4, 5, 6, 7, 8, 9]);
    for wire_type in [3u32, 4, 6, 7, 8, 1000, u32::MAX] {
        assert_eq!(decoder.skip_field(wire_type), Err(WireError::UnsupportedWireType));
        assert_eq!(decoder.pos, 0);
    }
}

#[test]
fn every_tag_read_moves_the_cursor_forward() {
    let bytes: Vec<u8> = (0..=255u8).collect();
    let mut decoder = Decoder::new(bytes);
    let mut last = decoder.pos;
    while decoder.available() {
        match decoder.read_tag() {
            Ok(_) => {
                assert!(decoder.pos > last);
                assert!(decoder.pos <= decoder.encoded.len());
                last = decoder.pos;
            }
            Err(e) => {
                assert_eq!(e, WireError::MalformedTag);
                assert_eq!(decoder.pos, last);
                break;
            }
        }
    }
}
