use cid_tool::base32::char_to_symbol;
use cid_tool::base32::decode_symbols;
use cid_tool::base32::encode_symbols;
use cid_tool::base32::symbol_to_char;
use cid_tool::error::ParseError;
use cid_tool::varint::decode_varint;
use cid_tool::varint::encode_varint;

#[test]
fn varint_encodes_known_values() {
    let mut out: Vec<u8> = Vec::new();
    encode_varint(0, &mut out);
    assert_eq!(out, vec![0u8]);

    let mut out: Vec<u8> = Vec::new();
    encode_varint(127, &mut out);
    assert_eq!(out, vec![127u8]);

    let mut out: Vec<u8> = Vec::new();
    encode_varint(128, &mut out);
    assert_eq!(out, vec![0x80u8, 0x01]);

    let mut out: Vec<u8> = Vec::new();
    encode_varint(300, &mut out);
    assert_eq!(out, vec![0xacu8, 0x02]);
}

#[test]
fn varint_round_trips() {
    for value in [0u64, 1, 127, 128, 255, 300, 16384, 0x55, 0x12, u64::MAX] {
        let mut out: Vec<u8> = Vec::new();
        encode_varint(value, &mut out);
        let decoded = decode_varint(&out, 0).unwrap();
        assert_eq!(decoded.0, value);
        assert_eq!(decoded.1, out.len());
    }
}

#[test]
fn varint_decode_rejects_empty() {
    let bytes: Vec<u8> = Vec::new();
    assert_eq!(decode_varint(&bytes, 0), Err(ParseError::Truncated));
}

#[test]
fn varint_decode_rejects_unterminated() {
    let bytes = vec![0x80u8];
    assert_eq!(decode_varint(&bytes, 0), Err(ParseError::Truncated));
}

#[test]
fn varint_decode_rejects_overflow() {
    let mut bytes = vec![0xffu8; 9];
    bytes.push(0x7f);
    assert_eq!(decode_varint(&bytes, 0), Err(ParseError::MalformedVarint));
}

#[test]
fn base32_encodes_single_byte() {
    let syms = encode_symbols(&vec![0x61u8]);
    assert_eq!(syms, vec![12u8, 4]);
    assert_eq!(symbol_to_char(12), 'm');
    assert_eq!(symbol_to_char(4), 'e');
}

#[test]
fn base32_round_trips_every_length() {
    for len in 0..32usize {
        let data: Vec<u8> = (0..len).map(|x| (x * 37 + 11) as u8).collect();
        let syms = encode_symbols(&data);
        assert_eq!(decode_symbols(&syms), Ok(data));
    }
}

#[test]
fn base32_rejects_bad_symbol_count() {
    assert_eq!(decode_symbols(&vec![0u8]), Err(ParseError::BadLength));
    assert_eq!(decode_symbols(&vec![0u8; 3]), Err(ParseError::BadLength));
    assert_eq!(decode_symbols(&vec![0u8; 6]), Err(ParseError::BadLength));
}

#[test]
fn base32_characters_round_trip() {
    for v in 0..32u8 {
        assert_eq!(char_to_symbol(symbol_to_char(v)), Some(v));
    }
    assert_eq!(char_to_symbol('!'), None);
    assert_eq!(char_to_symbol('0'), None);
    assert_eq!(char_to_symbol('1'), None);
    assert_eq!(char_to_symbol('8'), None);
    assert_eq!(char_to_symbol('9'), None);
    assert_eq!(char_to_symbol('A'), None);
}
