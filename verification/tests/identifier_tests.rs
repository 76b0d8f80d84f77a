use cid_tool::error::ParseError;
use cid_tool::hashing::generate_cid;
use cid_tool::identifier::construct;
use cid_tool::identifier::equals;
use cid_tool::identifier::parse;
use cid_tool::identifier::serialize_text;
use cid_tool::identifier::Identifier;

#[test]
fn construct_sets_fields() {
    let digest = vec![7u8; 32];
    let id = construct(&digest).unwrap();
    assert_eq!(id.version, 1u64);
    assert_eq!(id.codec, 0x55u64);
    assert_eq!(id.hash_code, 0x12u64);
    assert_eq!(id.digest, digest);
}

#[test]
fn construct_rejects_oversized_digest() {
    assert!(construct(&vec![0u8; 65]).is_err());
    assert!(construct(&vec![0u8; 64]).is_ok());
}

#[test]
fn parse_rejects_empty() {
    match parse("") {
        Err(e) => assert_eq!(e, ParseError::Empty),
        Ok(_) => panic!("empty string must not parse"),
    }
}

#[test]
fn parse_rejects_invalid_text() {
    match parse("!!!invalid!!!") {
        Err(e) => assert_eq!(e, ParseError::BadPrefix),
        Ok(_) => panic!("invalid text must not parse"),
    }
}

#[test]
fn parse_rejects_bad_character_in_body() {
    match parse("bafkrei!aaaaaaa") {
        Err(e) => assert_eq!(e, ParseError::BadCharacter),
        Ok(_) => panic!("body with a character outside the alphabet must not parse"),
    }
}

#[test]
fn parse_rejects_truncated() {
    let full = serialize_text(&generate_cid(&b"hello\n".to_vec()));
    let truncated = &full[..10];
    match parse(truncated) {
        Err(e) => assert_eq!(e, ParseError::BadLength),
        Ok(_) => panic!("truncated identifier must not parse"),
    }
    let shortened = &full[..full.len() - 8];
    match parse(shortened) {
        Err(e) => assert_eq!(e, ParseError::LengthMismatch),
        Ok(_) => panic!("shortened identifier must not parse"),
    }
}

#[test]
fn parse_rejects_unterminated_varint() {
    match parse("bqe") {
        Err(e) => assert_eq!(e, ParseError::Truncated),
        Ok(_) => panic!("unterminated varint must not parse"),
    }
}

#[test]
fn parse_accepts_foreign_codes() {
    let id = Identifier { version: 1, codec: 0x70, hash_code: 0x11, digest: vec![0xaau8; 20] };
    let text = serialize_text(&id);
    let parsed = parse(&text).unwrap();
    assert!(equals(&parsed, &id));
    assert_eq!(parsed.codec, 0x70u64);
    assert_eq!(parsed.hash_code, 0x11u64);
    assert_eq!(parsed.digest, vec![0xaau8; 20]);
}

#[test]
fn round_trip_identifier() {
    let id = generate_cid(&b"hello\n".to_vec());
    let text = serialize_text(&id);
    let parsed = parse(&text).unwrap();
    assert!(equals(&parsed, &id));
    assert_eq!(serialize_text(&parsed), text);
}

#[test]
fn equals_is_structural() {
    let a = construct(&vec![5u8; 32]).unwrap();
    let b = construct(&vec![5u8; 32]).unwrap();
    assert!(equals(&a, &b));
    let mut other_digest = vec![5u8; 32];
    other_digest[31] = 6;
    let c = construct(&other_digest).unwrap();
    assert!(!equals(&a, &c));
    let d = Identifier { version: 1, codec: 0x55, hash_code: 0x13, digest: vec![5u8; 32] };
    assert!(!equals(&a, &d));
}
