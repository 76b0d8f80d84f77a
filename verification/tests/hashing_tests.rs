use cid::Cid;
use cid_tool::hashing::compare_files;
use cid_tool::hashing::digest_hex;
use cid_tool::hashing::generate_cid;
use cid_tool::identifier::equals;
use cid_tool::identifier::parse;
use cid_tool::identifier::serialize_text;
use multihash::Multihash;
use sha2::Digest;
use sha2::Sha256;

#[test]
fn hello_vector_is_stable() {
    let content = b"hello\n".to_vec();
    let id = generate_cid(&content);
    let text = serialize_text(&id);
    assert_eq!(text, "bafkreicysg23kiwv34eg2d7qweipxwosdo2py4ldv42nbauguluen5v6am");
    let again = generate_cid(&content);
    assert_eq!(serialize_text(&again), text);
    assert!(equals(&again, &id));
}

#[test]
fn empty_vector_is_stable() {
    let content: Vec<u8> = Vec::new();
    let text = serialize_text(&generate_cid(&content));
    assert_eq!(text, "bafkreihdwdcefgh4dqkjv67uzcmw7ojee6xedzdetojuzjevtenxquvyku");
}

#[test]
fn digest_hex_reports_sha256() {
    let id = generate_cid(&b"hello\n".to_vec());
    assert_eq!(
        digest_hex(&id),
        "5891b5b522d5df086d0ff0b110fbd9d21bb4fc7163af34d08286a2e846f6be03"
    );
}

#[test]
fn identical_content_same_identifier() {
    let from_one_file = b"same bytes, different names".to_vec();
    let from_another_file = b"same bytes, different names".to_vec();
    assert!(compare_files(&from_one_file, &from_another_file));
    assert!(equals(&generate_cid(&from_one_file), &generate_cid(&from_another_file)));
}

#[test]
fn single_byte_change_distinct_identifier() {
    let original = b"hello\n".to_vec();
    for position in 0..original.len() {
        let mut mutated = original.clone();
        mutated[position] = mutated[position].wrapping_add(1);
        assert!(!compare_files(&original, &mutated));
        assert!(!equals(&generate_cid(&original), &generate_cid(&mutated)));
    }
}

#[test]
fn empty_contents_compare_equal() {
    assert!(compare_files(&Vec::new(), &Vec::new()));
}

#[test]
fn matches_reference_cid_crate() {
    let content = b"hello\n";
    let digest = Sha256::digest(content);
    let mh = Multihash::<64>::wrap(0x12, &digest).unwrap();
    let reference = Cid::new_v1(0x55, mh);
    let ours = generate_cid(&content.to_vec());
    assert_eq!(reference.to_string(), serialize_text(&ours));

    let parsed = parse(&reference.to_string()).unwrap();
    assert!(equals(&parsed, &ours));
    assert_eq!(parsed.version, 1u64);
    assert_eq!(parsed.codec, 0x55u64);
    assert_eq!(parsed.hash_code, 0x12u64);
    assert_eq!(parsed.digest, digest.to_vec());
}
