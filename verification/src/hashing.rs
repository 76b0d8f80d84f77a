use vstd::prelude::*;

use sha2::Digest;

use crate::identifier;
use crate::identifier::IdView;
use crate::identifier::Identifier;

verus! {

/// The SHA-256 digest of a byte sequence. Stated, not computed: the digest is
/// a function of the input bytes alone, so the name pins nothing but that two
/// equal inputs share a digest; the bytes themselves come from the hashing
/// crate at run time.
pub uninterp spec fn sha256_of(data: Seq<u8>) -> Seq<u8>;

/// Relies on sha2::Sha256 (new, update, finalize): the SHA-256 digest of the
/// input, 32 bytes, a pure function of the input bytes.
#[verifier::external_body]
fn sha256_digest(content: &Vec<u8>) -> (r: Vec<u8>)
    ensures
        r@ == sha256_of(content@),
        r@.len() == 32,
{
    let mut hasher = sha2::Sha256::new();
    hasher.update(content.as_slice());
    hasher.finalize().to_vec()
}

/// The identifier this tool gives a byte content: version 1, the raw-binary
/// codec tag, the SHA-256 function code, and the content's digest.
pub open spec fn identifier_of(content: Seq<u8>) -> IdView {
    IdView { version: 1, codec: 0x55, hash_code: 0x12, digest: sha256_of(content) }
}

/// Computes the content identifier of the given bytes: their SHA-256 digest
/// wrapped as a multihash inside a version 1, raw-binary identifier.
pub fn generate_cid(content: &Vec<u8>) -> (id: Identifier)
    ensures
        id@ == identifier_of(content@),
{
    let digest = sha256_digest(content);
    match identifier::construct(&digest) {
        Ok(id) => {
            proof {
                assert(id@ =~= identifier_of(content@));
            }
            id
        },
        Err(_) => vstd::pervasive::unreached(),
    }
}

/// Whether two byte contents receive the same identifier. Equal contents
/// always compare equal; distinct contents compare equal exactly on a
/// SHA-256 collision, which the digest's crate makes overwhelmingly unlikely.
pub fn compare_files(content1: &Vec<u8>, content2: &Vec<u8>) -> (r: bool)
    ensures
        r == (identifier_of(content1@) == identifier_of(content2@)),
        r == (sha256_of(content1@) == sha256_of(content2@)),
        content1@ == content2@ ==> r,
{
    let id1 = generate_cid(content1);
    let id2 = generate_cid(content2);
    let r = identifier::equals(&id1, &id2);
    proof {
        if sha256_of(content1@) == sha256_of(content2@) {
            assert(identifier_of(content1@) =~= identifier_of(content2@));
        }
    }
    r
}

/// The lower-case hexadecimal digit of a value below sixteen.
pub open spec fn hex_digit(v: u8) -> char {
    if v < 10 {
        ((v + 48) as u8) as char
    } else {
        ((v + 87) as u8) as char
    }
}

/// The lower-case hexadecimal rendering of a byte sequence: two digits per
/// byte, high nibble first.
pub open spec fn hex_of(b: Seq<u8>) -> Seq<char>
    decreases b.len(),
{
    if b.len() == 0 {
        Seq::empty()
    } else {
        seq![hex_digit(b[0] >> 4), hex_digit(b[0] & 15)] + hex_of(b.skip(1))
    }
}

/// Relies on hex::encode: lower-case hexadecimal, two digits per byte, high
/// nibble first.
#[verifier::external_body]
fn hex_encode(b: &Vec<u8>) -> (r: String)
    ensures
        r@ == hex_of(b@),
{
    hex::encode(b.as_slice())
}

/// Renders an identifier's digest in lower-case hexadecimal, as reported for
/// a validated identifier.
pub fn digest_hex(id: &Identifier) -> (r: String)
    ensures
        r@ == hex_of(id.digest@),
{
    hex_encode(&id.digest)
}

/// Determinism: the identifier of a byte content is a function of the bytes
/// alone, so hashing the same content twice yields the same identifier.
pub proof fn lemma_generate_deterministic(content1: Seq<u8>, content2: Seq<u8>)
    requires
        content1 == content2,
    ensures
        identifier_of(content1) == identifier_of(content2),
{
}

/// Comparison consistency, the provable direction: contents share an
/// identifier exactly when they share a digest, and equal contents always do.
/// That distinct contents get distinct digests is SHA-256 collision
/// resistance, which is no theorem of this model.
pub proof fn lemma_compare_consistency(content1: Seq<u8>, content2: Seq<u8>)
    ensures
        (identifier_of(content1) == identifier_of(content2)) == (sha256_of(content1)
            == sha256_of(content2)),
        content1 == content2 ==> identifier_of(content1) == identifier_of(content2),
{
    if sha256_of(content1) == sha256_of(content2) {
        assert(identifier_of(content1) =~= identifier_of(content2));
    }
}

} // verus!
