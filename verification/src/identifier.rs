use vstd::prelude::*;

use crate::base32;
use crate::error::EncodingError;
use crate::error::ParseError;
use crate::varint;

verus! {

/// A self-describing content identifier: a version tag, a payload codec tag,
/// and an embedded multihash (hash function code, digest length, digest
/// bytes). The wire format's digest length field always equals the digest's
/// byte count, so only the digest itself is stored.
pub struct Identifier {
    pub version: u64,
    pub codec: u64,
    pub hash_code: u64,
    pub digest: Vec<u8>,
}

/// The mathematical value of an identifier.
#[verifier::ext_equal]
pub struct IdView {
    pub version: nat,
    pub codec: nat,
    pub hash_code: nat,
    pub digest: Seq<u8>,
}

impl View for Identifier {
    type V = IdView;

    open spec fn view(&self) -> IdView {
        IdView {
            version: self.version as nat,
            codec: self.codec as nat,
            hash_code: self.hash_code as nat,
            digest: self.digest@,
        }
    }
}

/// An identifier value whose fields fit the machine types: every value an
/// `Identifier` can hold satisfies this.
pub open spec fn wf(m: IdView) -> bool {
    &&& m.version <= u64::MAX
    &&& m.codec <= u64::MAX
    &&& m.hash_code <= u64::MAX
    &&& m.digest.len() <= u64::MAX
}

/// The binary wire format: version varint, codec varint, hash function code
/// varint, digest length varint, digest bytes.
pub open spec fn bytes_of(m: IdView) -> Seq<u8> {
    varint::varint_bytes(m.version) + varint::varint_bytes(m.codec) + varint::varint_bytes(
        m.hash_code,
    ) + varint::varint_bytes(m.digest.len()) + m.digest
}

/// The canonical textual form: the base32-lower multibase prefix `b`, then
/// the base32 characters of the wire bytes.
pub open spec fn text_of(m: IdView) -> Seq<char> {
    seq!['b'] + base32::b32_symbols(bytes_of(m)).map_values(|v: u8| base32::sym_char(v))
}

/// What parsing a decoded byte stream yields: the four varint fields in
/// order, then the digest, whose declared length must match the remainder.
pub open spec fn parse_fields(bytes: Seq<u8>) -> Result<IdView, ParseError> {
    match varint::varint_decode(bytes) {
        None => Err(ParseError::Truncated),
        Some(vk0) => if vk0.0 > u64::MAX {
            Err(ParseError::MalformedVarint)
        } else {
            let r1 = bytes.skip(vk0.1 as int);
            match varint::varint_decode(r1) {
                None => Err(ParseError::Truncated),
                Some(vk1) => if vk1.0 > u64::MAX {
                    Err(ParseError::MalformedVarint)
                } else {
                    let r2 = r1.skip(vk1.1 as int);
                    match varint::varint_decode(r2) {
                        None => Err(ParseError::Truncated),
                        Some(vk2) => if vk2.0 > u64::MAX {
                            Err(ParseError::MalformedVarint)
                        } else {
                            let r3 = r2.skip(vk2.1 as int);
                            match varint::varint_decode(r3) {
                                None => Err(ParseError::Truncated),
                                Some(vk3) => if vk3.0 > u64::MAX {
                                    Err(ParseError::MalformedVarint)
                                } else {
                                    let rest = r3.skip(vk3.1 as int);
                                    if vk3.0 != rest.len() {
                                        Err(ParseError::LengthMismatch)
                                    } else {
                                        Ok(
                                            IdView {
                                                version: vk0.0,
                                                codec: vk1.0,
                                                hash_code: vk2.0,
                                                digest: rest,
                                            },
                                        )
                                    }
                                },
                            }
                        },
                    }
                },
            }
        },
    }
}

/// Whether some character lies outside the base32 alphabet.
pub open spec fn has_bad_char(body: Seq<char>) -> bool {
    exists|i: int| 0 <= i < body.len() && base32::char_sym(#[trigger] body[i]) is None
}

/// The symbols of a sequence of alphabet characters.
pub open spec fn syms_of_chars(body: Seq<char>) -> Seq<u8> {
    body.map_values(|c: char| base32::char_sym(c)->0)
}

/// What parsing a textual identifier yields: any hash function code or codec
/// tag is accepted as long as the string is syntactically well formed.
pub open spec fn parse_text(t: Seq<char>) -> Result<IdView, ParseError> {
    if t.len() == 0 {
        Err(ParseError::Empty)
    } else if t[0] != 'b' {
        Err(ParseError::BadPrefix)
    } else if has_bad_char(t.skip(1)) {
        Err(ParseError::BadCharacter)
    } else {
        match base32::dec_syms(syms_of_chars(t.skip(1))) {
            None => Err(ParseError::BadLength),
            Some(bytes) => parse_fields(bytes),
        }
    }
}

/// Copies a byte vector.
fn copy_bytes(src: &Vec<u8>) -> (r: Vec<u8>)
    ensures
        r@ == src@,
{
    let mut r: Vec<u8> = Vec::new();
    let mut i: usize = 0;
    while i < src.len()
        invariant
            i <= src@.len(),
            r@ == src@.take(i as int),
        decreases src@.len() - i,
    {
        r.push(src[i]);
        proof {
            assert(src@.take(i + 1 as int) =~= src@.take(i as int).push(src@[i as int]));
        }
        i = i + 1;
    }
    proof {
        assert(src@.take(src@.len() as int) =~= src@);
    }
    r
}

/// Wraps a digest in a version 1 identifier with the raw-binary codec tag
/// and the SHA-256 function code. Rejects a digest too long for a multihash
/// rather than build a malformed identifier.
pub fn construct(digest: &Vec<u8>) -> (r: Result<Identifier, EncodingError>)
    ensures
        digest@.len() <= 64 ==> (r matches Ok(id) && id@ == IdView {
            version: 1,
            codec: 0x55,
            hash_code: 0x12,
            digest: digest@,
        }),
        digest@.len() > 64 ==> r == Err::<Identifier, EncodingError>(EncodingError),
{
    if digest.len() > 64 {
        return Err(EncodingError);
    }
    let id = Identifier { version: 1, codec: 0x55, hash_code: 0x12, digest: copy_bytes(digest) };
    proof {
        assert(id@ =~= IdView { version: 1, codec: 0x55, hash_code: 0x12, digest: digest@ });
    }
    Ok(id)
}

/// Structural equality of identifiers: all fields and every digest byte.
pub fn equals(a: &Identifier, b: &Identifier) -> (r: bool)
    ensures
        r == (a@ == b@),
{
    if a.version != b.version || a.codec != b.codec || a.hash_code != b.hash_code {
        return false;
    }
    if a.digest.len() != b.digest.len() {
        return false;
    }
    let mut i: usize = 0;
    while i < a.digest.len()
        invariant
            i <= a.digest@.len(),
            a.digest@.len() == b.digest@.len(),
            a.version == b.version && a.codec == b.codec && a.hash_code == b.hash_code,
            forall|j: int| 0 <= j < i ==> a.digest@[j] == b.digest@[j],
        decreases a.digest@.len() - i,
    {
        if a.digest[i] != b.digest[i] {
            return false;
        }
        i = i + 1;
    }
    proof {
        assert(a.digest@ =~= b.digest@);
        assert(a@ =~= b@);
    }
    true
}

/// Relies on String::push: appends the character at the end of the string.
#[verifier::external_body]
fn push_char(s: &mut String, c: char)
    ensures
        final(s)@ == old(s)@.push(c),
{
    s.push(c);
}

/// Renders an identifier in its canonical textual form.
pub fn serialize_text(id: &Identifier) -> (r: String)
    ensures
        r@ == text_of(id@),
{
    let mut bytes: Vec<u8> = Vec::new();
    varint::encode_varint(id.version, &mut bytes);
    varint::encode_varint(id.codec, &mut bytes);
    varint::encode_varint(id.hash_code, &mut bytes);
    varint::encode_varint(id.digest.len() as u64, &mut bytes);
    let mut k: usize = 0;
    let ghost header = bytes@;
    while k < id.digest.len()
        invariant
            k <= id.digest@.len(),
            bytes@ == header + id.digest@.take(k as int),
        decreases id.digest@.len() - k,
    {
        bytes.push(id.digest[k]);
        proof {
            assert(id.digest@.take(k + 1 as int) =~= id.digest@.take(k as int).push(
                id.digest@[k as int],
            ));
            assert(bytes@ =~= header + id.digest@.take(k + 1 as int));
        }
        k = k + 1;
    }
    proof {
        assert(id.digest@.take(id.digest@.len() as int) =~= id.digest@);
        assert(bytes@ =~= bytes_of(id@));
    }
    let syms = base32::encode_symbols(&bytes);
    proof {
        base32::lemma_b32_symbols_bounded(bytes@);
    }
    let mut out = String::new();
    push_char(&mut out, 'b');
    let mut i: usize = 0;
    while i < syms.len()
        invariant
            i <= syms@.len(),
            syms@ == base32::b32_symbols(bytes_of(id@)),
            forall|j: int| 0 <= j < syms@.len() ==> syms@[j] < 32,
            out@ == seq!['b'] + syms@.take(i as int).map_values(|v: u8| base32::sym_char(v)),
        decreases syms@.len() - i,
    {
        let c = base32::symbol_to_char(syms[i]);
        push_char(&mut out, c);
        proof {
            assert(syms@.take(i + 1 as int) =~= syms@.take(i as int).push(syms@[i as int]));
            assert(syms@.take(i + 1 as int).map_values(|v: u8| base32::sym_char(v)) =~= syms@.take(
                i as int,
            ).map_values(|v: u8| base32::sym_char(v)).push(base32::sym_char(syms@[i as int])));
            assert(out@ =~= seq!['b'] + syms@.take(i + 1 as int).map_values(
                |v: u8| base32::sym_char(v),
            ));
        }
        i = i + 1;
    }
    proof {
        assert(syms@.take(syms@.len() as int) =~= syms@);
        assert(out@ =~= text_of(id@));
    }
    out
}

/// Parses the canonical textual form back into an identifier. Any
/// syntactically valid identifier is accepted, whatever hash function or
/// codec it names.
pub fn parse(s: &str) -> (r: Result<Identifier, ParseError>)
    ensures
        (match parse_text(s@) {
            Ok(m) => r matches Ok(id) && id@ == m,
            Err(e) => r matches Err(pe) && pe == e,
        }),
{
    let n = s.unicode_len();
    if n == 0 {
        return Err(ParseError::Empty);
    }
    let c0 = s.get_char(0);
    if c0 != 'b' {
        return Err(ParseError::BadPrefix);
    }
    let ghost body = s@.skip(1);
    let mut syms: Vec<u8> = Vec::new();
    let mut i: usize = 1;
    while i < n
        invariant
            1 <= i <= n,
            n == s@.len(),
            s@[0] == 'b',
            body == s@.skip(1),
            syms@.len() == i - 1,
            forall|j: int| 0 <= j < syms@.len() ==> base32::char_sym(#[trigger] body[j]) == Some(
                syms@[j],
            ),
        decreases n - i,
    {
        let c = s.get_char(i);
        proof {
            assert(body[i - 1] == s@[i as int]);
        }
        match base32::char_to_symbol(c) {
            None => {
                proof {
                    assert(base32::char_sym(s@.skip(1)[i - 1]) is None);
                    assert(has_bad_char(s@.skip(1)));
                }
                return Err(ParseError::BadCharacter);
            },
            Some(v) => {
                syms.push(v);
            },
        }
        i = i + 1;
    }
    proof {
        assert forall|j: int| 0 <= j < s@.skip(1).len() implies base32::char_sym(
            #[trigger] s@.skip(1)[j],
        ) is Some by {
            assert(base32::char_sym(body[j]) == Some(syms@[j]));
        }
        assert(!has_bad_char(s@.skip(1)));
        assert(syms@ =~= syms_of_chars(s@.skip(1)));
    }
    let bytes = match base32::decode_symbols(&syms) {
        Err(e) => {
            return Err(e);
        },
        Ok(b) => b,
    };
    let r = parse_wire(&bytes);
    proof {
        assert(match parse_text(s@) {
            Ok(m) => r matches Ok(id) && id@ == m,
            Err(e) => r matches Err(pe) && pe == e,
        });
    }
    r
}

/// Decodes the four varint fields and the digest from the wire bytes.
fn parse_wire(bytes: &Vec<u8>) -> (r: Result<Identifier, ParseError>)
    ensures
        (match parse_fields(bytes@) {
            Ok(m) => r matches Ok(id) && id@ == m,
            Err(e) => r matches Err(pe) && pe == e,
        }),
{
    let blen = bytes.len();
    proof {
        assert(bytes@.len() <= usize::MAX);
        varint::lemma_varint_decode_bounds(bytes@);
        assert(bytes@.skip(0) =~= bytes@);
    }
    let f0 = match varint::decode_varint(&bytes, 0) {
        Err(e) => {
            return Err(e);
        },
        Ok(f) => f,
    };
    let version: u64 = f0.0;
    let p1: usize = f0.1;
    proof {
        varint::lemma_varint_decode_bounds(bytes@.skip(p1 as int));
    }
    let f1 = match varint::decode_varint(&bytes, p1) {
        Err(e) => {
            return Err(e);
        },
        Ok(f) => f,
    };
    let codec: u64 = f1.0;
    let p2: usize = p1 + f1.1;
    proof {
        assert(bytes@.skip(p1 as int).skip(f1.1 as int) =~= bytes@.skip(p2 as int));
        varint::lemma_varint_decode_bounds(bytes@.skip(p2 as int));
    }
    let f2 = match varint::decode_varint(&bytes, p2) {
        Err(e) => {
            return Err(e);
        },
        Ok(f) => f,
    };
    let hash_code: u64 = f2.0;
    let p3: usize = p2 + f2.1;
    proof {
        assert(bytes@.skip(p2 as int).skip(f2.1 as int) =~= bytes@.skip(p3 as int));
        varint::lemma_varint_decode_bounds(bytes@.skip(p3 as int));
    }
    let f3 = match varint::decode_varint(&bytes, p3) {
        Err(e) => {
            return Err(e);
        },
        Ok(f) => f,
    };
    let dlen: u64 = f3.0;
    let p4: usize = p3 + f3.1;
    proof {
        assert(bytes@.skip(p3 as int).skip(f3.1 as int) =~= bytes@.skip(p4 as int));
    }
    if dlen != (blen - p4) as u64 {
        return Err(ParseError::LengthMismatch);
    }
    let mut digest: Vec<u8> = Vec::new();
    let mut j: usize = p4;
    while j < blen
        invariant
            blen == bytes@.len(),
            p4 <= j <= bytes@.len(),
            digest@ == bytes@.subrange(p4 as int, j as int),
        decreases bytes@.len() - j,
    {
        digest.push(bytes[j]);
        proof {
            assert(bytes@.subrange(p4 as int, j + 1 as int) =~= bytes@.subrange(
                p4 as int,
                j as int,
            ).push(bytes@[j as int]));
        }
        j = j + 1;
    }
    proof {
        assert(digest@ =~= bytes@.skip(p4 as int));
    }
    let id = Identifier { version, codec, hash_code, digest };
    proof {
        assert(match parse_fields(bytes@) {
            Ok(m) => id@ =~= m,
            Err(_) => false,
        });
    }
    Ok(id)
}

/// Every value an `Identifier` holds is well formed: its fields are machine
/// integers and its digest is a vector, whose length fits a machine word.
pub proof fn lemma_identifier_wf(id: &Identifier)
    ensures
        wf(id@),
{
    broadcast use vstd::std_specs::vec::axiom_spec_len;

    assert(vstd::std_specs::vec::spec_vec_len(&id.digest) == id.digest@.len());
}

/// The varint fields of the wire format read back as written.
#[verifier::rlimit(60)]
proof fn lemma_parse_fields_round_trip(m: IdView)
    requires
        wf(m),
    ensures
        parse_fields(bytes_of(m)) == Ok::<IdView, ParseError>(m),
{
    let v0 = varint::varint_bytes(m.version);
    let v1 = varint::varint_bytes(m.codec);
    let v2 = varint::varint_bytes(m.hash_code);
    let v3 = varint::varint_bytes(m.digest.len());
    let bytes = bytes_of(m);
    let r1 = v1 + v2 + v3 + m.digest;
    let r2 = v2 + v3 + m.digest;
    let r3 = v3 + m.digest;
    assert(bytes =~= v0 + r1);
    varint::lemma_varint_round_trip(m.version, r1);
    assert(bytes.skip(v0.len() as int) =~= r1);
    varint::lemma_varint_round_trip(m.codec, r2);
    assert(r1 =~= v1 + r2);
    assert(r1.skip(v1.len() as int) =~= r2);
    varint::lemma_varint_round_trip(m.hash_code, r3);
    assert(r2 =~= v2 + r3);
    assert(r2.skip(v2.len() as int) =~= r3);
    varint::lemma_varint_round_trip(m.digest.len(), m.digest);
    assert(r3 =~= v3 + m.digest);
    assert(r3.skip(v3.len() as int) =~= m.digest);
    assert(parse_fields(bytes) == Ok::<IdView, ParseError>(
        IdView {
            version: m.version,
            codec: m.codec,
            hash_code: m.hash_code,
            digest: m.digest,
        },
    ));
    assert(IdView { version: m.version, codec: m.codec, hash_code: m.hash_code, digest: m.digest }
        =~= m);
}

/// Round trip: parsing the canonical text of any identifier value yields
/// that value back. With `parse` and `serialize_text` holding their
/// contracts, `parse(serialize_text(id))` equals `id` for every identifier.
pub proof fn lemma_parse_round_trip(m: IdView)
    requires
        wf(m),
    ensures
        parse_text(text_of(m)) == Ok::<IdView, ParseError>(m),
{
    let bytes = bytes_of(m);
    let syms = base32::b32_symbols(bytes);
    base32::lemma_b32_symbols_bounded(bytes);
    let t = text_of(m);
    let mapped = syms.map_values(|v: u8| base32::sym_char(v));
    assert(t.len() == 1 + syms.len());
    assert(t[0] == 'b');
    let body = t.skip(1);
    assert(body =~= mapped);
    assert forall|i: int| 0 <= i < body.len() implies base32::char_sym(
        #[trigger] body[i],
    ) is Some by {
        assert(body[i] == base32::sym_char(syms[i]));
        base32::lemma_char_round_trip(syms[i]);
    }
    assert(!has_bad_char(body));
    let syms2 = syms_of_chars(body);
    assert forall|i: int| 0 <= i < syms2.len() implies syms2[i] == syms[i] by {
        assert(body[i] == base32::sym_char(syms[i]));
        base32::lemma_char_round_trip(syms[i]);
    }
    assert(syms2 =~= syms);
    base32::lemma_symbols_round_trip(bytes);
    lemma_parse_fields_round_trip(m);
}

/// Injectivity of the textual form: identifier values that serialize to the
/// same text are the same value.
pub proof fn lemma_serialize_injective(m1: IdView, m2: IdView)
    requires
        wf(m1),
        wf(m2),
        text_of(m1) == text_of(m2),
    ensures
        m1 == m2,
{
    lemma_parse_round_trip(m1);
    lemma_parse_round_trip(m2);
}

} // verus!
