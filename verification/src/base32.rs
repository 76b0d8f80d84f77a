use vstd::prelude::*;

use crate::error::ParseError;

verus! {

// Base32 (lower-case RFC 4648 alphabet, no padding) over byte sequences.
// Bytes are read most-significant bit first and regrouped into 5-bit
// symbols; a final group of 1, 2, 3 or 4 bytes yields 2, 4, 5 or 7 symbols.

/// The byte at `i`, or zero past the end: absent trailing bytes of a final
/// group act as zero bits.
pub open spec fn pad_byte(s: Seq<u8>, i: int) -> u8 {
    if 0 <= i < s.len() {
        s[i]
    } else {
        0
    }
}

/// Symbol 0 of a group: the top five bits of byte 0.
pub open spec fn enc0(b0: u8) -> u8 {
    b0 >> 3
}

pub open spec fn enc1(b0: u8, b1: u8) -> u8 {
    ((b0 & 7) << 2) | (b1 >> 6)
}

pub open spec fn enc2(b1: u8) -> u8 {
    (b1 >> 1) & 31
}

pub open spec fn enc3(b1: u8, b2: u8) -> u8 {
    ((b1 & 1) << 4) | (b2 >> 4)
}

pub open spec fn enc4(b2: u8, b3: u8) -> u8 {
    ((b2 & 15) << 1) | (b3 >> 7)
}

pub open spec fn enc5(b3: u8) -> u8 {
    (b3 >> 2) & 31
}

pub open spec fn enc6(b3: u8, b4: u8) -> u8 {
    ((b3 & 3) << 3) | (b4 >> 5)
}

pub open spec fn enc7(b4: u8) -> u8 {
    b4 & 31
}

/// Byte 0 of a group, rebuilt from symbols 0 and 1.
pub open spec fn dec0(s0: u8, s1: u8) -> u8 {
    (s0 << 3) | (s1 >> 2)
}

pub open spec fn dec1(s1: u8, s2: u8, s3: u8) -> u8 {
    ((s1 & 3) << 6) | (s2 << 1) | (s3 >> 4)
}

pub open spec fn dec2(s3: u8, s4: u8) -> u8 {
    ((s3 & 15) << 4) | (s4 >> 1)
}

pub open spec fn dec3(s4: u8, s5: u8, s6: u8) -> u8 {
    ((s4 & 1) << 7) | (s5 << 2) | (s6 >> 3)
}

pub open spec fn dec4(s6: u8, s7: u8) -> u8 {
    ((s6 & 7) << 5) | s7
}

/// Symbol `i` of a group whose (zero-padded) bytes are `b0 .. b4`.
pub open spec fn sym_at(i: int, b0: u8, b1: u8, b2: u8, b3: u8, b4: u8) -> u8 {
    if i == 0 {
        enc0(b0)
    } else if i == 1 {
        enc1(b0, b1)
    } else if i == 2 {
        enc2(b1)
    } else if i == 3 {
        enc3(b1, b2)
    } else if i == 4 {
        enc4(b2, b3)
    } else if i == 5 {
        enc5(b3)
    } else if i == 6 {
        enc6(b3, b4)
    } else {
        enc7(b4)
    }
}

/// Byte `i` of a group whose (zero-padded) symbols are `s0 .. s7`.
pub open spec fn byte_at(i: int, s0: u8, s1: u8, s2: u8, s3: u8, s4: u8, s5: u8, s6: u8, s7: u8) -> u8 {
    if i == 0 {
        dec0(s0, s1)
    } else if i == 1 {
        dec1(s1, s2, s3)
    } else if i == 2 {
        dec2(s3, s4)
    } else if i == 3 {
        dec3(s4, s5, s6)
    } else {
        dec4(s6, s7)
    }
}

/// The symbols of one group of 1 to 5 bytes: 2, 4, 5, 7 or 8 symbols.
pub open spec fn enc_group(b: Seq<u8>) -> Seq<u8> {
    Seq::new(
        ((8 * b.len() + 4) / 5) as nat,
        |i: int|
            sym_at(i, pad_byte(b, 0), pad_byte(b, 1), pad_byte(b, 2), pad_byte(b, 3), pad_byte(b, 4)),
    )
}

/// The bytes of one group of 2, 4, 5, 7 or 8 symbols: 1, 2, 3, 4 or 5 bytes.
pub open spec fn dec_group(sy: Seq<u8>) -> Seq<u8> {
    Seq::new(
        (5 * sy.len() / 8) as nat,
        |i: int|
            byte_at(
                i,
                pad_byte(sy, 0),
                pad_byte(sy, 1),
                pad_byte(sy, 2),
                pad_byte(sy, 3),
                pad_byte(sy, 4),
                pad_byte(sy, 5),
                pad_byte(sy, 6),
                pad_byte(sy, 7),
            ),
    )
}

/// The base32 symbol sequence of a byte sequence: full groups of five bytes,
/// then one shorter final group if bytes remain.
pub open spec fn b32_symbols(s: Seq<u8>) -> Seq<u8>
    decreases s.len(),
{
    if s.len() == 0 {
        Seq::empty()
    } else if s.len() >= 5 {
        enc_group(s.take(5)) + b32_symbols(s.skip(5))
    } else {
        enc_group(s)
    }
}

/// The bytes a base32 symbol sequence stands for, or nothing when the final
/// group has 1, 3 or 6 symbols, a count no byte sequence produces.
pub open spec fn dec_syms(sy: Seq<u8>) -> Option<Seq<u8>>
    decreases sy.len(),
{
    if sy.len() == 0 {
        Some(Seq::empty())
    } else if sy.len() >= 8 {
        match dec_syms(sy.skip(8)) {
            None => None,
            Some(r) => Some(dec_group(sy.take(8)) + r),
        }
    } else if sy.len() == 2 || sy.len() == 4 || sy.len() == 5 || sy.len() == 7 {
        Some(dec_group(sy))
    } else {
        None
    }
}

/// Every symbol of a group is a 5-bit value.
pub proof fn lemma_enc_group_bounded(b: Seq<u8>)
    ensures
        forall|i: int| 0 <= i < enc_group(b).len() ==> enc_group(b)[i] < 32,
{
    let b0 = pad_byte(b, 0);
    let b1 = pad_byte(b, 1);
    let b2 = pad_byte(b, 2);
    let b3 = pad_byte(b, 3);
    let b4 = pad_byte(b, 4);
    assert(enc0(b0) < 32 && enc1(b0, b1) < 32 && enc2(b1) < 32 && enc3(b1, b2) < 32
        && enc4(b2, b3) < 32 && enc5(b3) < 32 && enc6(b3, b4) < 32 && enc7(b4) < 32)
        by (bit_vector);
    assert forall|i: int| 0 <= i < enc_group(b).len() implies enc_group(b)[i] < 32 by {
        assert(enc_group(b)[i] == sym_at(i, b0, b1, b2, b3, b4));
    }
}

/// Every symbol the encoding yields is a 5-bit value.
pub proof fn lemma_b32_symbols_bounded(s: Seq<u8>)
    ensures
        forall|i: int| 0 <= i < b32_symbols(s).len() ==> b32_symbols(s)[i] < 32,
    decreases s.len(),
{
    if s.len() == 0 {
    } else if s.len() >= 5 {
        lemma_enc_group_bounded(s.take(5));
        lemma_b32_symbols_bounded(s.skip(5));
        let g = enc_group(s.take(5));
        let r = b32_symbols(s.skip(5));
        assert forall|i: int| 0 <= i < b32_symbols(s).len() implies b32_symbols(s)[i] < 32 by {
            if i < g.len() {
                assert((g + r)[i] == g[i]);
            } else {
                assert((g + r)[i] == r[i - g.len()]);
            }
        }
    } else {
        lemma_enc_group_bounded(s);
        assert(b32_symbols(s) == enc_group(s));
    }
}

/// Decoding one group inverts encoding it.
pub proof fn lemma_group_round_trip(b: Seq<u8>)
    requires
        1 <= b.len() <= 5,
    ensures
        dec_group(enc_group(b)) =~= b,
{
    let b0 = pad_byte(b, 0);
    let b1 = pad_byte(b, 1);
    let b2 = pad_byte(b, 2);
    let b3 = pad_byte(b, 3);
    let b4 = pad_byte(b, 4);
    assert(dec0(enc0(b0), enc1(b0, b1)) == b0) by (bit_vector);
    assert(dec1(enc1(b0, b1), enc2(b1), enc3(b1, b2)) == b1) by (bit_vector);
    assert(dec2(enc3(b1, b2), enc4(b2, b3)) == b2) by (bit_vector);
    assert(dec3(enc4(b2, b3), enc5(b3), enc6(b3, b4)) == b3) by (bit_vector);
    assert(dec4(enc6(b3, b4), enc7(b4)) == b4) by (bit_vector);
    let sy = enc_group(b);
    assert(dec_group(sy).len() == b.len());
    assert forall|j: int| 0 <= j < b.len() implies dec_group(sy)[j] == b[j] by {
        assert(dec_group(sy)[j] == byte_at(
            j,
            pad_byte(sy, 0),
            pad_byte(sy, 1),
            pad_byte(sy, 2),
            pad_byte(sy, 3),
            pad_byte(sy, 4),
            pad_byte(sy, 5),
            pad_byte(sy, 6),
            pad_byte(sy, 7),
        ));
    }
}

/// Decoding inverts encoding for every byte sequence.
pub proof fn lemma_symbols_round_trip(s: Seq<u8>)
    ensures
        dec_syms(b32_symbols(s)) == Some(s),
    decreases s.len(),
{
    if s.len() == 0 {
        assert(s =~= Seq::<u8>::empty());
    } else if s.len() >= 5 {
        lemma_symbols_round_trip(s.skip(5));
        lemma_group_round_trip(s.take(5));
        let g = enc_group(s.take(5));
        let rest = b32_symbols(s.skip(5));
        assert(g.len() == 8);
        assert((g + rest).take(8) =~= g);
        assert((g + rest).skip(8) =~= rest);
        assert(dec_group((g + rest).take(8)) + s.skip(5) =~= s);
    } else {
        lemma_group_round_trip(s);
        assert(b32_symbols(s).len() == (8 * s.len() + 4) / 5);
    }
}

/// The character that stands for a 5-bit symbol: `a`-`z` for 0 to 25, `2`-`7`
/// for 26 to 31.
pub open spec fn sym_char(v: u8) -> char {
    if v < 26 {
        ((v + 97) as u8) as char
    } else {
        ((v + 24) as u8) as char
    }
}

/// The 5-bit symbol a character stands for, or nothing for a character
/// outside the alphabet.
pub open spec fn char_sym(c: char) -> Option<u8> {
    let n = c as u32;
    if 97 <= n <= 122 {
        Some((n - 97) as u8)
    } else if 50 <= n <= 55 {
        Some(((n - 50) + 26) as u8)
    } else {
        None
    }
}

/// Reading a symbol's character back yields the symbol.
pub proof fn lemma_char_round_trip(v: u8)
    requires
        v < 32,
    ensures
        char_sym(sym_char(v)) == Some(v),
{
}

pub fn symbol_to_char(v: u8) -> (c: char)
    requires
        v < 32,
    ensures
        c == sym_char(v),
{
    if v < 26 {
        (v + 97) as char
    } else {
        (v + 24) as char
    }
}

pub fn char_to_symbol(c: char) -> (r: Option<u8>)
    ensures
        r == char_sym(c),
        r is Some ==> r->0 < 32,
{
    let n = c as u32;
    if 97 <= n && n <= 122 {
        Some((n - 97) as u8)
    } else if 50 <= n && n <= 55 {
        Some(((n - 50) + 26) as u8)
    } else {
        None
    }
}

/// Regroups bytes into base32 symbols.
pub fn encode_symbols(bytes: &Vec<u8>) -> (r: Vec<u8>)
    ensures
        r@ == b32_symbols(bytes@),
{
    let mut out: Vec<u8> = Vec::new();
    let mut i: usize = 0;
    proof {
        assert(bytes@.skip(0) =~= bytes@);
    }
    while bytes.len() - i >= 5
        invariant
            i <= bytes@.len(),
            out@ + b32_symbols(bytes@.skip(i as int)) =~= b32_symbols(bytes@),
        decreases bytes@.len() - i,
    {
        let b0 = bytes[i];
        let b1 = bytes[i + 1];
        let b2 = bytes[i + 2];
        let b3 = bytes[i + 3];
        let b4 = bytes[i + 4];
        out.push(b0 >> 3);
        out.push(((b0 & 7) << 2) | (b1 >> 6));
        out.push((b1 >> 1) & 31);
        out.push(((b1 & 1) << 4) | (b2 >> 4));
        out.push(((b2 & 15) << 1) | (b3 >> 7));
        out.push((b3 >> 2) & 31);
        out.push(((b3 & 3) << 3) | (b4 >> 5));
        out.push(b4 & 31);
        proof {
            let t = bytes@.skip(i as int);
            assert(t.take(5) =~= bytes@.subrange(i as int, i as int + 5));
            assert(enc_group(t.take(5)) =~= seq![
                enc0(b0),
                enc1(b0, b1),
                enc2(b1),
                enc3(b1, b2),
                enc4(b2, b3),
                enc5(b3),
                enc6(b3, b4),
                enc7(b4),
            ]);
            assert(t.skip(5) =~= bytes@.skip(i as int + 5));
        }
        i = i + 5;
    }
    let rem = bytes.len() - i;
    if rem > 0 {
        let b0 = bytes[i];
        let b1 = if rem > 1 { bytes[i + 1] } else { 0 };
        let b2 = if rem > 2 { bytes[i + 2] } else { 0 };
        let b3 = if rem > 3 { bytes[i + 3] } else { 0 };
        let b4: u8 = 0;
        out.push(b0 >> 3);
        out.push(((b0 & 7) << 2) | (b1 >> 6));
        if rem >= 2 {
            out.push((b1 >> 1) & 31);
            out.push(((b1 & 1) << 4) | (b2 >> 4));
        }
        if rem >= 3 {
            out.push(((b2 & 15) << 1) | (b3 >> 7));
        }
        if rem >= 4 {
            out.push((b3 >> 2) & 31);
            out.push(((b3 & 3) << 3) | (b4 >> 5));
        }
        proof {
            let t = bytes@.skip(i as int);
            assert(pad_byte(t, 0) == b0);
            assert(pad_byte(t, 1) == b1);
            assert(pad_byte(t, 2) == b2);
            assert(pad_byte(t, 3) == b3);
            assert(pad_byte(t, 4) == b4);
            assert(out@ =~= b32_symbols(bytes@));
        }
    } else {
        proof {
            assert(bytes@.skip(i as int) =~= Seq::<u8>::empty());
            assert(out@ =~= b32_symbols(bytes@));
        }
    }
    out
}

/// Regroups base32 symbols into bytes; fails when the final group has an
/// impossible symbol count.
pub fn decode_symbols(syms: &Vec<u8>) -> (r: Result<Vec<u8>, ParseError>)
    ensures
        (match dec_syms(syms@) {
            Some(b) => r matches Ok(v) && v@ == b,
            None => r == Err::<Vec<u8>, ParseError>(ParseError::BadLength),
        }),
{
    let n = syms.len();
    let mut out: Vec<u8> = Vec::new();
    let mut i: usize = 0;
    proof {
        assert(syms@.skip(0) =~= syms@);
    }
    while n - i >= 8
        invariant
            i <= n,
            n == syms@.len(),
            (match dec_syms(syms@.skip(i as int)) {
                Some(rest) => dec_syms(syms@) == Some(out@ + rest),
                None => dec_syms(syms@) is None,
            }),
        decreases n - i,
    {
        let s0 = syms[i];
        let s1 = syms[i + 1];
        let s2 = syms[i + 2];
        let s3 = syms[i + 3];
        let s4 = syms[i + 4];
        let s5 = syms[i + 5];
        let s6 = syms[i + 6];
        let s7 = syms[i + 7];
        out.push((s0 << 3) | (s1 >> 2));
        out.push(((s1 & 3) << 6) | (s2 << 1) | (s3 >> 4));
        out.push(((s3 & 15) << 4) | (s4 >> 1));
        out.push(((s4 & 1) << 7) | (s5 << 2) | (s6 >> 3));
        out.push(((s6 & 7) << 5) | s7);
        proof {
            let t = syms@.skip(i as int);
            assert(dec_group(t.take(8)) =~= seq![
                dec0(s0, s1),
                dec1(s1, s2, s3),
                dec2(s3, s4),
                dec3(s4, s5, s6),
                dec4(s6, s7),
            ]);
            assert(t.skip(8) =~= syms@.skip(i as int + 8));
        }
        i = i + 8;
    }
    let t = n - i;
    if t == 0 {
        proof {
            assert(syms@.skip(i as int) =~= Seq::<u8>::empty());
        }
        return Ok(out);
    }
    if t == 1 || t == 3 || t == 6 {
        return Err(ParseError::BadLength);
    }
    let s0 = syms[i];
    let s1 = if t > 1 { syms[i + 1] } else { 0 };
    let s2 = if t > 2 { syms[i + 2] } else { 0 };
    let s3 = if t > 3 { syms[i + 3] } else { 0 };
    let s4 = if t > 4 { syms[i + 4] } else { 0 };
    let s5 = if t > 5 { syms[i + 5] } else { 0 };
    let s6 = if t > 6 { syms[i + 6] } else { 0 };
    let ghost prefix = out@;
    out.push((s0 << 3) | (s1 >> 2));
    if t >= 4 {
        out.push(((s1 & 3) << 6) | (s2 << 1) | (s3 >> 4));
    }
    if t >= 5 {
        out.push(((s3 & 15) << 4) | (s4 >> 1));
    }
    if t >= 7 {
        out.push(((s4 & 1) << 7) | (s5 << 2) | (s6 >> 3));
    }
    proof {
        let tl = syms@.skip(i as int);
        assert(pad_byte(tl, 0) == s0);
        assert(pad_byte(tl, 1) == s1);
        assert(pad_byte(tl, 2) == s2);
        assert(pad_byte(tl, 3) == s3);
        assert(pad_byte(tl, 4) == s4);
        assert(pad_byte(tl, 5) == s5);
        assert(pad_byte(tl, 6) == s6);
        assert(pad_byte(tl, 7) == 0);
        assert(dec_syms(tl) == Some(dec_group(tl)));
        assert(out@ =~= prefix + dec_group(tl));
    }
    Ok(out)
}

} // verus!
