use vstd::prelude::*;

use crate::error::ParseError;

verus! {

/// Unsigned LEB128 encoding of a natural number: seven value bits per byte,
/// least significant group first, continuation bit set on every byte but the
/// last.
pub open spec fn varint_bytes(n: nat) -> Seq<u8>
    decreases n,
{
    if n < 128 {
        seq![n as u8]
    } else {
        seq![((n % 128) + 128) as u8] + varint_bytes(n / 128)
    }
}

/// What an LEB128 decoder yields on a byte sequence: the decoded value and the
/// number of bytes consumed, or nothing when the continuation bit never
/// terminates before the bytes run out.
pub open spec fn varint_decode(s: Seq<u8>) -> Option<(nat, nat)>
    decreases s.len(),
{
    if s.len() == 0 {
        None
    } else if s[0] < 128 {
        Some((s[0] as nat, 1nat))
    } else {
        match varint_decode(s.skip(1)) {
            None => None,
            Some(vk) => Some((((s[0] - 128) + 128 * vk.0) as nat, (vk.1 + 1) as nat)),
        }
    }
}

/// A successful decode consumes at least one and at most all of the bytes.
pub proof fn lemma_varint_decode_bounds(s: Seq<u8>)
    ensures
        match varint_decode(s) {
            Some(vk) => 1 <= vk.1 <= s.len(),
            None => true,
        },
    decreases s.len(),
{
    if s.len() > 0 && s[0] >= 128 {
        lemma_varint_decode_bounds(s.skip(1));
    }
}

/// Decoding inverts encoding, whatever bytes follow the encoded varint.
pub proof fn lemma_varint_round_trip(n: nat, rest: Seq<u8>)
    ensures
        varint_decode(varint_bytes(n) + rest) == Some((n, varint_bytes(n).len())),
    decreases n,
{
    let s = varint_bytes(n) + rest;
    if n < 128 {
        assert(s[0] == n as u8);
    } else {
        lemma_varint_round_trip(n / 128, rest);
        assert(s[0] == ((n % 128) + 128) as u8);
        assert(s.skip(1) =~= varint_bytes(n / 128) + rest);
        vstd::arithmetic::div_mod::lemma_fundamental_div_mod(n as int, 128);
        assert((s[0] - 128) + 128 * (n / 128) == n);
    }
}

/// Appends the LEB128 encoding of `value` to `out`.
pub fn encode_varint(value: u64, out: &mut Vec<u8>)
    ensures
        final(out)@ == old(out)@ + varint_bytes(value as nat),
{
    let mut n: u64 = value;
    while n >= 128
        invariant
            out@ + varint_bytes(n as nat) =~= old(out)@ + varint_bytes(value as nat),
        decreases n,
    {
        out.push((n % 128 + 128) as u8);
        proof {
            assert(varint_bytes(n as nat) == seq![((n as nat % 128) + 128) as u8]
                + varint_bytes(n as nat / 128));
        }
        n = n / 128;
    }
    out.push(n as u8);
    proof {
        assert(varint_bytes(n as nat) == seq![n as u8]);
        assert(out@ =~= old(out)@ + varint_bytes(value as nat));
    }
}

/// Decodes one LEB128 varint from `s` starting at `pos`: the value and the
/// count of bytes consumed.
pub fn decode_varint(s: &Vec<u8>, pos: usize) -> (r: Result<(u64, usize), ParseError>)
    requires
        pos <= s@.len(),
    ensures
        (match varint_decode(s@.skip(pos as int)) {
            None => r == Err::<(u64, usize), ParseError>(ParseError::Truncated),
            Some(vk) => if vk.0 > u64::MAX {
                r == Err::<(u64, usize), ParseError>(ParseError::MalformedVarint)
            } else {
                r == Ok::<(u64, usize), ParseError>((vk.0 as u64, vk.1 as usize))
            },
        }),
    decreases s@.len() - pos,
{
    if pos == s.len() {
        return Err(ParseError::Truncated);
    }
    let b = s[pos];
    proof {
        assert(s@.skip(pos as int)[0] == b);
    }
    if b < 128 {
        Ok((b as u64, 1))
    } else {
        proof {
            assert(s@.skip(pos as int).skip(1) =~= s@.skip(pos as int + 1));
        }
        match decode_varint(s, pos + 1) {
            Err(e) => Err(e),
            Ok((v, k)) => {
                proof {
                    lemma_varint_decode_bounds(s@.skip(pos as int + 1));
                }
                let low: u64 = (b - 128) as u64;
                if v <= (u64::MAX - low) / 128 {
                    Ok((low + 128 * v, k + 1))
                } else {
                    Err(ParseError::MalformedVarint)
                }
            },
        }
    }
}

} // verus!
