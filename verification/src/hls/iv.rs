//! Initialization vectors of encrypted segments.

use crate::hls::error::{HlsError, HlsErrorView};
use crate::model;
use crate::text;
use vstd::prelude::*;

verus! {

/// The value of a hexadecimal digit, in either case.
pub open spec fn hex_value(c: char) -> Option<nat> {
    if '0' <= c && c <= '9' {
        Some((c as nat - '0' as nat) as nat)
    } else if 'a' <= c && c <= 'f' {
        Some((c as nat - 'a' as nat + 10) as nat)
    } else if 'A' <= c && c <= 'F' {
        Some((c as nat - 'A' as nat + 10) as nat)
    } else {
        None
    }
}

/// Whether a text is a run of hexadecimal digit pairs.
pub open spec fn is_hex(s: Seq<char>) -> bool {
    &&& s.len() % 2 == 0
    &&& forall|i: int| 0 <= i < s.len() ==> hex_value(#[trigger] s[i]) is Some
}

/// The bytes that a run of hexadecimal digit pairs denotes.
pub open spec fn hex_bytes(s: Seq<char>) -> Seq<u8> {
    Seq::new(
        s.len() / 2,
        |i: int| (hex_value(s[2 * i])->0 * 16 + hex_value(s[2 * i + 1])->0) as u8,
    )
}

/// Calls `hex::decode`: each pair of hexadecimal digits, in either case, becomes
/// a byte, the first digit being the higher half. It fails on any other
/// character and on an odd number of digits.
#[verifier::external_body]
fn decode_hex(s: &str) -> (out: Option<Vec<u8>>)
    ensures
        match out {
            Some(bytes) => is_hex(s@) && bytes@ == hex_bytes(s@),
            None => !is_hex(s@),
        },
{
    hex::decode(s).ok()
}

/// A number as `len` bytes, the highest first.
pub open spec fn be_bytes(n: nat, len: nat) -> Seq<u8>
    decreases len,
{
    if len == 0 {
        Seq::empty()
    } else {
        be_bytes(n / 256, (len - 1) as nat).push((n % 256) as u8)
    }
}

/// The number that bytes denote, the highest first.
pub open spec fn be_value(bytes: Seq<u8>) -> nat
    decreases bytes.len(),
{
    if bytes.len() == 0 {
        0
    } else {
        be_value(bytes.drop_last()) * 256 + bytes.last() as nat
    }
}

/// The attribute without its `0x`, where it has one.
pub open spec fn iv_digits(raw: Seq<char>) -> Seq<char> {
    if raw.len() >= 2 && raw[0] == '0' && raw[1] == 'x' {
        raw.skip(2)
    } else {
        raw
    }
}

/// The initialization vector: the `IV` attribute where it states one of 16
/// bytes, else the media sequence number. An attribute that is not hexadecimal
/// is an error.
pub open spec fn iv_of(raw: Option<Seq<char>>, media_sequence: u64) -> Result<
    Seq<u8>,
    HlsErrorView,
> {
    let digits = match raw {
        Some(raw) => iv_digits(raw),
        None => Seq::empty(),
    };
    if digits.len() > 0 && !is_hex(digits) {
        Err(HlsErrorView::Playlist("bad IV"@))
    } else if digits.len() == 32 {
        Ok(hex_bytes(digits))
    } else {
        Ok(be_bytes(media_sequence as nat, 16))
    }
}

/// The initialization vector from the `IV` attribute of a playlist, or the media
/// sequence number as 16 bytes, the highest first.
pub fn parse_iv(raw: &Option<String>, media_sequence: u64) -> (out: Result<[u8; 16], HlsError>)
    ensures
        match out {
            Ok(iv) => iv_of(model::text_view(*raw), media_sequence) == Ok::<Seq<u8>, HlsErrorView>(iv@),
            Err(e) => iv_of(model::text_view(*raw), media_sequence) == Err::<Seq<u8>, HlsErrorView>(e@),
        },
{
    let chars = match raw {
        Some(raw) => text::chars_of(raw.as_str()),
        None => Vec::new(),
    };
    let from: usize = if chars.len() >= 2 && chars[0] == '0' && chars[1] == 'x' {
        2
    } else {
        0
    };
    let digits = text::slice_of(&chars, from, chars.len());
    assert(raw is Some ==> digits@ =~= iv_digits(chars@));
    assert(raw is None ==> digits@ =~= Seq::empty());
    if digits.len() > 0 {
        match decode_hex(text::string_of(&digits).as_str()) {
            Some(bytes) => {
                if bytes.len() == 16 {
                    let mut iv: [u8; 16] = [0; 16];
                    let mut i: usize = 0;
                    while i < 16
                        invariant
                            i <= 16,
                            bytes.len() == 16,
                            iv@.take(i as int) == bytes@.take(i as int),
                        decreases 16 - i,
                    {
                        iv[i] = bytes[i];
                        i += 1;
                        assert(iv@.take(i as int) =~= bytes@.take(i as int));
                    }
                    assert(iv@.take(16) =~= iv@ && bytes@.take(16) =~= bytes@);
                    return Ok(iv);
                }
            },
            None => {
                return Err(HlsError::Playlist("bad IV".to_owned()));
            },
        }
    }
    Ok(sequence_iv(media_sequence))
}

/// A media sequence number as 16 bytes, the highest first.
fn sequence_iv(media_sequence: u64) -> (out: [u8; 16])
    ensures
        out@ == be_bytes(media_sequence as nat, 16),
{
    let mut iv: [u8; 16] = [0; 16];
    let mut n: u64 = media_sequence;
    let mut at: usize = 16;
    assert(iv@.skip(16) =~= Seq::empty());
    assert(be_bytes(n as nat, 16) + iv@.skip(16) =~= be_bytes(n as nat, 16));
    while at > 0
        invariant
            at <= 16,
            be_bytes(media_sequence as nat, 16) == be_bytes(n as nat, at as nat) + iv@.skip(
                at as int,
            ),
        decreases at,
    {
        let ghost before = iv@;
        let ghost m = n as nat;
        iv[at - 1] = (n % 256) as u8;
        n = n / 256;
        at -= 1;
        proof {
            let byte = (m % 256) as u8;
            assert(iv@.skip(at as int) =~= seq![byte] + before.skip(at + 1));
            assert(be_bytes(m, (at + 1) as nat) == be_bytes(m / 256, at as nat).push(byte));
            assert(be_bytes(m / 256, at as nat) + iv@.skip(at as int) =~= be_bytes(
                m,
                (at + 1) as nat,
            ) + before.skip(at + 1));
        }
    }
    assert(iv@.skip(0) =~= iv@);
    assert(be_bytes(n as nat, 0) + iv@.skip(0) =~= iv@);
    iv
}

/// A number written as bytes is read back from them, as far as they can hold
/// it.
proof fn lemma_be_round_trip(n: nat, len: nat)
    requires
        n < vstd::arithmetic::power::pow(256, len),
    ensures
        be_bytes(n, len).len() == len,
        be_value(be_bytes(n, len)) == n,
    decreases len,
{
    reveal(vstd::arithmetic::power::pow);
    if len > 0 {
        let p = vstd::arithmetic::power::pow(256, (len - 1) as nat);
        assert(vstd::arithmetic::power::pow(256, len) == 256 * p);
        assert(n / 256 < p);
        lemma_be_round_trip(n / 256, (len - 1) as nat);
        assert(be_bytes(n, len).drop_last() =~= be_bytes(n / 256, (len - 1) as nat));
    }
}

/// Without an `IV` attribute the initialization vector is the media sequence
/// number as a 128-bit number, the highest byte first.
pub proof fn lemma_default_iv(media_sequence: u64)
    ensures
        iv_of(None, media_sequence) matches Ok(iv) && iv.len() == 16 && be_value(iv)
            == media_sequence,
{
    assert(vstd::arithmetic::power::pow(256, 16) > u64::MAX) by {
        reveal(vstd::arithmetic::power::pow);
        reveal_with_fuel(vstd::arithmetic::power::pow, 17);
    }
    lemma_be_round_trip(media_sequence as nat, 16);
}

} // verus!
