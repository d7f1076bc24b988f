//! SHA-256 digests, HMAC-SHA256 tags and their hexadecimal text.
//!
//! The digests are computed by the `sha2` and `hmac` crates and are named here, not
//! described; the hexadecimal text of the `hex` crate is stated exactly.
use vstd::prelude::*;
use hmac::{Hmac, Mac};
use sha2::{Digest, Sha256};
use crate::text::{is_ascii_hex, push_char};

verus! {

#[verifier::external_type_specification]
#[verifier::external_body]
pub struct ExFromHexError(hex::FromHexError);

#[verifier::external_type_specification]
#[verifier::external_body]
pub struct ExInvalidLength(hmac::digest::InvalidLength);

/// The SHA-256 digest of a byte string.
pub uninterp spec fn sha256_of(data: Seq<u8>) -> Seq<u8>;

/// The HMAC-SHA256 tag of a message under a key.
pub uninterp spec fn hmac_sha256_of(key: Seq<u8>, message: Seq<u8>) -> Seq<u8>;

/// The lower-case hexadecimal digit of a value below 16.
pub open spec fn hex_digit(d: int) -> char {
    if d < 10 {
        ((d + 48) as u8) as char
    } else {
        ((d + 87) as u8) as char
    }
}

/// The value of a hexadecimal digit, of either case.
pub open spec fn hex_value(c: char) -> int {
    if '0' <= c && c <= '9' {
        (c as int) - 48
    } else if 'a' <= c && c <= 'f' {
        (c as int) - 87
    } else {
        (c as int) - 55
    }
}

/// Two lower-case hexadecimal digits per byte, the high one first (`hex::encode`).
pub open spec fn hex_text(b: Seq<u8>) -> Seq<char> {
    Seq::new(
        2 * b.len(),
        |i: int|
            if i % 2 == 0 {
                hex_digit(b[i / 2] as int / 16)
            } else {
                hex_digit(b[i / 2] as int % 16)
            },
    )
}

/// Text that `hex::decode` accepts: an even number of hexadecimal digits.
pub open spec fn is_hex_text(s: Seq<char>) -> bool {
    s.len() % 2 == 0 && forall|i: int| 0 <= i < s.len() ==> is_ascii_hex(#[trigger] s[i])
}

/// The bytes that hexadecimal text stands for.
pub open spec fn unhex(s: Seq<char>) -> Seq<u8> {
    Seq::new(s.len() / 2, |i: int| (hex_value(s[2 * i]) * 16 + hex_value(s[2 * i + 1])) as u8)
}

/// `sha256:` followed by the hexadecimal digest of the bytes.
pub open spec fn canonical_hash_text(data: Seq<u8>) -> Seq<char> {
    "sha256:"@ + hex_text(sha256_of(data))
}

/// The shape of a canonical hash: `sha256:` and 64 lower-case hexadecimal digits.
pub open spec fn is_sha256_hash_text(s: Seq<char>) -> bool {
    &&& s.len() == 71
    &&& s.take(7) == "sha256:"@
    &&& forall|i: int| 7 <= i < 71 ==> crate::text::is_lower_hex(#[trigger] s[i])
}

/// `Sha256::digest`: its result is named, and is 32 bytes long.
#[verifier::external_body]
pub(crate) fn sha256_digest(data: &[u8]) -> (r: Vec<u8>)
    ensures
        r@ == sha256_of(data@),
        r@.len() == 32,
{
    Sha256::digest(data).to_vec()
}

/// `hex::encode`: two lower-case digits per byte.
#[verifier::external_body]
pub(crate) fn hex_encode(data: &[u8]) -> (r: String)
    ensures
        r@ == hex_text(data@),
{
    hex::encode(data)
}

/// `hex::decode`: accepts an even number of hexadecimal digits of either case and
/// gives the bytes they stand for.
#[verifier::external_body]
pub(crate) fn hex_decode(text: &str) -> (r: Result<Vec<u8>, hex::FromHexError>)
    ensures
        r is Ok <==> is_hex_text(text@),
        r matches Ok(v) ==> v@ == unhex(text@),
{
    hex::decode(text)
}

/// `Hmac::<Sha256>::new_from_slice`, then `update` and `finalize`: the tag of a
/// message under a key. `new_from_slice` accepts a key of any length (a long key
/// is hashed first), so the result is always `Ok`.
#[verifier::external_body]
pub(crate) fn hmac_sha256(key: &[u8], message: &[u8]) -> (r: Result<Vec<u8>, hmac::digest::InvalidLength>)
    ensures
        r is Ok,
        r matches Ok(v) ==> v@ == hmac_sha256_of(key@, message@),
{
    let mut mac = <Hmac<Sha256> as Mac>::new_from_slice(key)?;
    mac.update(message);
    Ok(mac.finalize().into_bytes().to_vec())
}

/// `Hmac::<Sha256>::new_from_slice`, `update`, then `Mac::verify_slice`: whether
/// `tag` is the message's tag under the key (a tag of another length is not).
#[verifier::external_body]
pub(crate) fn hmac_sha256_verify(key: &[u8], message: &[u8], tag: &[u8]) -> (r: Result<
    bool,
    hmac::digest::InvalidLength,
>)
    ensures
        r is Ok,
        r matches Ok(b) ==> b == (tag@ == hmac_sha256_of(key@, message@)),
{
    let mut mac = <Hmac<Sha256> as Mac>::new_from_slice(key)?;
    mac.update(message);
    Ok(mac.verify_slice(tag).is_ok())
}

/// The canonical hash of canonical JSON bytes: `sha256:` and the hexadecimal
/// SHA-256 digest.
pub fn canonical_hash(canonical_json: &[u8]) -> (r: String)
    ensures
        r@ == canonical_hash_text(canonical_json@),
        is_sha256_hash_text(r@),
{
    let digest = sha256_digest(canonical_json);
    let hex = hex_encode(digest.as_slice());
    let mut out = String::new();
    push_char(&mut out, 's');
    push_char(&mut out, 'h');
    push_char(&mut out, 'a');
    push_char(&mut out, '2');
    push_char(&mut out, '5');
    push_char(&mut out, '6');
    push_char(&mut out, ':');
    let hv = crate::text::chars_of(hex.as_str());
    let mut i: usize = 0;
    let ghost head = out@;
    proof {
        reveal_strlit("sha256:");
        assert(head == "sha256:"@);
    }
    while i < hv.len()
        invariant
            i <= hv@.len(),
            out@ == head + hv@.take(i as int),
        decreases hv@.len() - i,
    {
        push_char(&mut out, hv[i]);
        proof {
            assert(hv@.take(i + 1) == hv@.take(i as int).push(hv@[i as int]));
        }
        i += 1;
    }
    proof {
        assert(hv@.take(i as int) == hv@);
        assert(out@.take(7) =~= "sha256:"@);
        assert forall|k: int| 7 <= k < 71 implies crate::text::is_lower_hex(#[trigger] out@[k]) by {
            let j = k - 7;
            assert(out@[k] == hv@[j]);
            let v = if j % 2 == 0 {
                digest@[j / 2] as int / 16
            } else {
                digest@[j / 2] as int % 16
            };
            assert(0 <= v < 16);
        }
    }
    out
}

/// Hexadecimal text decodes back to the bytes it was made from.
pub proof fn lemma_hex_round_trip(b: Seq<u8>)
    ensures
        is_hex_text(hex_text(b)),
        unhex(hex_text(b)) == b,
{
    let t = hex_text(b);
    assert forall|i: int| 0 <= i < t.len() implies is_ascii_hex(#[trigger] t[i]) by {
        let v = if i % 2 == 0 {
            b[i / 2] as int / 16
        } else {
            b[i / 2] as int % 16
        };
        assert(0 <= v < 16);
    }
    assert forall|i: int| 0 <= i < b.len() implies #[trigger] unhex(t)[i] == b[i] by {
        assert((2 * i) % 2 == 0);
        assert((2 * i + 1) % 2 == 1);
        assert((2 * i) / 2 == i);
        assert((2 * i + 1) / 2 == i);
        let hi = b[i] as int / 16;
        let lo = b[i] as int % 16;
        assert(hex_value(hex_digit(hi)) == hi);
        assert(hex_value(hex_digit(lo)) == lo);
        assert(hi * 16 + lo == b[i] as int);
    }
    assert(unhex(t) =~= b);
}

} // verus!
