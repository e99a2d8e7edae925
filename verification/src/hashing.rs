//! SHA-256 digests rendered as lowercase hexadecimal keys.
use vstd::prelude::*;
use crate::text::push_char;
use sha2::Digest;

verus! {

/// The SHA-256 digest of `data`, as the `sha2` crate computes it.
pub uninterp spec fn sha256_of(data: Seq<u8>) -> Seq<u8>;

/// `Sha256::digest`. The contract claims that the 32 returned bytes are the digest of `data`.
#[verifier::external_body]
pub(crate) fn sha256_digest(data: &[u8]) -> (res: Vec<u8>)
    ensures
        res@ == sha256_of(data@),
        res@.len() == 32,
{
    sha2::Sha256::digest(data).to_vec()
}

/// Lowercase hexadecimal digit for `n < 16`.
pub open spec fn hex_digit(n: nat) -> char {
    if n < 10 {
        crate::text::digit_char(n)
    } else if n == 10 {
        'a'
    } else if n == 11 {
        'b'
    } else if n == 12 {
        'c'
    } else if n == 13 {
        'd'
    } else if n == 14 {
        'e'
    } else {
        'f'
    }
}

/// Two lowercase hexadecimal digits per byte (`{:x}` of a digest).
pub open spec fn hex_of(bytes: Seq<u8>) -> Seq<char>
    decreases bytes.len(),
{
    if bytes.len() == 0 {
        Seq::empty()
    } else {
        hex_of(bytes.drop_last()) + seq![
            hex_digit((bytes.last() / 16) as nat),
            hex_digit((bytes.last() % 16) as nat),
        ]
    }
}

/// Full lowercase hexadecimal SHA-256 of the UTF-8 bytes of `s`.
pub open spec fn sha256_hex_spec(s: Seq<char>) -> Seq<char> {
    hex_of(sha256_of(vstd::utf8::encode_utf8(s)))
}

/// The first 16 hexadecimal digits of the SHA-256 of `s`: the short key used for cache and
/// history identifiers.
pub open spec fn short_hash(s: Seq<char>) -> Seq<char> {
    sha256_hex_spec(s).take(16)
}

pub proof fn lemma_hex_len(bytes: Seq<u8>)
    ensures
        hex_of(bytes).len() == 2 * bytes.len(),
    decreases bytes.len(),
{
    if bytes.len() > 0 {
        lemma_hex_len(bytes.drop_last());
    }
}

fn hex_char(n: u8) -> (c: char)
    requires
        n < 16,
    ensures
        c == hex_digit(n as nat),
{
    if n < 10 {
        crate::text::digit(n as u64)
    } else if n == 10 {
        'a'
    } else if n == 11 {
        'b'
    } else if n == 12 {
        'c'
    } else if n == 13 {
        'd'
    } else if n == 14 {
        'e'
    } else {
        'f'
    }
}

/// Lowercase hexadecimal rendering of `bytes`.
pub fn to_hex(bytes: &Vec<u8>) -> (res: String)
    ensures
        res@ == hex_of(bytes@),
{
    let mut res = String::new();
    let mut i: usize = 0;
    while i < bytes.len()
        invariant
            i <= bytes@.len(),
            res@ == hex_of(bytes@.take(i as int)),
        decreases bytes@.len() - i,
    {
        let b = bytes[i];
        assert(bytes@.take(i + 1).drop_last() =~= bytes@.take(i as int));
        push_char(&mut res, hex_char(b / 16));
        push_char(&mut res, hex_char(b % 16));
        i = i + 1;
    }
    assert(bytes@.take(bytes@.len() as int) =~= bytes@);
    res
}

/// Lowercase hexadecimal SHA-256 of the UTF-8 encoding of `s`.
pub fn sha256_hex(s: &str) -> (res: String)
    ensures
        res@ == sha256_hex_spec(s@),
        res@.len() == 64,
{
    let digest = sha256_digest(s.as_bytes());
    proof {
        lemma_hex_len(digest@);
    }
    to_hex(&digest)
}

/// The 16-digit short key of `s`.
pub fn short_key(s: &str) -> (res: String)
    ensures
        res@ == short_hash(s@),
        res@.len() == 16,
{
    let full = sha256_hex(s);
    let v = crate::text::chars_of(full.as_str());
    let r = crate::text::string_from_range(&v, 0, 16);
    assert(v@.subrange(0, 16) =~= v@.take(16));
    r
}

} // verus!
