//! SHA-256 digests and their lowercase hex rendering.
use vstd::prelude::*;
use sha2::Digest;

verus! {

/// The SHA-256 digest of a message.
pub uninterp spec fn sha256_digest(message: Seq<u8>) -> Seq<u8>;

/// SHA-256 of `message` (`sha2::Sha256::digest`).
///
/// Trusted: the digest is named by `sha256_digest` of the message and is 32 bytes long (the
/// output size of `Sha256`); nothing else about the bytes is stated.
#[verifier::external_body]
pub(crate) fn sha256(message: &[u8]) -> (res: Vec<u8>)
    ensures
        res@ == sha256_digest(message@),
        res@.len() == 32,
{
    sha2::Sha256::digest(message).to_vec()
}

/// The lowercase hex digit of a value below 16.
pub open spec fn hex_digit(v: int) -> char {
    if v < 10 {
        (v + 48) as char
    } else {
        (v + 87) as char
    }
}

/// Each byte as two lowercase hex digits, high nibble first.
pub open spec fn hex_text(bytes: Seq<u8>) -> Seq<char>
    decreases bytes.len(),
{
    if bytes.len() == 0 {
        Seq::empty()
    } else {
        hex_text(bytes.drop_last()) + seq![hex_digit((bytes.last() as int) / 16), hex_digit((bytes.last() as int) % 16)]
    }
}

proof fn lemma_hex_text_len(bytes: Seq<u8>)
    ensures
        hex_text(bytes).len() == 2 * bytes.len(),
    decreases bytes.len(),
{
    if bytes.len() > 0 {
        lemma_hex_text_len(bytes.drop_last());
    }
}

/// Lowercase hex encoding (`hex::encode`).
///
/// Trusted: the text is `hex_text` of the bytes, which is how the crate's encoder writes them
/// (its table `0123456789abcdef`, high nibble then low nibble of each byte).
#[verifier::external_body]
pub(crate) fn hex_encode(bytes: &[u8]) -> (res: String)
    ensures
        res@ == hex_text(bytes@),
{
    hex::encode(bytes)
}

/// The hex rendering of the SHA-256 digest of a string's UTF-8 bytes, cut to 16 characters.
pub open spec fn short_hash_text(s: Seq<char>) -> Seq<char> {
    hex_text(sha256_digest(vstd::utf8::encode_utf8(s))).take(16)
}

/// The first 16 hex characters of the SHA-256 of `s`.
pub fn short_hash(s: &str) -> (res: String)
    ensures
        res@ == short_hash_text(s@),
{
    let digest = sha256(s.as_bytes());
    let full = hex_encode(digest.as_slice());
    proof {
        lemma_hex_text_len(digest@);
    }
    let mut out = String::new();
    let mut i: usize = 0;
    while i < 16
        invariant
            full@ == hex_text(digest@),
            full@.len() == 64,
            i <= 16,
            out@ == full@.take(i as int),
        decreases 16 - i,
    {
        out.push(vstd::string::StrSliceExecFns::get_char(full.as_str(), i));
        assert(full@.take(i + 1) =~= full@.take(i as int).push(full@[i as int]));
        i = i + 1;
    }
    out
}

} // verus!
