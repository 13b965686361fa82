//! The cryptographic and encoding primitives that meshguard takes from its
//! outside crates (sha2, ed25519-dalek, curve25519-dalek, x25519 through
//! boringtun, data-encoding, rand). Each result that depends only on the
//! arguments has a name here; the wrappers tie their results to those names.
use vstd::prelude::*;
use vstd::string::StringSliceAdditionalSpecFns;
use vstd::utf8::is_ascii_chars;

verus! {

/// SHA-512 of `data` (64 bytes).
pub uninterp spec fn sha512(data: Seq<u8>) -> Seq<u8>;

/// The ed25519 public key (compressed Edwards point) of a 32-byte seed.
pub uninterp spec fn ed25519_public(seed: Seq<u8>) -> Seq<u8>;

/// The X25519 public key of a 32-byte X25519 secret.
pub uninterp spec fn x25519_public(secret: Seq<u8>) -> Seq<u8>;

/// The Montgomery (X25519) form of a compressed Edwards point, or `None` when
/// the bytes are not a valid point.
pub uninterp spec fn edwards_to_montgomery(point: Seq<u8>) -> Option<Seq<u8>>;

/// The unpadded RFC 4648 base32 text of `data`.
pub uninterp spec fn base32_encode(data: Seq<u8>) -> Seq<char>;

/// The bytes that an unpadded RFC 4648 base32 text made only of alphabet
/// symbols decodes to, or `None` when it is not a valid encoding.
pub uninterp spec fn base32_decode_symbols(text: Seq<char>) -> Option<Seq<u8>>;

/// Whether every character of a text is a base32 symbol.
pub open spec fn all_base32(text: Seq<char>) -> bool {
    forall|i: int| 0 <= i < text.len() ==> is_base32_symbol(#[trigger] text[i])
}

/// The bytes that an unpadded RFC 4648 base32 text decodes to, or `None` when
/// it is not a valid encoding; a character outside the alphabet makes it
/// invalid, and a valid text of `n` bytes is `ceil(8 * n / 5)` symbols long.
pub open spec fn base32_decode(text: Seq<char>) -> Option<Seq<u8>> {
    if all_base32(text) {
        match base32_decode_symbols(text) {
            Some(b) => if text.len() == (8 * b.len() + 4) / 5 {
                Some(b)
            } else {
                None
            },
            None => None,
        }
    } else {
        None
    }
}

/// The padded RFC 4648 base64 text of `data`.
pub uninterp spec fn base64_encode(data: Seq<u8>) -> Seq<char>;

/// A symbol of the base32 alphabet `A`-`Z`, `2`-`7`.
pub open spec fn is_base32_symbol(c: char) -> bool {
    ('A' <= c <= 'Z') || ('2' <= c <= '7')
}

/// The X25519 secret that an ed25519 seed expands to: the first half of its
/// SHA-512.
pub open spec fn x25519_secret_of(seed: Seq<u8>) -> Seq<u8> {
    sha512(seed).subrange(0, 32)
}

/// `sha2::Sha512::digest`.
#[verifier::external_body]
pub(crate) fn sha512_digest(data: &[u8]) -> (r: [u8; 64])
    ensures
        r@ == sha512(data@),
{
    let digest = <sha2::Sha512 as sha2::Digest>::digest(data);
    let mut out = [0u8; 64];
    out.copy_from_slice(digest.as_slice());
    out
}

/// `ed25519_dalek::SigningKey::from_bytes(seed).verifying_key().to_bytes()`.
///
/// The result is named `ed25519_public`. ed25519-dalek documents that the
/// Montgomery form of this key (`VerifyingKey::to_montgomery`) is the X25519
/// public key whose secret is `SigningKey::to_scalar_bytes`, the first half of
/// SHA-512 of the seed; the compressed key always decompresses to that point.
#[verifier::external_body]
pub(crate) fn ed25519_public_key(seed: &[u8; 32]) -> (r: [u8; 32])
    ensures
        r@ == ed25519_public(seed@),
        edwards_to_montgomery(r@) == Some(x25519_public(x25519_secret_of(seed@))),
{
    ed25519_dalek::SigningKey::from_bytes(seed).verifying_key().to_bytes()
}

/// `curve25519_dalek::edwards::CompressedEdwardsY(point).decompress()`,
/// followed by `to_montgomery().to_bytes()` on the point it yields.
#[verifier::external_body]
pub(crate) fn montgomery_of_edwards(point: &[u8; 32]) -> (r: Option<[u8; 32]>)
    ensures
        match r {
            Some(m) => edwards_to_montgomery(point@) == Some(m@),
            None => edwards_to_montgomery(point@) is None,
        },
{
    match curve25519_dalek::edwards::CompressedEdwardsY(*point).decompress() {
        Some(p) => Some(p.to_montgomery().to_bytes()),
        None => None,
    }
}

/// `x25519::PublicKey::from(&x25519::StaticSecret::from(secret))`, as bytes.
#[verifier::external_body]
pub(crate) fn x25519_public_key(secret: &[u8; 32]) -> (r: [u8; 32])
    ensures
        r@ == x25519_public(secret@),
{
    boringtun::x25519::PublicKey::from(&boringtun::x25519::StaticSecret::from(*secret)).to_bytes()
}

/// `data_encoding::BASE32_NOPAD.encode`.
///
/// The result is named `base32_encode`. As the crate documents, its
/// characters are symbols of the alphabet `A`-`Z`, `2`-`7`, its length is
/// `ceil(8 * n / 5)` for `n` input bytes, and decoding it gives the input back.
#[verifier::external_body]
pub(crate) fn base32_encode_bytes(data: &[u8]) -> (r: String)
    requires
        data@.len() <= usize::MAX / 512,
    ensures
        r@ == base32_encode(data@),
        r@.len() == (8 * data@.len() + 4) / 5,
        forall|i: int| 0 <= i < r@.len() ==> is_base32_symbol(#[trigger] r@[i]),
        base32_decode(r@) == Some(data@),
{
    data_encoding::BASE32_NOPAD.encode(data)
}

/// `data_encoding::BASE64.encode`. The result is named `base64_encode`.
#[verifier::external_body]
pub(crate) fn base64_encode_bytes(data: &[u8]) -> (r: String)
    requires
        data@.len() <= usize::MAX / 512,
    ensures
        r@ == base64_encode(data@),
{
    data_encoding::BASE64.encode(data)
}

/// `data_encoding::BASE32_NOPAD.decode(text.as_bytes())`.
///
/// A character outside the alphabet `A`-`Z`, `2`-`7` is an error, as the
/// crate documents; on text made of symbols, whether it succeeds and what it
/// yields are named `base32_decode_symbols`. The crate documents the encoding
/// as canonical: what decodes encodes back to the same text, so a text that
/// decodes to `n` bytes has the length of their encoding, `ceil(8 * n / 5)`
/// (`decode_len` refuses the lengths that no encoding has).
#[verifier::external_body]
pub(crate) fn base32_decode_text(text: &str) -> (r: Result<Vec<u8>, data_encoding::DecodeError>)
    requires
        text.spec_bytes().len() <= usize::MAX / 8,
    ensures
        all_base32(text@) ==> (r is Ok <==> base32_decode_symbols(text@) is Some),
        match r {
            Ok(v) => base32_decode(text@) == Some(v@) && base32_encode(v@) == text@,
            Err(_) => base32_decode(text@) is None,
        },
{
    data_encoding::BASE32_NOPAD.decode(text.as_bytes())
}

/// Fills a 32-byte seed from the operating system's random source
/// (`rand::RngCore::fill_bytes` on `rand::rngs::OsRng`). Nothing is stated of
/// the bytes. The call panics if the operating system cannot provide
/// randomness.
#[verifier::external_body]
pub(crate) fn random_seed() -> (r: [u8; 32]) {
    let mut seed = [0u8; 32];
    rand::RngCore::fill_bytes(&mut rand::rngs::OsRng, &mut seed);
    seed
}

/// `rand::random::<u32>()`. Nothing is stated of the value.
#[verifier::external_body]
pub(crate) fn random_u32() -> (r: u32) {
    rand::random::<u32>()
}

/// The declaration of `data_encoding::DecodeError`, the error of a failed
/// base32 decoding.
#[verifier::external_type_specification]
#[verifier::external_body]
pub struct ExDecodeError(data_encoding::DecodeError);

/// Text of a base32 encoding is ASCII.
pub proof fn lemma_base32_text_ascii(s: Seq<char>)
    requires
        forall|i: int| 0 <= i < s.len() ==> is_base32_symbol(#[trigger] s[i]),
    ensures
        is_ascii_chars(s),
{
    assert forall|i: int| 0 <= i < s.len() implies '\0' <= #[trigger] s[i] <= '\u{7f}' by {
        assert(is_base32_symbol(s[i]));
    }
}

} // verus!
