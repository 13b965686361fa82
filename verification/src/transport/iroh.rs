//! The part of the iroh transport that does not touch the network: turning a
//! NodeId text into an iroh `NodeId`.
use vstd::prelude::*;
use vstd::utf8::{encode_utf8, is_ascii_chars, is_ascii_chars_encode_utf8};
use crate::error::MeshError;
use crate::identity::{decodable_len, node_id_canonical, parsed_node_key};
use crate::keys::{all_base32, base32_decode, edwards_to_montgomery, is_base32_symbol};
use crate::text::{
    ascii_upper, ascii_upper_char, lemma_trim_idempotent, trim, trim_str, uppercase,
};

verus! {

/// The declaration of iroh's `PublicKey`, which iroh also calls `NodeId`.
#[verifier::external_type_specification]
#[verifier::external_body]
pub struct ExPublicKey(iroh_base::PublicKey);

/// The declaration of iroh's `KeyParsingError`.
#[verifier::external_type_specification]
#[verifier::external_body]
pub struct ExKeyParsingError(iroh_base::KeyParsingError);

/// A lower-case hexadecimal digit: `0`-`9` or `a`-`f`.
pub open spec fn is_hex_lower(c: char) -> bool {
    ('0' <= c <= '9') || ('a' <= c <= 'f')
}

/// The value of a lower-case hexadecimal digit.
pub open spec fn hex_value(c: char) -> nat {
    if '0' <= c <= '9' {
        (c as nat - '0' as nat) as nat
    } else {
        (c as nat - 'a' as nat + 10) as nat
    }
}

/// The bytes that a lower-case hexadecimal text decodes to (two digits per
/// byte, high digit first), or `None` when it is not lower-case hexadecimal of
/// even length.
pub open spec fn hex_lower_decode(text: Seq<char>) -> Option<Seq<u8>> {
    if text.len() % 2 == 0 && forall|i: int| 0 <= i < text.len() ==> is_hex_lower(#[trigger] text[i]) {
        Some(
            Seq::new(
                text.len() / 2,
                |i: int| (hex_value(text[2 * i]) * 16 + hex_value(text[2 * i + 1])) as u8,
            ),
        )
    } else {
        None
    }
}

/// The key that iroh's `NodeId::from_str` reads from a text, if it accepts it:
/// a text of 64 bytes is read as lower-case hexadecimal, any other as unpadded
/// base32 after upper-casing its ASCII letters; the 32 bytes must be a valid
/// ed25519 point.
pub open spec fn iroh_node_key(text: Seq<char>) -> Option<Seq<u8>> {
    let decoded = if encode_utf8(text).len() == 64 {
        hex_lower_decode(text)
    } else {
        base32_decode(ascii_upper(text))
    };
    match decoded {
        Some(k) => if k.len() == 32 && edwards_to_montgomery(k) is Some {
            Some(k)
        } else {
            None
        },
        None => None,
    }
}

/// An iroh NodeId, held as its 32 key bytes, which are a valid ed25519 point.
pub struct NodeId {
    bytes: [u8; 32],
}

impl View for NodeId {
    type V = Seq<u8>;

    /// The 32 bytes of the key.
    closed spec fn view(&self) -> Seq<u8> {
        self.bytes@
    }
}

impl NodeId {
    /// The bytes of a NodeId are a valid ed25519 point.
    #[verifier::type_invariant]
    spec fn is_point(self) -> bool {
        edwards_to_montgomery(self.bytes@) is Some
    }

    /// The 32 bytes of the key.
    pub fn as_bytes(&self) -> (r: [u8; 32])
        ensures
            r@ == self@,
    {
        self.bytes
    }

    /// The iroh key to dial, made from the NodeId's bytes; it always exists.
    pub fn key(&self) -> (r: Option<iroh_base::PublicKey>)
        ensures
            r is Some,
    {
        proof {
            use_type_invariant(self);
        }
        public_key_from_bytes(&self.bytes)
    }
}

/// `iroh_base::PublicKey::from_bytes`: iroh's key with these bytes, made when
/// they decompress to an ed25519 point (`VerifyingKey::from_bytes`).
#[verifier::external_body]
fn public_key_from_bytes(bytes: &[u8; 32]) -> (r: Option<iroh_base::PublicKey>)
    ensures
        r is Some <==> edwards_to_montgomery(bytes@) is Some,
{
    iroh_base::PublicKey::from_bytes(bytes).ok()
}

/// `<iroh_base::PublicKey as FromStr>::from_str`, giving the parsed key's bytes
/// (`PublicKey::as_bytes`). iroh decodes a 64-byte text as lower-case hex
/// (`HEXLOWER`) and any other after `to_ascii_uppercase` as unpadded base32
/// that must give 32 bytes, then accepts the bytes when they decompress to an
/// ed25519 point (`VerifyingKey::from_bytes`); the key holds those bytes.
#[verifier::external_body]
fn node_id_from_str(text: &str) -> (r: Result<[u8; 32], iroh_base::KeyParsingError>)
    ensures
        match r {
            Ok(b) => iroh_node_key(text@) == Some(b@),
            Err(_) => iroh_node_key(text@) is None,
        },
{
    match text.parse::<iroh_base::PublicKey>() {
        Ok(k) => Ok(*k.as_bytes()),
        Err(e) => Err(e),
    }
}

/// Parses a NodeId text ("23ryys7p...") into an iroh NodeId, ignoring
/// surrounding whitespace: the key iroh reads from the trimmed text.
pub fn parse_node_id(s: &str) -> (r: Result<NodeId, MeshError>)
    ensures
        match r {
            Ok(n) => iroh_node_key(trim(s@)) == Some(n@),
            Err(e) => iroh_node_key(trim(s@)) is None && e is NodeIdRejected,
        },
{
    let t = trim_str(s);
    match node_id_from_str(t.as_str()) {
        Ok(bytes) => Ok(NodeId { bytes }),
        Err(e) => Err(MeshError::NodeIdRejected(e)),
    }
}

/// Surrounding whitespace does not change the NodeId a text denotes: parsing
/// a text and parsing its trimmed form agree.
pub proof fn lemma_node_id_space(s: Seq<char>)
    ensures
        iroh_node_key(trim(trim(s))) == iroh_node_key(trim(s)),
{
    lemma_trim_idempotent(s);
}

/// A character that upper-cases to a base32 symbol is ASCII.
proof fn lemma_symbol_from_ascii(c: char)
    requires
        is_base32_symbol(ascii_upper_char(c)),
    ensures
        '\0' <= c <= '\u{7f}',
{
}

/// A text of base32 symbols that decodes to 32 bytes is 52 symbols long, so
/// an ASCII text of 64 bytes never gives a NodeId key to `parse_node_key`.
proof fn lemma_no_64_byte_key(s: Seq<char>)
    requires
        is_ascii_chars(trim(s)),
        encode_utf8(trim(s)).len() == 64,
    ensures
        parsed_node_key(s) is None,
{
    let t = trim(s);
    is_ascii_chars_encode_utf8(t);
    assert(uppercase(t) == ascii_upper(t));
    assert(node_id_canonical(s).len() == 64);
}

/// The NodeId that iroh reads from a text is the key that `parse_node_key`
/// reads from it:
/// - whenever both accept a text, they read the same key;
/// - when iroh accepts a text whose trimmed form is not 64 bytes long (iroh
///   reads 64 bytes as hexadecimal) and not too long to decode,
///   `parse_node_key` accepts it too;
/// - when an ASCII text gives `parse_node_key` a key, iroh accepts it with the
///   same key exactly when the key is a valid ed25519 point.
pub proof fn lemma_node_id_is_node_key(s: Seq<char>)
    ensures
        iroh_node_key(trim(s)) matches Some(n) ==> (parsed_node_key(s) matches Some(k) ==> n == k),
        encode_utf8(trim(s)).len() != 64 && decodable_len(ascii_upper(trim(s))) ==> (iroh_node_key(
            trim(s),
        ) matches Some(n) ==> parsed_node_key(s) == Some(n)),
        is_ascii_chars(trim(s)) ==> (parsed_node_key(s) matches Some(k) ==> (iroh_node_key(trim(s))
            == Some(k) <==> edwards_to_montgomery(k) is Some)),
{
    let t = trim(s);
    let u = ascii_upper(t);
    if encode_utf8(t).len() != 64 && iroh_node_key(t) is Some {
        assert(base32_decode(u) is Some);
        assert(all_base32(u));
        assert forall|i: int| 0 <= i < t.len() implies '\0' <= #[trigger] t[i] <= '\u{7f}' by {
            assert(is_base32_symbol(u[i]));
            lemma_symbol_from_ascii(t[i]);
        }
        assert(is_ascii_chars(t));
        assert(uppercase(t) == u);
        assert(node_id_canonical(s) == u);
    }
    if encode_utf8(t).len() == 64 && iroh_node_key(t) is Some {
        assert(hex_lower_decode(t) is Some);
        assert forall|i: int| 0 <= i < t.len() implies '\0' <= #[trigger] t[i] <= '\u{7f}' by {
            assert(is_hex_lower(t[i]));
        }
        lemma_no_64_byte_key(s);
    }
    if is_ascii_chars(t) && parsed_node_key(s) is Some {
        assert(uppercase(t) == u);
        assert(node_id_canonical(s) == u);
        if encode_utf8(t).len() == 64 {
            lemma_no_64_byte_key(s);
        }
    }
}

} // verus!
