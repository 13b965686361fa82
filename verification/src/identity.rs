//! A single ed25519 seed is the whole identity of a meshguard node.
//!
//! From that one 32-byte seed come:
//!   * the ed25519 public key, whose bytes are the NodeId peers dial,
//!   * the WireGuard (X25519) static keypair: the secret is the first half of
//!     SHA-512 of the seed, so its public key is the Montgomery form of the
//!     NodeId and a peer derives it from the NodeId alone,
//!   * a deterministic overlay IPv4 address for the tunnel interface.
use vstd::prelude::*;
use vstd::string::StringSliceAdditionalSpecFns;
use vstd::utf8::{encode_utf8, is_ascii_chars, is_ascii_chars_encode_utf8};
use crate::addr::Ipv4Addr;
use crate::error::MeshError;
use crate::transport::iroh::iroh_node_key;
use crate::keys::{
    base32_decode, base32_decode_text, base32_encode, base32_encode_bytes, base64_encode,
    base64_encode_bytes, ed25519_public,
    ed25519_public_key, edwards_to_montgomery, is_base32_symbol, lemma_base32_text_ascii,
    montgomery_of_edwards, random_seed, sha512, sha512_digest, x25519_public, x25519_public_key,
    x25519_secret_of,
};
use crate::text::{
    ascii_lower, ascii_lower_char, ascii_upper, ascii_upper_char, is_ws, lemma_trim_ascii_case, lemma_trim_idempotent,
    lemma_trim_map, lemma_trim_no_ws, lemma_trim_within, lowercase, to_lowercase, to_uppercase, trim, trim_str, uppercase,
};

verus! {

/// The node's secret identity: an ed25519 seed.
#[derive(Clone)]
pub struct Identity {
    seed: [u8; 32],
}

impl View for Identity {
    type V = Seq<u8>;

    /// The 32 bytes of the seed.
    closed spec fn view(&self) -> Seq<u8> {
        self.seed@
    }
}

/// The overlay address of the node whose NodeId is `node_key`: `10.x.y.z`
/// from the first three bytes of SHA-512 of the key, with a last octet of 0
/// replaced by 1.
pub open spec fn overlay_octets(node_key: Seq<u8>) -> Seq<u8> {
    let h = sha512(node_key);
    seq![10u8, h[0], h[1], if h[2] == 0 { 1u8 } else { h[2] }]
}

/// The text of a NodeId: its unpadded base32, lower-cased.
pub open spec fn node_id_text(node_key: Seq<u8>) -> Seq<char> {
    lowercase(base32_encode(node_key))
}

/// A symbol of a NodeId text: `a`-`z` or `2`-`7`.
pub open spec fn is_node_id_symbol(c: char) -> bool {
    ('a' <= c <= 'z') || ('2' <= c <= '7')
}

/// The text that `parse_node_key` decodes: trimmed, then upper-cased.
pub open spec fn node_id_canonical(s: Seq<char>) -> Seq<char> {
    uppercase(trim(s))
}

/// Whether that text is short enough for the base32 decoder.
pub open spec fn decodable_len(t: Seq<char>) -> bool {
    encode_utf8(t).len() <= usize::MAX / 8
}

/// The NodeId bytes that a text denotes, if any.
pub open spec fn parsed_node_key(s: Seq<char>) -> Option<Seq<u8>> {
    let t = node_id_canonical(s);
    if decodable_len(t) {
        match base32_decode(t) {
            Some(b) => if b.len() == 32 {
                Some(b)
            } else {
                None
            },
            None => None,
        }
    } else {
        None
    }
}

impl Identity {
    /// Generates a fresh random identity.
    pub fn generate() -> (r: Identity) {
        Identity::from_seed(random_seed())
    }

    /// The identity with this seed.
    pub fn from_seed(seed: [u8; 32]) -> (r: Identity)
        ensures
            r@ == seed@,
    {
        Identity { seed }
    }

    /// The seed.
    pub fn seed(&self) -> (r: [u8; 32])
        ensures
            r@ == self@,
    {
        self.seed
    }

    /// The ed25519 public key: the raw bytes of the NodeId. Its Montgomery form
    /// is this node's WireGuard public key.
    pub fn node_key(&self) -> (r: [u8; 32])
        ensures
            r@ == ed25519_public(self@),
            edwards_to_montgomery(r@) == Some(x25519_public(x25519_secret_of(self@))),
    {
        ed25519_public_key(&self.seed)
    }

    /// The NodeId as text; `parse_node_key` gives the NodeId back from it, and
    /// iroh reads the same NodeId from it.
    pub fn node_id_string(&self) -> (r: String)
        ensures
            r@ == node_id_text(ed25519_public(self@)),
            parsed_node_key(r@) == Some(ed25519_public(self@)),
            iroh_node_key(r@) == Some(ed25519_public(self@)),
    {
        let key = self.node_key();
        let r = encode_node_key(&key);
        proof {
            let t = r@;
            assert forall|i: int| 0 <= i < t.len() implies !is_ws(#[trigger] t[i]) && '\0' <= t[i]
                <= '\u{7f}' by {
                assert(is_node_id_symbol(t[i]));
            }
            lemma_trim_no_ws(t);
            assert(is_ascii_chars(t));
            is_ascii_chars_encode_utf8(t);
            assert(node_id_canonical(t) == ascii_upper(t));
        }
        r
    }

    /// This node's WireGuard static secret: the first half of SHA-512 of the seed.
    pub fn wg_secret(&self) -> (r: [u8; 32])
        ensures
            r@ == x25519_secret_of(self@),
    {
        let hash = sha512_digest(self.seed.as_slice());
        let mut sk = [0u8; 32];
        let mut i: usize = 0;
        while i < 32
            invariant
                i <= 32,
                hash@ == sha512(self@),
                forall|j: int| 0 <= j < i ==> sk@[j] == hash@[j],
            decreases 32 - i,
        {
            sk[i] = hash[i];
            i += 1;
        }
        assert(sk@ =~= x25519_secret_of(self@));
        sk
    }

    /// This node's WireGuard public key.
    pub fn wg_public(&self) -> (r: [u8; 32])
        ensures
            r@ == x25519_public(x25519_secret_of(self@)),
    {
        x25519_public_key(&self.wg_secret())
    }

    /// This node's WireGuard public key as base64 text, the form WireGuard
    /// tools show.
    pub fn wg_public_base64(&self) -> (r: String)
        ensures
            r@ == base64_encode(x25519_public(x25519_secret_of(self@))),
    {
        let public = self.wg_public();
        base64_encode_bytes(public.as_slice())
    }

    /// The deterministic overlay IPv4 address for the tunnel interface.
    pub fn overlay_ip(&self) -> (r: Ipv4Addr)
        ensures
            r@ == overlay_octets(ed25519_public(self@)),
    {
        overlay_ip_from_node_key(&self.node_key())
    }
}

/// A peer's WireGuard public key from its NodeId (ed25519 public key): the
/// Montgomery form of the Edwards point. Fails when the bytes are not a point.
pub fn wg_public_from_node_key(node_key: &[u8; 32]) -> (r: Result<[u8; 32], MeshError>)
    ensures
        match r {
            Ok(k) => edwards_to_montgomery(node_key@) == Some(k@),
            Err(e) => edwards_to_montgomery(node_key@) is None && e is NotAPoint,
        },
{
    match montgomery_of_edwards(node_key) {
        Some(m) => Ok(m),
        None => Err(MeshError::NotAPoint),
    }
}

/// The deterministic overlay address of a node key: `10.x.y.z`, whose last
/// octet is never 0.
pub fn overlay_ip_from_node_key(node_key: &[u8; 32]) -> (r: Ipv4Addr)
    ensures
        r@ == overlay_octets(node_key@),
        r@[0] == 10,
        r@[3] != 0,
{
    let h = sha512_digest(node_key.as_slice());
    let last = if h[2] == 0 {
        1
    } else {
        h[2]
    };
    Ipv4Addr::new(10, h[0], h[1], last)
}

/// A NodeId text denotes the same key whatever whitespace surrounds it.
pub proof fn lemma_node_id_text_space(s: Seq<char>)
    ensures
        parsed_node_key(trim(s)) == parsed_node_key(s),
{
    lemma_trim_idempotent(s);
}

/// A NodeId text in ASCII denotes the same key whatever the case of its
/// letters: lower-cased or upper-cased, it parses to the same key (or to none).
pub proof fn lemma_node_id_text_case(s: Seq<char>)
    requires
        is_ascii_chars(s),
    ensures
        parsed_node_key(ascii_lower(s)) == parsed_node_key(s),
        parsed_node_key(ascii_upper(s)) == parsed_node_key(s),
{
    lemma_trim_ascii_case(s);
    let t = trim(s);
    assert(ascii_upper(ascii_lower(t)) =~= ascii_upper(t));
    assert(ascii_upper(ascii_upper(t)) =~= ascii_upper(t));
}

/// A base32 symbol lower-cased is ASCII, not whitespace, and upper-cases back.
proof fn lemma_symbol_case(c: char)
    requires
        is_base32_symbol(c),
    ensures
        '\0' <= ascii_lower_char(c) <= '\u{7f}',
        !is_ws(ascii_lower_char(c)),
        ascii_upper_char(ascii_lower_char(c)) == c,
        is_node_id_symbol(ascii_lower_char(c)),
{
}

/// The NodeId text as iroh prints it: unpadded base32, lower-cased. The
/// text parses back to the key.
pub fn encode_node_key(node_key: &[u8; 32]) -> (r: String)
    ensures
        r@ == node_id_text(node_key@),
        r@.len() == 52,
        forall|i: int| 0 <= i < r@.len() ==> is_node_id_symbol(#[trigger] r@[i]),
        parsed_node_key(r@) == Some(node_key@),
{
    let encoded = base32_encode_bytes(node_key.as_slice());
    let r = to_lowercase(encoded.as_str());
    proof {
        let e = encoded@;
        lemma_base32_text_ascii(e);
        assert(r@ == ascii_lower(e));
        assert forall|i: int| 0 <= i < r@.len() implies !is_ws(#[trigger] r@[i]) && '\0' <= r@[i]
            <= '\u{7f}' && is_node_id_symbol(r@[i]) by {
            lemma_symbol_case(e[i]);
        }
        lemma_trim_no_ws(r@);
        assert(is_ascii_chars(r@));
        assert(ascii_upper(r@) =~= e) by {
            assert forall|i: int| 0 <= i < e.len() implies ascii_upper(r@)[i] == e[i] by {
                lemma_symbol_case(e[i]);
            }
        }
        assert(node_id_canonical(r@) == e);
        is_ascii_chars_encode_utf8(e);
        assert(decodable_len(e));
    }
    r
}

/// Parses a NodeId text: surrounding whitespace is ignored and letters of
/// either case are accepted; it must decode to exactly 32 bytes.
pub fn parse_node_key(s: &str) -> (r: Result<[u8; 32], MeshError>)
    ensures
        match r {
            Ok(k) => parsed_node_key(s@) == Some(k@) && base32_encode(k@) == node_id_canonical(s@),
            Err(MeshError::NodeIdTooLong) => !decodable_len(node_id_canonical(s@)),
            Err(MeshError::InvalidNodeId(_)) => decodable_len(node_id_canonical(s@)) && base32_decode(
                node_id_canonical(s@),
            ) is None,
            Err(MeshError::WrongKeyLength(n)) => {
                &&& decodable_len(node_id_canonical(s@))
                &&& base32_decode(node_id_canonical(s@)) matches Some(b)
                &&& b.len() == n
                &&& n != 32
            },
            Err(_) => false,
        },
{
    let t = trim_str(s);
    let upper = to_uppercase(t.as_str());
    assert(upper@ == node_id_canonical(s@));
    if upper.as_str().as_bytes().len() > usize::MAX / 8 {
        return Err(MeshError::NodeIdTooLong);
    }
    let bytes = match base32_decode_text(upper.as_str()) {
        Ok(b) => b,
        Err(e) => {
            return Err(MeshError::InvalidNodeId(e));
        },
    };
    if bytes.len() != 32 {
        return Err(MeshError::WrongKeyLength(bytes.len()));
    }
    let mut out = [0u8; 32];
    let mut i: usize = 0;
    while i < 32
        invariant
            i <= 32,
            bytes@.len() == 32,
            forall|j: int| 0 <= j < i ==> out@[j] == bytes@[j],
        decreases 32 - i,
    {
        out[i] = bytes[i];
        i += 1;
    }
    assert(out@ =~= bytes@);
    Ok(out)
}

} // verus!
