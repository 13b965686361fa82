use meshguard::config::stored_identity;
use meshguard::error::MeshError;
use meshguard::identity::{
    encode_node_key, overlay_ip_from_node_key, parse_node_key, wg_public_from_node_key, Identity,
};
use meshguard::transport::iroh::parse_node_id;
use sha2::Digest;

#[test]
fn node_id_roundtrips() {
    let id = Identity::generate();
    let s = id.node_id_string();
    let key = parse_node_key(&s).unwrap();
    assert_eq!(key, id.node_key());
}

#[test]
fn peer_wg_key_derives_from_node_id() {
    // A peer computes our WG public key purely from our NodeId, and it must
    // match the WG public key we derive from our own secret.
    let id = Identity::generate();
    let derived = wg_public_from_node_key(&id.node_key()).unwrap();
    assert_eq!(derived, id.wg_public());
}

#[test]
fn seed_round_trips_through_from_seed() {
    let seed = [7u8; 32];
    let id = Identity::from_seed(seed);
    assert_eq!(id.seed(), seed);
    let again = Identity::from_seed(id.seed());
    assert_eq!(again.node_key(), id.node_key());
}

#[test]
fn wg_secret_is_first_half_of_sha512_of_seed() {
    let seed = [42u8; 32];
    let id = Identity::from_seed(seed);
    let h = sha2::Sha512::digest(seed);
    assert_eq!(&id.wg_secret()[..], &h[..32]);
}

#[test]
fn node_key_matches_ed25519_dalek() {
    let seed = [3u8; 32];
    let id = Identity::from_seed(seed);
    let expected = ed25519_dalek::SigningKey::from_bytes(&seed)
        .verifying_key()
        .to_bytes();
    assert_eq!(id.node_key(), expected);
}

#[test]
fn overlay_ip_is_in_ten_slash_eight_and_never_ends_in_zero() {
    for b in 0u8..=255 {
        let id = Identity::from_seed([b; 32]);
        let o = id.overlay_ip().octets();
        assert_eq!(o[0], 10);
        assert_ne!(o[3], 0);
        assert_eq!(o, overlay_ip_from_node_key(&id.node_key()).octets());
    }
}

#[test]
fn overlay_ip_comes_from_sha512_of_node_key() {
    let key = [9u8; 32];
    let h = sha2::Sha512::digest(key);
    let o = overlay_ip_from_node_key(&key).octets();
    let last = if h[2] == 0 { 1 } else { h[2] };
    assert_eq!(o, [10, h[0], h[1], last]);
}

#[test]
fn encode_node_key_of_zero_key_is_lowercase_base32() {
    let s = encode_node_key(&[0u8; 32]);
    assert_eq!(s, "a".repeat(52));
    let s = encode_node_key(&[0xffu8; 32]);
    assert_eq!(s, format!("{}q", "7".repeat(51)));
}

#[test]
fn node_id_string_differs_from_encoding_only_by_case() {
    let id = Identity::from_seed([11u8; 32]);
    let upper = data_encoding::BASE32_NOPAD.encode(&id.node_key());
    assert_eq!(id.node_id_string(), upper.to_lowercase());
}

#[test]
fn parse_node_key_ignores_case_and_surrounding_space() {
    let key = [0x5au8; 32];
    let s = encode_node_key(&key);
    assert_eq!(parse_node_key(&s).unwrap(), key);
    assert_eq!(parse_node_key(&s.to_uppercase()).unwrap(), key);
    assert_eq!(parse_node_key(&format!("  {}\n\t", s)).unwrap(), key);
}

#[test]
fn parse_node_key_rejects_invalid_base32() {
    assert!(matches!(parse_node_key("not base32!"), Err(MeshError::InvalidNodeId(_))));
}

#[test]
fn parse_node_key_rejects_wrong_length() {
    // eight symbols decode to five bytes
    assert!(matches!(parse_node_key("aaaaaaaa"), Err(MeshError::WrongKeyLength(5))));
    assert!(matches!(parse_node_key(""), Err(MeshError::WrongKeyLength(0))));
}

#[test]
fn wg_public_from_node_key_rejects_non_points() {
    let mut rejected = 0;
    for b in 0u8..=255 {
        let mut key = [0u8; 32];
        key[0] = b;
        key[31] = 0x7f;
        match wg_public_from_node_key(&key) {
            Ok(_) => {}
            Err(MeshError::NotAPoint) => rejected += 1,
            Err(e) => panic!("unexpected error {e:?}"),
        }
    }
    assert!(rejected > 0);
}

#[test]
fn stored_identity_reads_back_the_written_seed() {
    let id = Identity::from_seed([21u8; 32]);
    let back = stored_identity(&id.seed()).unwrap();
    assert_eq!(back.seed(), id.seed());
    let mut longer = id.seed().to_vec();
    longer.extend_from_slice(b"trailing");
    assert_eq!(stored_identity(&longer).unwrap().seed(), id.seed());
    assert!(stored_identity(&id.seed()[..31]).is_none());
    assert!(stored_identity(&[]).is_none());
}

#[test]
fn parse_node_id_accepts_an_encoded_key() {
    let id = Identity::from_seed([5u8; 32]);
    let text = format!(" {} ", id.node_id_string());
    let node = parse_node_id(&text).unwrap();
    assert_eq!(node.as_bytes(), id.node_key());
    assert_eq!(node.key().unwrap().as_bytes(), &id.node_key());
}

#[test]
fn parse_node_id_and_parse_node_key_name_the_same_node() {
    let id = Identity::from_seed([6u8; 32]);
    let text = id.node_id_string().to_uppercase();
    let node = parse_node_id(&text).unwrap();
    assert_eq!(node.as_bytes(), parse_node_key(&text).unwrap());
    assert_eq!(node.as_bytes(), id.node_key());
}

#[test]
fn parse_node_id_reads_a_64_character_text_as_hex() {
    let id = Identity::from_seed([7u8; 32]);
    let mut hex = String::new();
    for b in id.node_key() {
        hex.push_str(&format!("{:02x}", b));
    }
    let node = parse_node_id(&hex).unwrap();
    assert_eq!(node.as_bytes(), id.node_key());
    // parse_node_key reads the same text as base32 and does not accept it.
    assert!(parse_node_key(&hex).is_err());
}

#[test]
fn parse_node_id_rejects_garbage() {
    assert!(matches!(parse_node_id("nope"), Err(MeshError::NodeIdRejected(_))));
}

#[test]
fn wg_public_base64_is_standard_base64_of_the_key() {
    let id = Identity::from_seed([8u8; 32]);
    let text = id.wg_public_base64();
    assert_eq!(text.len(), 44);
    assert!(text.ends_with('='));
    assert_eq!(data_encoding::BASE64.decode(text.as_bytes()).unwrap(), id.wg_public().to_vec());
    let zero = Identity::from_seed([0u8; 32]);
    let expected = data_encoding::BASE64.encode(&zero.wg_public());
    assert_eq!(zero.wg_public_base64(), expected);
}
