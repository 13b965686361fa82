//! meshguard: a WireGuard mesh whose peers are addressed by their NodeId.
//!
//! One 32-byte ed25519 seed is a node's whole identity; from it come the NodeId,
//! the WireGuard keypair and a deterministic overlay address. This crate holds
//! the verified core: key and address derivation, NodeId text handling, the
//! tunnel engine's decisions around boringtun, configuration parsing and the
//! command line.
use vstd::prelude::*;

pub mod addr;
pub mod cli;
pub mod config;
pub mod error;
pub mod identity;
pub mod keys;
pub mod text;
pub mod transport;
pub mod tunnel;
pub mod wg_config;

use crate::addr::Ipv4Addr;
use crate::error::MeshError;

verus! {

/// An IPv4 header of 20 bytes from `src` to `dst`: version 4 with a 20-byte
/// header, total length `total` (kept to 16 bits) big-endian, the
/// don't-fragment flag, TTL 64, protocol UDP, and `checksum` in bytes 10..12.
pub open spec fn ipv4_header(src: Seq<u8>, dst: Seq<u8>, total: nat, checksum: nat) -> Seq<u8> {
    seq![
        0x45u8,
        0x00u8,
        ((total / 256) % 256) as u8,
        (total % 256) as u8,
        0x00u8,
        0x00u8,
        0x40u8,
        0x00u8,
        0x40u8,
        0x11u8,
        ((checksum / 256) % 256) as u8,
        (checksum % 256) as u8,
    ] + src + dst
}

/// The `i`-th big-endian 16-bit word of a header.
pub open spec fn header_word(h: Seq<u8>, i: int) -> nat {
    h[2 * i] as nat * 256 + h[2 * i + 1] as nat
}

/// The sum of the ten 16-bit words of a 20-byte header.
pub open spec fn header_word_sum(h: Seq<u8>) -> nat {
    header_word(h, 0) + header_word(h, 1) + header_word(h, 2) + header_word(h, 3)
        + header_word(h, 4) + header_word(h, 5) + header_word(h, 6) + header_word(h, 7)
        + header_word(h, 8) + header_word(h, 9)
}

/// A sum of at most 2^32 - 1 with its carries folded back twice: the ones'
/// complement sum in 16 bits.
pub open spec fn ones_fold(s: nat) -> nat {
    let f = s % 65536 + s / 65536;
    f % 65536 + f / 65536
}

/// The RFC 791 checksum of a header whose checksum field is zero: the ones'
/// complement of the ones' complement sum of its words.
pub open spec fn ipv4_checksum(h: Seq<u8>) -> nat {
    (0xffff - ones_fold(header_word_sum(h))) as nat
}

/// A minimal well-formed IPv4 packet from `src` to `dst` carrying `payload`:
/// the header of `ipv4_header` with its RFC 791 checksum, then the payload.
pub open spec fn ipv4_packet(src: Seq<u8>, dst: Seq<u8>, payload: Seq<u8>) -> Seq<u8> {
    let total = 20 + payload.len();
    ipv4_header(src, dst, total, ipv4_checksum(ipv4_header(src, dst, total, 0))) + payload
}

/// Folding a sum and adding its complement folds to all ones.
proof fn lemma_fold_complement(s: u32)
    requires
        1 <= s <= 655350,
    ensures
        ones_fold(s as nat) <= 0xffff,
        ones_fold((s + (0xffff - ones_fold(s as nat))) as nat) == 0xffff,
{
    let f: u32 = (s % 65536 + s / 65536) as u32;
    let g: u32 = (f % 65536 + f / 65536) as u32;
    assert(f <= 65544);
    assert(g <= 65535);
    let t: u32 = (s + (65535 - g)) as u32;
    assert(f % 65536 + f / 65536 == g);
    assert((t % 65536 + t / 65536) % 65536 + (t % 65536 + t / 65536) / 65536 == 65535)
        by (bit_vector)
        requires
            1 <= s <= 655350,
            f == s % 65536 + s / 65536,
            g == f % 65536 + f / 65536,
            t == s + (65535 - g),
    ;
}

/// The header of every packet that `ipv4_packet` builds checks: the ones'
/// complement sum of its ten words, checksum included, is `0xffff`.
pub proof fn lemma_ipv4_header_checks(src: Seq<u8>, dst: Seq<u8>, payload: Seq<u8>)
    requires
        src.len() == 4,
        dst.len() == 4,
    ensures
        ones_fold(header_word_sum(ipv4_packet(src, dst, payload).subrange(0, 20))) == 0xffff,
{
    let total = 20 + payload.len();
    let base = ipv4_header(src, dst, total, 0);
    let c = ipv4_checksum(base);
    let h = ipv4_header(src, dst, total, c);
    assert(ipv4_packet(src, dst, payload).subrange(0, 20) =~= h);
    let sum = header_word_sum(base);
    assert(header_word(base, 0) == 0x4500);
    assert(1 <= sum <= 655350);
    lemma_fold_complement(sum as u32);
    assert(c <= 0xffff);
    assert(header_word(h, 5) == c) by {
        assert(h[10] == ((c / 256) % 256) as u8);
        assert(h[11] == (c % 256) as u8);
    }
    assert(header_word_sum(h) == sum + c) by {
        assert forall|i: int| 0 <= i < 10 && i != 5 implies header_word(h, i) == header_word(base, i) by {
            assert(h[2 * i] == base[2 * i]);
            assert(h[2 * i + 1] == base[2 * i + 1]);
        }
        assert(header_word(base, 5) == 0);
    }
}

/// The sum of the ten header words with a zero checksum, from the length
/// bytes and the addresses.
fn word_total(hi: u8, lo: u8, s: &[u8; 4], d: &[u8; 4]) -> (sum: u32)
    ensures
        sum == 0x4500 + hi as nat * 256 + lo as nat + 0x4000 + 0x4011 + s@[0] as nat * 256
            + s@[1] as nat + s@[2] as nat * 256 + s@[3] as nat + d@[0] as nat * 256 + d@[1] as nat
            + d@[2] as nat * 256 + d@[3] as nat,
{
    let a: u32 = (hi as u32) * 256 + lo as u32;
    let b: u32 = (s[0] as u32) * 256 + s[1] as u32;
    let c: u32 = (s[2] as u32) * 256 + s[3] as u32;
    let e: u32 = (d[0] as u32) * 256 + d[1] as u32;
    let f: u32 = (d[2] as u32) * 256 + d[3] as u32;
    0x4500 + a + 0x4000 + 0x4011 + b + c + e + f
}

/// The word sum of a header with a zero checksum, term by term.
proof fn lemma_base_sum(src: Seq<u8>, dst: Seq<u8>, total: nat, sum: u32)
    requires
        src.len() == 4,
        dst.len() == 4,
        sum == 0x4500 + ((total / 256) % 256) as u8 as nat * 256 + (total % 256) as u8 as nat
            + 0x4000 + 0x4011 + src[0] as nat * 256 + src[1] as nat + src[2] as nat * 256
            + src[3] as nat + dst[0] as nat * 256 + dst[1] as nat + dst[2] as nat * 256
            + dst[3] as nat,
    ensures
        header_word_sum(ipv4_header(src, dst, total, 0)) == sum,
        1 <= sum <= 655350,
{
    let h = ipv4_header(src, dst, total, 0);
    assert(h[12] == src[0] && h[13] == src[1] && h[14] == src[2] && h[15] == src[3]);
    assert(h[16] == dst[0] && h[17] == dst[1] && h[18] == dst[2] && h[19] == dst[3]);
}

/// Builds a minimal, well-formed IPv4 packet (header and payload) for tests
/// and demonstrations; the header carries its RFC 791 checksum.
pub fn sample_ipv4_packet(src: Ipv4Addr, dst: Ipv4Addr, payload: &[u8]) -> (p: Vec<u8>)
    requires
        payload@.len() <= usize::MAX - 20,
    ensures
        p@ == ipv4_packet(src@, dst@, payload@),
{
    let total_len = 20 + payload.len();
    let hi: u8 = ((total_len / 256) % 256) as u8;
    let lo: u8 = (total_len % 256) as u8;
    let s = src.octets();
    let d = dst.octets();
    let sum: u32 = word_total(hi, lo, &s, &d);
    let folded: u32 = sum % 65536 + sum / 65536;
    let folded: u32 = folded % 65536 + folded / 65536;
    proof {
        lemma_base_sum(src@, dst@, total_len as nat, sum);
        lemma_fold_complement(sum);
        assert(folded == ones_fold(sum as nat));
    }
    let checksum: u32 = 0xffff - folded;
    let mut p: Vec<u8> = Vec::with_capacity(total_len);
    p.push(0x45);  // version 4, IHL 5
    p.push(0x00);  // DSCP/ECN
    p.push(hi);  // total length, big-endian
    p.push(lo);
    p.push(0x00);  // identification
    p.push(0x00);
    p.push(0x40);  // flags (DF), fragment offset
    p.push(0x00);
    p.push(0x40);  // TTL 64
    p.push(0x11);  // protocol UDP (17)
    p.push(((checksum / 256) % 256) as u8);  // header checksum
    p.push((checksum % 256) as u8);
    p.extend_from_slice(s.as_slice());
    p.extend_from_slice(d.as_slice());
    p.extend_from_slice(payload);
    assert(p@ =~= ipv4_packet(src@, dst@, payload@));
    p
}

/// The outcome of a delivery through the tunnel: the number of bytes received
/// when they are exactly the bytes sent, otherwise an error giving both lengths.
pub fn delivered_len(sent: &[u8], received: &[u8]) -> (r: Result<usize, MeshError>)
    ensures
        match r {
            Ok(n) => received@ == sent@ && n == received@.len(),
            Err(MeshError::PacketCorrupted { sent: a, received: b }) => received@ != sent@
                && a == sent@.len() && b == received@.len(),
            Err(_) => false,
        },
{
    let mut same = sent.len() == received.len();
    let mut i: usize = 0;
    while same && i < sent.len()
        invariant
            i <= sent@.len(),
            same ==> sent@.len() == received@.len(),
            same ==> forall|j: int| 0 <= j < i ==> sent@[j] == received@[j],
            !same ==> sent@ != received@,
        decreases sent@.len() - i,
    {
        if sent[i] != received[i] {
            same = false;
        }
        i += 1;
    }
    if same {
        assert(sent@ =~= received@);
        Ok(received.len())
    } else {
        Err(MeshError::PacketCorrupted { sent: sent.len(), received: received.len() })
    }
}

} // verus!
