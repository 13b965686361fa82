use meshguard::addr::Ipv4Addr;
use meshguard::error::MeshError;
use meshguard::identity::Identity;
use meshguard::tunnel::{
    build_tunn, decap_plan, decapsulate_datagram, drain_step, encapsulate_packet,
    handshake_initiation, network_datagram, timer_tick, Decapsulated, TunnOutput,
};
use meshguard::{delivered_len, sample_ipv4_packet};

#[test]
fn sample_packet_has_the_expected_header() {
    let p = sample_ipv4_packet(
        Ipv4Addr::new(10, 1, 2, 3),
        Ipv4Addr::new(10, 4, 5, 6),
        b"hi",
    );
    assert_eq!(
        p,
        vec![
            0x45, 0x00, 0x00, 22, 0x00, 0x00, 0x40, 0x00, 0x40, 0x11, 0x1f, 0xca, 10, 1, 2, 3,
            10, 4, 5, 6, b'h', b'i'
        ]
    );
}

/// The ones' complement sum of the ten header words, carries folded back.
fn header_ones_sum(p: &[u8]) -> u32 {
    let mut s: u32 = 0;
    for i in 0..10 {
        s += (p[2 * i] as u32) * 256 + p[2 * i + 1] as u32;
    }
    while s > 0xffff {
        s = (s & 0xffff) + (s >> 16);
    }
    s
}

#[test]
fn sample_packet_headers_carry_a_valid_checksum() {
    for (src, dst, len) in [
        (Ipv4Addr::new(10, 0, 0, 1), Ipv4Addr::new(10, 0, 0, 2), 2usize),
        (Ipv4Addr::new(255, 255, 255, 255), Ipv4Addr::new(255, 255, 255, 255), 65515),
        (Ipv4Addr::new(0, 0, 0, 0), Ipv4Addr::new(0, 0, 0, 0), 0),
        (Ipv4Addr::new(192, 168, 1, 7), Ipv4Addr::new(10, 99, 3, 1), 1400),
    ] {
        let p = sample_ipv4_packet(src, dst, &vec![0xabu8; len]);
        assert_eq!(header_ones_sum(&p), 0xffff);
    }
}

#[test]
fn sample_packet_length_field_is_big_endian() {
    let payload = vec![0u8; 300];
    let p = sample_ipv4_packet(Ipv4Addr::new(1, 2, 3, 4), Ipv4Addr::new(5, 6, 7, 8), &payload);
    assert_eq!(p.len(), 320);
    assert_eq!(&p[2..4], &[0x01, 0x40]);
}

#[test]
fn delivered_len_reports_corruption() {
    assert_eq!(delivered_len(b"abc", b"abc").unwrap(), 3);
    match delivered_len(b"abc", b"abd") {
        Err(MeshError::PacketCorrupted { sent, received }) => {
            assert_eq!((sent, received), (3, 3))
        }
        other => panic!("unexpected {other:?}"),
    }
    assert!(matches!(
        delivered_len(b"abc", b"ab"),
        Err(MeshError::PacketCorrupted { sent: 3, received: 2 })
    ));
}

#[test]
fn network_datagram_only_passes_network_output() {
    assert_eq!(network_datagram(TunnOutput::WriteToNetwork(vec![1, 2])), Some(vec![1, 2]));
    assert_eq!(network_datagram(TunnOutput::WriteToTunnelV4(vec![1])), None);
    assert_eq!(network_datagram(TunnOutput::Done), None);
    assert_eq!(network_datagram(TunnOutput::Error), None);
}

#[test]
fn decap_plan_routes_each_kind_of_output() {
    let d = decap_plan(TunnOutput::WriteToNetwork(vec![9]));
    assert_eq!(d.to_send, vec![vec![9]]);
    assert_eq!(d.to_write, None);
    let d = decap_plan(TunnOutput::WriteToTunnelV6(vec![6]));
    assert!(d.to_send.is_empty());
    assert_eq!(d.to_write, Some(vec![6]));
    let d = decap_plan(TunnOutput::Error);
    assert!(d.to_send.is_empty() && d.to_write.is_none());
}

#[test]
fn drain_step_queues_datagrams_until_something_else() {
    let mut d = Decapsulated { to_send: vec![vec![1]], to_write: None };
    assert!(drain_step(&mut d, TunnOutput::WriteToNetwork(vec![2])));
    assert!(!drain_step(&mut d, TunnOutput::Done));
    assert_eq!(d.to_send, vec![vec![1], vec![2]]);
}

#[test]
fn build_tunn_rejects_a_node_key_that_is_not_a_point() {
    let id = Identity::from_seed([1u8; 32]);
    let mut found = false;
    for b in 0u8..=255 {
        let mut key = [0u8; 32];
        key[0] = b;
        key[31] = 0x7f;
        if let Err(e) = build_tunn(&id, &key, None) {
            assert!(matches!(e, MeshError::NotAPoint));
            found = true;
        }
    }
    assert!(found);
}

#[test]
fn handshake_and_packet_round_trip_in_process() {
    let alice = Identity::generate();
    let bob = Identity::generate();
    let mut ta = build_tunn(&alice, &bob.node_key(), Some(5)).unwrap();
    let mut tb = build_tunn(&bob, &alice.node_key(), Some(5)).unwrap();

    let init = handshake_initiation(&mut ta).expect("handshake initiation");
    assert_eq!(init.len(), 148);
    assert_eq!(ta.largest_queued(), 0);
    // A second initiation is not sent while one is in progress.
    assert!(handshake_initiation(&mut ta).is_none());

    let resp = decapsulate_datagram(&mut tb, &init);
    assert_eq!(resp.to_send.len(), 1);
    assert!(resp.to_write.is_none());

    let keepalive = decapsulate_datagram(&mut ta, &resp.to_send[0]);
    assert_eq!(keepalive.to_send.len(), 1);
    let nothing = decapsulate_datagram(&mut tb, &keepalive.to_send[0]);
    assert!(nothing.to_send.is_empty() && nothing.to_write.is_none());

    let packet = sample_ipv4_packet(alice.overlay_ip(), bob.overlay_ip(), b"meshguard-hello");
    let datagram = encapsulate_packet(&mut ta, &packet).expect("encrypted datagram");
    let got = decapsulate_datagram(&mut tb, &datagram);
    assert!(got.to_send.is_empty());
    assert_eq!(got.to_write, Some(packet.clone()));
    assert_eq!(delivered_len(&packet, got.to_write.as_ref().unwrap()).unwrap(), 35);

    // The timers have nothing urgent right after the handshake.
    let _ = timer_tick(&mut ta);
}

#[test]
fn packets_queued_before_the_handshake_are_flushed_after_it() {
    let alice = Identity::generate();
    let bob = Identity::generate();
    let mut ta = build_tunn(&alice, &bob.node_key(), None).unwrap();
    let mut tb = build_tunn(&bob, &alice.node_key(), None).unwrap();

    // A small packet leaves too little room for a handshake initiation: it is
    // queued and nothing goes out.
    let small = sample_ipv4_packet(alice.overlay_ip(), bob.overlay_ip(), b"queued");
    assert!(encapsulate_packet(&mut ta, &small).is_none());
    assert_eq!(ta.largest_queued(), small.len());
    // A larger one is queued too, and this time a handshake initiation goes out.
    let packet = sample_ipv4_packet(alice.overlay_ip(), bob.overlay_ip(), &[7u8; 100]);
    let init = encapsulate_packet(&mut ta, &packet).expect("handshake initiation");
    assert_eq!(init.len(), 148);
    assert_eq!(ta.largest_queued(), packet.len());
    let resp = decapsulate_datagram(&mut tb, &init);
    assert_eq!(resp.to_send.len(), 1);
    // Alice answers with a keepalive, then flushes both queued packets in order.
    let out = decapsulate_datagram(&mut ta, &resp.to_send[0]);
    assert_eq!(out.to_send.len(), 3);
    let _ = decapsulate_datagram(&mut tb, &out.to_send[0]);
    let got = decapsulate_datagram(&mut tb, &out.to_send[1]);
    assert_eq!(got.to_write, Some(small));
    let got = decapsulate_datagram(&mut tb, &out.to_send[2]);
    assert_eq!(got.to_write, Some(packet));
}

#[test]
fn junk_datagrams_lead_to_nothing() {
    let alice = Identity::from_seed([1u8; 32]);
    let bob = Identity::from_seed([2u8; 32]);
    let mut t = build_tunn(&alice, &bob.node_key(), None).unwrap();
    let mut long_data = vec![4u8, 0, 0, 0];
    long_data.extend_from_slice(&[0u8; 3000]);
    for junk in [vec![], vec![1u8; 3000], vec![9u8; 10], vec![4u8, 0, 0, 0], long_data] {
        let d = decapsulate_datagram(&mut t, &junk);
        assert!(d.to_send.is_empty());
        assert!(d.to_write.is_none());
    }
}
