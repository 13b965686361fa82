//! The WireGuard engine's decisions around boringtun's `Tunn` state machine.
//!
//! The application runs three concurrent loops over a transport and a packet
//! source (encapsulate, decapsulate, timers). Each turn of a loop is one
//! function here: it calls boringtun and decides what goes to the network and
//! what goes to the packet sink. boringtun's results depend on the tunnel's
//! hidden state, the clock and randomness. A `Tunnel` therefore keeps, in ghost
//! state, the keys it was made with and a log of every call made to boringtun
//! with its result: the functions that make the calls state what they handed
//! to boringtun and what they did with each result, and the functions that
//! decide on a result (`network_datagram`, `decap_plan`, `drain_step`) are exact.
use vstd::prelude::*;
use crate::error::MeshError;
use crate::identity::{wg_public_from_node_key, Identity};
use crate::keys::{edwards_to_montgomery, random_u32, x25519_secret_of};

verus! {

/// The declaration of boringtun's tunnel state machine.
#[verifier::external_type_specification]
#[verifier::external_body]
pub struct ExTunn(boringtun::noise::Tunn);

/// What one call of boringtun's tunnel produced, with the bytes copied out.
pub enum TunnOutput {
    /// Nothing to do.
    Done,
    /// boringtun reported an error.
    Error,
    /// A datagram to send to the peer.
    WriteToNetwork(Vec<u8>),
    /// A decrypted IPv4 packet for the packet sink.
    WriteToTunnelV4(Vec<u8>),
    /// A decrypted IPv6 packet for the packet sink.
    WriteToTunnelV6(Vec<u8>),
}

/// Whether every byte string in a result is at most `n` bytes long.
pub open spec fn output_within(r: TunnOutput, n: nat) -> bool {
    match r {
        TunnOutput::WriteToNetwork(p) => p@.len() <= n,
        TunnOutput::WriteToTunnelV4(p) => p@.len() <= n,
        TunnOutput::WriteToTunnelV6(p) => p@.len() <= n,
        _ => true,
    }
}

/// Whether a datagram is a WireGuard data message: message type 4 (a
/// little-endian `u32`) and at least 32 bytes.
pub open spec fn is_data_message(d: Seq<u8>) -> bool {
    d.len() >= 32 && d[0] == 4 && d[1] == 0 && d[2] == 0 && d[3] == 0
}

/// What one received datagram leads to: datagrams to send back, in order, and
/// at most one decrypted packet to deliver.
pub struct Decapsulated {
    pub to_send: Vec<Vec<u8>>,
    pub to_write: Option<Vec<u8>>,
}

/// Size of the buffer that a handshake initiation is written into.
pub const HANDSHAKE_BUF_LEN: usize = 256;

/// Room that an encapsulated packet takes beyond the packet itself.
pub const ENCAP_OVERHEAD: usize = 64;

/// Size of the buffers for decapsulation and timer output.
pub const DATAGRAM_BUF_LEN: usize = 1600;

/// Longest data message whose plaintext fits `DATAGRAM_BUF_LEN`: boringtun
/// decrypts a data message (16 bytes of header, then the ciphertext) into the
/// buffer.
pub const MAX_DATAGRAM_LEN: usize = 1616;

/// How many times a decapsulation is followed by an empty call to flush
/// queued packets, at most. boringtun keeps at most 256 queued packets and each
/// flush call sends one of them or ends the flush.
pub const FLUSH_LIMIT: usize = 257;

/// The packets that a boringtun tunnel holds queued until a session exists,
/// oldest first.
pub uninterp spec fn tunn_queue(t: boringtun::noise::Tunn) -> Seq<Seq<u8>>;

/// boringtun's bound on its queue (`MAX_QUEUE_DEPTH`): a packet that would
/// make the queue longer is dropped.
pub const MAX_QUEUED: usize = 256;

/// A call made to boringtun's tunnel; `room` is the length of the buffer it
/// was given to write into.
pub enum TunnCall {
    /// `format_handshake_initiation` with this `force_resend`.
    Initiation { force_resend: bool, room: nat },
    /// `encapsulate` of this cleartext packet.
    Encapsulate { packet: Seq<u8>, room: nat },
    /// `decapsulate` of this datagram (empty: a flush of queued packets).
    Decapsulate { datagram: Seq<u8>, room: nat },
    /// `update_timers`.
    UpdateTimers { room: nat },
}

/// A decapsulation call of `datagram` with `room` bytes to write into.
pub open spec fn decap_call(datagram: Seq<u8>, room: nat) -> TunnCall {
    TunnCall::Decapsulate { datagram, room }
}

/// The room for flush calls while every queued packet is at most `bound`
/// bytes long: `DATAGRAM_BUF_LEN`, or the longest packet plus 32 bytes of
/// overhead when that is more.
pub open spec fn flush_room(bound: nat) -> nat {
    if bound + 32 <= DATAGRAM_BUF_LEN {
        DATAGRAM_BUF_LEN as nat
    } else {
        bound + 32
    }
}

/// The room for decapsulating a received datagram of `n` bytes:
/// `DATAGRAM_BUF_LEN`, or the plaintext length of a longer data message; an
/// empty datagram is a flush and gets the flush room.
pub open spec fn first_room(n: nat, bound: nat) -> nat {
    if n == 0 {
        flush_room(bound)
    } else if n <= MAX_DATAGRAM_LEN {
        DATAGRAM_BUF_LEN as nat
    } else {
        (n - 16) as nat
    }
}

/// The larger of the two rooms: no result of a decapsulation is longer.
pub open spec fn reply_room(n: nat, bound: nat) -> nat {
    if first_room(n, bound) >= flush_room(bound) {
        first_room(n, bound)
    } else {
        flush_room(bound)
    }
}

/// Whether a result is a WireGuard handshake initiation: 148 bytes of message
/// type 1 (a little-endian `u32`).
pub open spec fn is_initiation(out: TunnOutput) -> bool {
    match out {
        TunnOutput::WriteToNetwork(p) => p@.len() == 148 && p@[0] == 1 && p@[1] == 0 && p@[2] == 0
            && p@[3] == 0,
        _ => false,
    }
}

/// What a tunnel was made with.
pub struct TunnParams {
    /// Our X25519 static secret.
    pub secret: Seq<u8>,
    /// The peer's X25519 static public key.
    pub peer_public: Seq<u8>,
    /// The persistent keepalive interval in seconds, if any.
    pub keepalive: Option<u16>,
    /// Our local sender index.
    pub index: u32,
}

/// A boringtun tunnel together with what it was made with and the log of the
/// calls made to it.
pub struct Tunnel {
    tunn: boringtun::noise::Tunn,
    params: Ghost<TunnParams>,
    log: Ghost<Seq<(TunnCall, TunnOutput)>>,
    largest_queued: usize,
}

/// Whether a result is a data message to send: boringtun yields one from
/// `encapsulate` exactly when a session exists, and otherwise queues the packet.
pub open spec fn sends_data(out: TunnOutput) -> bool {
    match out {
        TunnOutput::WriteToNetwork(p) => is_data_message(p@),
        _ => false,
    }
}

/// The packet that a call may have left in boringtun's queue.
pub open spec fn queued_by(entry: (TunnCall, TunnOutput)) -> Option<Seq<u8>> {
    match entry.0 {
        TunnCall::Encapsulate { packet, .. } => if sends_data(entry.1) {
            None
        } else {
            Some(packet)
        },
        _ => None,
    }
}

/// Whether every packet that the calls of `log` may have queued, plus 32 bytes
/// of overhead, fits in `n` bytes.
pub open spec fn queue_fits(log: Seq<(TunnCall, TunnOutput)>, n: nat) -> bool {
    forall|i: int|
        0 <= i < log.len() ==> (#[trigger] queued_by(log[i]) matches Some(p) ==> p.len() + 32 <= n)
}

/// Whether `new` is `old` with one more call, `call`.
pub open spec fn one_call(
    old: Seq<(TunnCall, TunnOutput)>,
    new: Seq<(TunnCall, TunnOutput)>,
    call: TunnCall,
) -> bool {
    new.len() == old.len() + 1 && new.drop_last() == old && new.last().0 == call
}

/// Whether a result is a datagram to send.
pub open spec fn is_network(out: TunnOutput) -> bool {
    out is WriteToNetwork
}

/// The datagram that a result asks to send, if any.
pub open spec fn datagram_of(out: TunnOutput) -> Option<Vec<u8>> {
    match out {
        TunnOutput::WriteToNetwork(p) => Some(p),
        _ => None,
    }
}

/// The decrypted packet that a result delivers, if any.
pub open spec fn delivered(out: TunnOutput) -> Option<Vec<u8>> {
    match out {
        TunnOutput::WriteToTunnelV4(p) => Some(p),
        TunnOutput::WriteToTunnelV6(p) => Some(p),
        _ => None,
    }
}

/// Every result of boringtun is passed on unchanged: a datagram to send is
/// sent as it is, whatever its length or type (keepalives, handshakes and data
/// alike); a decrypted packet, IPv4 or IPv6, is delivered as it is; nothing
/// else is sent or delivered.
pub proof fn lemma_results_passed_on(p: Vec<u8>)
    ensures
        datagram_of(TunnOutput::WriteToNetwork(p)) == Some(p),
        datagram_of(TunnOutput::WriteToTunnelV4(p)) is None,
        datagram_of(TunnOutput::WriteToTunnelV6(p)) is None,
        datagram_of(TunnOutput::Done) is None,
        datagram_of(TunnOutput::Error) is None,
        delivered(TunnOutput::WriteToTunnelV4(p)) == Some(p),
        delivered(TunnOutput::WriteToTunnelV6(p)) == Some(p),
        delivered(TunnOutput::WriteToNetwork(p)) is None,
        delivered(TunnOutput::Done) is None,
        delivered(TunnOutput::Error) is None,
{
}

/// The datagrams of a run of results are those of its results in order: none
/// for no result, and one more result adds its datagram, if it has one, at
/// the end, whatever its length or type.
pub proof fn lemma_sent_datagrams_step(outs: Seq<TunnOutput>, out: TunnOutput)
    ensures
        sent_datagrams(Seq::<TunnOutput>::empty()) == Seq::<Vec<u8>>::empty(),
        sent_datagrams(outs.push(out)) == match out {
            TunnOutput::WriteToNetwork(p) => sent_datagrams(outs).push(p),
            _ => sent_datagrams(outs),
        },
{
    assert(outs.push(out).drop_last() =~= outs);
}

/// The results of a run of calls.
pub open spec fn outputs(calls: Seq<(TunnCall, TunnOutput)>) -> Seq<TunnOutput> {
    calls.map_values(|e: (TunnCall, TunnOutput)| e.1)
}

/// The datagrams that a run of results asks to send, in order.
pub open spec fn sent_datagrams(outs: Seq<TunnOutput>) -> Seq<Vec<u8>>
    decreases outs.len(),
{
    if outs.len() == 0 {
        Seq::empty()
    } else {
        let init = sent_datagrams(outs.drop_last());
        match outs.last() {
            TunnOutput::WriteToNetwork(p) => init.push(p),
            _ => init,
        }
    }
}

/// The shape of the calls that decapsulating `datagram` makes while queued
/// packets are at most `bound` bytes long: the datagram itself, then, while
/// boringtun keeps yielding datagrams to send, empty calls that flush its queue,
/// at most `FLUSH_LIMIT` of them, each with the rooms above.
pub open spec fn flush_shape(
    calls: Seq<(TunnCall, TunnOutput)>,
    datagram: Seq<u8>,
    bound: nat,
) -> bool {
    &&& 1 <= calls.len() <= FLUSH_LIMIT + 1
    &&& calls[0].0 == decap_call(datagram, first_room(datagram.len(), bound))
    &&& forall|i: int|
        1 <= i < calls.len() ==> #[trigger] calls[i].0 == decap_call(
            Seq::empty(),
            flush_room(bound),
        )
    &&& forall|i: int| 0 <= i < calls.len() - 1 ==> is_network(#[trigger] calls[i].1)
    &&& calls.len() < FLUSH_LIMIT + 1 ==> !is_network(calls.last().1)
}

/// The calls that decapsulating `datagram` makes (`flush_shape`). boringtun
/// queues at most `MAX_QUEUED` packets and each flush call that yields a data
/// message takes one of them, so when the flush runs to `FLUSH_LIMIT` calls, one
/// of them yielded something other than a data message.
pub open spec fn decap_calls(
    calls: Seq<(TunnCall, TunnOutput)>,
    datagram: Seq<u8>,
    bound: nat,
) -> bool {
    &&& flush_shape(calls, datagram, bound)
    &&& calls.len() == FLUSH_LIMIT + 1 ==> exists|i: int|
        1 <= i < calls.len() && !#[trigger] sends_data(calls[i].1)
}

/// Whether every packet that the calls of `log` may have queued is at most
/// `bound` bytes long.
pub open spec fn log_within(log: Seq<(TunnCall, TunnOutput)>, bound: nat) -> bool {
    forall|i: int|
        0 <= i < log.len() ==> (#[trigger] queued_by(log[i]) matches Some(p) ==> p.len() <= bound)
}

/// A call that queues nothing longer than `bound` keeps the log within it.
proof fn lemma_push_within(log: Seq<(TunnCall, TunnOutput)>, e: (TunnCall, TunnOutput), bound: nat)
    requires
        log_within(log, bound),
        queued_by(e) matches Some(p) ==> p.len() <= bound,
    ensures
        log_within(log.push(e), bound),
{
    let l = log.push(e);
    assert forall|i: int| 0 <= i < l.len() implies (#[trigger] queued_by(l[i]) matches Some(p)
        ==> p.len() <= bound) by {
        if i < log.len() {
            assert(l[i] == log[i]);
        }
    }
}

/// A larger bound keeps the log within it.
proof fn lemma_within_larger(log: Seq<(TunnCall, TunnOutput)>, a: nat, b: nat)
    requires
        log_within(log, a),
        a <= b,
    ensures
        log_within(log, b),
{
}

impl Tunnel {
    /// What the tunnel was made with.
    pub closed spec fn params(&self) -> TunnParams {
        self.params@
    }

    /// Every call made to boringtun on this tunnel, with its result, in order.
    pub closed spec fn log(&self) -> Seq<(TunnCall, TunnOutput)> {
        self.log@
    }

    /// The packets that boringtun holds queued, oldest first.
    pub closed spec fn queue(&self) -> Seq<Seq<u8>> {
        tunn_queue(self.tunn)
    }

    /// The length of the longest packet that boringtun may hold queued.
    pub closed spec fn queued_bound(&self) -> nat {
        self.largest_queued as nat
    }

    /// Every packet that boringtun may hold queued is at most `queued_bound`
    /// long.
    pub closed spec fn wf(&self) -> bool {
        &&& log_within(self.log@, self.largest_queued as nat)
        &&& self.largest_queued + ENCAP_OVERHEAD <= usize::MAX
    }

    /// The length of the longest packet that boringtun may hold queued.
    pub fn largest_queued(&self) -> (r: usize)
        ensures
            r == self.queued_bound(),
    {
        self.largest_queued
    }
}

/// `boringtun::noise::Tunn::new(static_private, peer_static_public, None,
/// keepalive, index, None)`, with the two keys given as bytes; the tunnel
/// records what it was made with and starts with no calls.
#[verifier::external_body]
fn new_tunnel(secret: [u8; 32], peer_public: [u8; 32], keepalive: Option<u16>, index: u32) -> (r:
    Tunnel)
    ensures
        r.params() == (TunnParams { secret: secret@, peer_public: peer_public@, keepalive, index }),
        r.log() == Seq::<(TunnCall, TunnOutput)>::empty(),
        r.queued_bound() == 0,
        tunn_queue(r.tunn).len() == 0,
{
    let tunn = boringtun::noise::Tunn::new(
        boringtun::x25519::StaticSecret::from(secret),
        boringtun::x25519::PublicKey::from(peer_public),
        None,
        keepalive,
        index,
        None,
    );
    Tunnel {
        tunn,
        params: Ghost(TunnParams { secret: secret@, peer_public: peer_public@, keepalive, index }),
        log: Ghost(Seq::empty()),
        largest_queued: 0,
    }
}

/// `Tunn::format_handshake_initiation(dst, force_resend)`; the call, the
/// length of `dst` and the result are logged. On a fresh tunnel (no call made
/// yet) no handshake is in progress, so with at least 148 bytes of room
/// boringtun writes a handshake initiation: 148 bytes of message type 1.
/// Otherwise what it yields depends on the tunnel's state and is not stated;
/// it lies inside `dst`. The queue never exceeds `MAX_QUEUED` packets.
#[verifier::external_body]
fn tunn_handshake_initiation(t: &mut Tunnel, dst: &mut Vec<u8>, force_resend: bool) -> (r:
    TunnOutput)
    ensures
        final(t).params() == old(t).params(),
        final(t).queued_bound() == old(t).queued_bound(),
        final(t).log() == old(t).log().push(
            (TunnCall::Initiation { force_resend, room: old(dst)@.len() }, r),
        ),
        tunn_queue(final(t).tunn).len() <= MAX_QUEUED,
        old(t).log().len() == 0 && old(dst)@.len() >= 148 ==> is_initiation(r),
        final(dst)@.len() == old(dst)@.len(),
        output_within(r, old(dst)@.len()),
{
    match t.tunn.format_handshake_initiation(dst.as_mut_slice(), force_resend) {
        boringtun::noise::TunnResult::Done => TunnOutput::Done,
        boringtun::noise::TunnResult::Err(_) => TunnOutput::Error,
        boringtun::noise::TunnResult::WriteToNetwork(p) => TunnOutput::WriteToNetwork(p.to_vec()),
        boringtun::noise::TunnResult::WriteToTunnelV4(p, _) => TunnOutput::WriteToTunnelV4(p.to_vec()),
        boringtun::noise::TunnResult::WriteToTunnelV6(p, _) => TunnOutput::WriteToTunnelV6(p.to_vec()),
    }
}

/// `Tunn::encapsulate(src, dst)`; the call, the length of `dst` and the
/// result are logged. boringtun panics when `dst` is shorter than `src` plus 32
/// bytes; that input is excluded. With a session it yields the data message of
/// `src`; without one it queues `src` and yields at most a handshake
/// initiation. A fresh tunnel has no session and no handshake in progress, so
/// with at least 148 bytes of room it yields a 148-byte initiation of message
/// type 1. What it yields is not stated otherwise; it lies inside `dst`.
#[verifier::external_body]
fn tunn_encapsulate(t: &mut Tunnel, src: &[u8], dst: &mut Vec<u8>) -> (r: TunnOutput)
    requires
        old(dst)@.len() >= src@.len() + 32,
    ensures
        final(t).params() == old(t).params(),
        final(t).queued_bound() == old(t).queued_bound(),
        final(t).log() == old(t).log().push(
            (TunnCall::Encapsulate { packet: src@, room: old(dst)@.len() }, r),
        ),
        tunn_queue(final(t).tunn).len() <= MAX_QUEUED,
        old(t).log().len() == 0 && old(dst)@.len() >= 148 ==> is_initiation(r),
        final(dst)@.len() == old(dst)@.len(),
        output_within(r, old(dst)@.len()),
{
    match t.tunn.encapsulate(src, dst.as_mut_slice()) {
        boringtun::noise::TunnResult::Done => TunnOutput::Done,
        boringtun::noise::TunnResult::Err(_) => TunnOutput::Error,
        boringtun::noise::TunnResult::WriteToNetwork(p) => TunnOutput::WriteToNetwork(p.to_vec()),
        boringtun::noise::TunnResult::WriteToTunnelV4(p, _) => TunnOutput::WriteToTunnelV4(p.to_vec()),
        boringtun::noise::TunnResult::WriteToTunnelV6(p, _) => TunnOutput::WriteToTunnelV6(p.to_vec()),
    }
}

/// `Tunn::decapsulate(None, datagram, dst)`; the call, the length of `dst`
/// and the result are logged. boringtun writes into `dst`: a data message's plaintext (the
/// datagram less 16 bytes of header, which panics when it does not fit), a
/// handshake response or the keepalive that answers one (which panics under 32
/// bytes), and, for an empty datagram, the next queued packet encrypted (which
/// panics when that packet plus 32 bytes does not fit). boringtun queues only
/// packets given to `encapsulate` that it did not send as data messages, and
/// empty keepalives from `update_timers`. Those inputs are excluded. An empty
/// datagram takes the oldest queued packet: if boringtun sends it as a data
/// message, it leaves the queue; otherwise (no session) it goes back into the
/// queue, whose length stays the same. What it yields depends on the tunnel's
/// state and is not stated otherwise; it lies inside `dst`.
#[verifier::external_body]
fn tunn_decapsulate(t: &mut Tunnel, datagram: &[u8], dst: &mut Vec<u8>) -> (r: TunnOutput)
    requires
        old(dst)@.len() >= 148,
        is_data_message(datagram@) ==> datagram@.len() <= old(dst)@.len() + 16,
        datagram@.len() == 0 ==> queue_fits(old(t).log(), old(dst)@.len() as nat),
    ensures
        final(t).params() == old(t).params(),
        final(t).queued_bound() == old(t).queued_bound(),
        final(t).log() == old(t).log().push(
            (TunnCall::Decapsulate { datagram: datagram@, room: old(dst)@.len() }, r),
        ),
        tunn_queue(final(t).tunn).len() <= MAX_QUEUED,
        datagram@.len() == 0 && sends_data(r) ==> tunn_queue(old(t).tunn).len() >= 1 && tunn_queue(final(t).tunn)
            == tunn_queue(old(t).tunn).drop_first(),
        datagram@.len() == 0 && !sends_data(r) ==> tunn_queue(final(t).tunn).len() == tunn_queue(old(t).tunn).len(),
        final(dst)@.len() == old(dst)@.len(),
        output_within(r, old(dst)@.len()),
{
    match t.tunn.decapsulate(None, datagram, dst.as_mut_slice()) {
        boringtun::noise::TunnResult::Done => TunnOutput::Done,
        boringtun::noise::TunnResult::Err(_) => TunnOutput::Error,
        boringtun::noise::TunnResult::WriteToNetwork(p) => TunnOutput::WriteToNetwork(p.to_vec()),
        boringtun::noise::TunnResult::WriteToTunnelV4(p, _) => TunnOutput::WriteToTunnelV4(p.to_vec()),
        boringtun::noise::TunnResult::WriteToTunnelV6(p, _) => TunnOutput::WriteToTunnelV6(p.to_vec()),
    }
}

/// `Tunn::update_timers(dst)`; the call, the length of `dst` and the result
/// are logged. A keepalive
/// is encapsulated into `dst`, which panics when `dst` is shorter than 32
/// bytes; that input is excluded. What it yields depends on the clock and the
/// tunnel's state and is not stated; it lies inside `dst`.
#[verifier::external_body]
fn tunn_update_timers(t: &mut Tunnel, dst: &mut Vec<u8>) -> (r: TunnOutput)
    requires
        old(dst)@.len() >= 32,
    ensures
        final(t).params() == old(t).params(),
        final(t).queued_bound() == old(t).queued_bound(),
        final(t).log() == old(t).log().push((TunnCall::UpdateTimers { room: old(dst)@.len() }, r)),
        tunn_queue(final(t).tunn).len() <= MAX_QUEUED,
        final(dst)@.len() == old(dst)@.len(),
        output_within(r, old(dst)@.len()),
{
    match t.tunn.update_timers(dst.as_mut_slice()) {
        boringtun::noise::TunnResult::Done => TunnOutput::Done,
        boringtun::noise::TunnResult::Err(_) => TunnOutput::Error,
        boringtun::noise::TunnResult::WriteToNetwork(p) => TunnOutput::WriteToNetwork(p.to_vec()),
        boringtun::noise::TunnResult::WriteToTunnelV4(p, _) => TunnOutput::WriteToTunnelV4(p.to_vec()),
        boringtun::noise::TunnResult::WriteToTunnelV6(p, _) => TunnOutput::WriteToTunnelV6(p.to_vec()),
    }
}

/// Builds a boringtun tunnel from our identity and the peer's NodeId bytes: our
/// static secret comes from our seed, the peer's static key is the Montgomery
/// form of its NodeId, there is no preshared key, the keepalive is as given and
/// the local sender index is random. Fails when the NodeId is not a valid
/// ed25519 point.
pub fn build_tunn(local: &Identity, peer_node_key: &[u8; 32], keepalive: Option<u16>) -> (r:
    Result<Tunnel, MeshError>)
    ensures
        match r {
            Ok(t) => {
                &&& t.wf()
                &&& t.params().secret == x25519_secret_of(local@)
                &&& edwards_to_montgomery(peer_node_key@) == Some(t.params().peer_public)
                &&& t.params().keepalive == keepalive
                &&& t.log() == Seq::<(TunnCall, TunnOutput)>::empty()
                &&& t.queued_bound() == 0
            },
            Err(e) => edwards_to_montgomery(peer_node_key@) is None && e is NotAPoint,
        },
{
    let peer_wg_public = match wg_public_from_node_key(peer_node_key) {
        Ok(k) => k,
        Err(e) => {
            return Err(e);
        },
    };
    let index = random_u32();
    let t = new_tunnel(local.wg_secret(), peer_wg_public, keepalive, index);
    proof {
        assert(t.wf()) by {
            assert(t.log().len() == 0);
        }
    }
    Ok(t)
}

/// The datagram that a boringtun result asks to send, if any.
pub fn network_datagram(out: TunnOutput) -> (r: Option<Vec<u8>>)
    ensures
        match out {
            TunnOutput::WriteToNetwork(p) => r == Some(p),
            _ => r is None,
        },
{
    match out {
        TunnOutput::WriteToNetwork(p) => Some(p),
        _ => None,
    }
}

/// What the first result of decapsulating a datagram leads to: a datagram to
/// send back, or a decrypted packet to deliver, or nothing.
pub fn decap_plan(first: TunnOutput) -> (d: Decapsulated)
    ensures
        match first {
            TunnOutput::WriteToNetwork(p) => d.to_send@ == seq![p] && d.to_write is None,
            TunnOutput::WriteToTunnelV4(p) => d.to_send@.len() == 0 && d.to_write == Some(p),
            TunnOutput::WriteToTunnelV6(p) => d.to_send@.len() == 0 && d.to_write == Some(p),
            _ => d.to_send@.len() == 0 && d.to_write is None,
        },
{
    let mut to_send: Vec<Vec<u8>> = Vec::new();
    let to_write = match first {
        TunnOutput::WriteToNetwork(p) => {
            to_send.push(p);
            None
        },
        TunnOutput::WriteToTunnelV4(p) => Some(p),
        TunnOutput::WriteToTunnelV6(p) => Some(p),
        _ => None,
    };
    assert(to_send@.len() <= 1);
    Decapsulated { to_send, to_write }
}

/// One flush call's result: a datagram is queued to be sent and the flush goes
/// on; anything else ends the flush.
pub fn drain_step(d: &mut Decapsulated, out: TunnOutput) -> (more: bool)
    ensures
        final(d).to_write == old(d).to_write,
        match out {
            TunnOutput::WriteToNetwork(p) => more && final(d).to_send@ == old(d).to_send@.push(p),
            _ => !more && final(d).to_send@ == old(d).to_send@,
        },
{
    match out {
        TunnOutput::WriteToNetwork(p) => {
            d.to_send.push(p);
            true
        },
        _ => false,
    }
}

/// Whether a result is a data message to send (executable form).
fn carries_data(out: &TunnOutput) -> (b: bool)
    ensures
        b == sends_data(*out),
{
    match out {
        TunnOutput::WriteToNetwork(p) => p.len() >= 32 && p[0] == 4 && p[1] == 0 && p[2] == 0
            && p[3] == 0,
        _ => false,
    }
}

/// The handshake initiation that the dialing side sends first, if boringtun
/// produces one (it does not while a handshake is already in progress): one
/// call, `format_handshake_initiation` without forcing a resend, into a buffer
/// of `HANDSHAKE_BUF_LEN` bytes, whose datagram is returned. On a fresh tunnel
/// it is a 148-byte initiation of message type 1.
pub fn handshake_initiation(t: &mut Tunnel) -> (r: Option<Vec<u8>>)
    requires
        old(t).wf(),
    ensures
        final(t).wf(),
        final(t).params() == old(t).params(),
        final(t).queued_bound() == old(t).queued_bound(),
        one_call(
            old(t).log(),
            final(t).log(),
            TunnCall::Initiation { force_resend: false, room: HANDSHAKE_BUF_LEN as nat },
        ),
        old(t).log().len() == 0 ==> (r matches Some(d) && d@.len() == 148 && d@[0] == 1 && d@[1]
            == 0 && d@[2] == 0 && d@[3] == 0),
        r == datagram_of(final(t).log().last().1),
        final(t).log().last().1 matches TunnOutput::WriteToNetwork(p) ==> r == Some(p),
        !(final(t).log().last().1 is WriteToNetwork) ==> r is None,
        r matches Some(d) ==> d@.len() <= HANDSHAKE_BUF_LEN,
{
    let mut buf = vec![0u8; HANDSHAKE_BUF_LEN];
    let out = tunn_handshake_initiation(t, &mut buf, false);
    proof {
        lemma_push_within(old(t).log(), t.log().last(), t.queued_bound());
        assert(t.log().drop_last() =~= old(t).log());
    }
    network_datagram(out)
}

/// Encrypts one cleartext packet: one call, `encapsulate` of this packet into a
/// buffer of the packet's length plus `ENCAP_OVERHEAD` bytes, whose datagram is
/// returned (without a session boringtun queues the packet and may
/// yield a handshake initiation instead). A packet that was not sent as a data
/// message may stay queued, and the bound on queued packets grows to cover it.
pub fn encapsulate_packet(t: &mut Tunnel, packet: &[u8]) -> (r: Option<Vec<u8>>)
    requires
        old(t).wf(),
        packet@.len() <= usize::MAX - ENCAP_OVERHEAD,
    ensures
        final(t).wf(),
        final(t).params() == old(t).params(),
        one_call(
            old(t).log(),
            final(t).log(),
            TunnCall::Encapsulate {
                packet: packet@,
                room: (packet@.len() + ENCAP_OVERHEAD) as nat,
            },
        ),
        old(t).log().len() == 0 && packet@.len() + ENCAP_OVERHEAD >= 148 ==> (r matches Some(d)
            && d@.len() == 148 && d@[0] == 1 && d@[1] == 0 && d@[2] == 0 && d@[3] == 0),
        r == datagram_of(final(t).log().last().1),
        final(t).log().last().1 matches TunnOutput::WriteToNetwork(p) ==> r == Some(p),
        !(final(t).log().last().1 is WriteToNetwork) ==> r is None,
        final(t).queued_bound() == if sends_data(final(t).log().last().1)
            || packet@.len() <= old(t).queued_bound() {
            old(t).queued_bound()
        } else {
            packet@.len()
        },
        r matches Some(d) ==> d@.len() <= packet@.len() + ENCAP_OVERHEAD,
{
    let mut buf = vec![0u8; packet.len() + ENCAP_OVERHEAD];
    let out = tunn_encapsulate(t, packet, &mut buf);
    let ghost mid_bound = t.queued_bound();
    if !carries_data(&out) && packet.len() > t.largest_queued {
        t.largest_queued = packet.len();
    }
    proof {
        lemma_within_larger(old(t).log(), mid_bound, t.queued_bound());
        lemma_push_within(old(t).log(), t.log().last(), t.queued_bound());
        assert(t.log().drop_last() =~= old(t).log());
    }
    network_datagram(out)
}

/// One timer turn (keepalives, rekeys, handshake retries): one call,
/// `update_timers` into a buffer of `DATAGRAM_BUF_LEN` bytes, whose datagram is
/// returned.
pub fn timer_tick(t: &mut Tunnel) -> (r: Option<Vec<u8>>)
    requires
        old(t).wf(),
    ensures
        final(t).wf(),
        final(t).params() == old(t).params(),
        final(t).queued_bound() == old(t).queued_bound(),
        one_call(
            old(t).log(),
            final(t).log(),
            TunnCall::UpdateTimers { room: DATAGRAM_BUF_LEN as nat },
        ),
        r == datagram_of(final(t).log().last().1),
        final(t).log().last().1 matches TunnOutput::WriteToNetwork(p) ==> r == Some(p),
        !(final(t).log().last().1 is WriteToNetwork) ==> r is None,
        r matches Some(d) ==> d@.len() <= DATAGRAM_BUF_LEN,
{
    let mut buf = vec![0u8; DATAGRAM_BUF_LEN];
    let out = tunn_update_timers(t, &mut buf);
    proof {
        lemma_push_within(old(t).log(), t.log().last(), t.queued_bound());
        assert(t.log().drop_last() =~= old(t).log());
    }
    network_datagram(out)
}

/// Decapsulates one received datagram. When boringtun answers with a datagram
/// to send, the tunnel is flushed with empty calls, as boringtun asks, while
/// they yield datagrams. The buffers are `DATAGRAM_BUF_LEN` bytes, larger
/// where a data message's plaintext or a queued packet needs more
/// (`first_room`, `flush_room`). Every datagram the calls yield is sent back,
/// in order, and a decrypted packet from the first call is delivered.
pub fn decapsulate_datagram(t: &mut Tunnel, datagram: &[u8]) -> (d: Decapsulated)
    requires
        old(t).wf(),
    ensures
        final(t).wf(),
        final(t).params() == old(t).params(),
        final(t).queued_bound() == old(t).queued_bound(),
        final(t).log().len() > old(t).log().len(),
        final(t).log().subrange(0, old(t).log().len() as int) == old(t).log(),
        decap_calls(
            final(t).log().subrange(old(t).log().len() as int, final(t).log().len() as int),
            datagram@,
            old(t).queued_bound(),
        ),
        d.to_send@ == sent_datagrams(outputs(final(t).log().subrange(old(t).log().len() as int, final(t).log().len() as int))),
        d.to_write == delivered(final(t).log()[old(t).log().len() as int].1),
        final(t).log()[old(t).log().len() as int].1 matches TunnOutput::WriteToTunnelV4(p) ==> d.to_write
            == Some(p),
        final(t).log()[old(t).log().len() as int].1 matches TunnOutput::WriteToTunnelV6(p) ==> d.to_write
            == Some(p),
        d.to_write is Some ==> d.to_send@.len() == 0,
        forall|i: int|
            0 <= i < d.to_send@.len() ==> #[trigger] d.to_send@[i]@.len() <= reply_room(
                datagram@.len(),
                old(t).queued_bound(),
            ),
        d.to_write matches Some(p) ==> p@.len() <= first_room(datagram@.len(), old(t).queued_bound()),
{
    let ghost start = old(t).log().len() as int;
    let ghost bound = old(t).queued_bound();
    let ghost room = reply_room(datagram@.len(), bound);
    let flush_len: usize = if t.largest_queued <= DATAGRAM_BUF_LEN - 32 {
        DATAGRAM_BUF_LEN
    } else {
        t.largest_queued + 32
    };
    let first_len: usize = if datagram.len() == 0 {
        flush_len
    } else if datagram.len() <= MAX_DATAGRAM_LEN {
        DATAGRAM_BUF_LEN
    } else {
        datagram.len() - 16
    };
    proof {
        lemma_queue_fits(*t, flush_len as nat);
    }
    let mut buf = vec![0u8; first_len];
    let first = tunn_decapsulate(t, datagram, &mut buf);
    let ghost first_out = t.log().last().1;
    let mut d = decap_plan(first);
    proof {
        lemma_push_within(old(t).log(), t.log().last(), t.queued_bound());
        assert(t.log() =~= old(t).log().push(t.log().last()));
        let calls = t.log().subrange(start, t.log().len() as int);
        assert(calls =~= seq![(decap_call(datagram@, first_len as nat), first_out)]);
        assert(outputs(calls) =~= seq![first_out]);
        assert(outputs(calls).drop_last() =~= Seq::<TunnOutput>::empty());
        assert(outputs(calls).last() == first_out);
        assert(sent_datagrams(Seq::<TunnOutput>::empty()) =~= Seq::<Vec<u8>>::empty());
        match first_out {
            TunnOutput::WriteToNetwork(p) => {
                assert(sent_datagrams(outputs(calls)) =~= seq![p]);
            },
            _ => {
                assert(sent_datagrams(outputs(calls)) =~= Seq::<Vec<u8>>::empty());
            },
        }
        assert(d.to_send@ =~= sent_datagrams(outputs(calls)));
        assert(t.log().subrange(0, start) =~= old(t).log());
        assert(calls[0] == t.log()[start]);
    }
    if d.to_send.len() > 0 {
        let mut flush_buf = vec![0u8; flush_len];
        let empty: [u8; 0] = [];
        let mut n: usize = 0;
        while n < FLUSH_LIMIT
            invariant_except_break
                t.log().len() == start + n + 1,
                forall|i: int| start <= i < t.log().len() ==> is_network(#[trigger] t.log()[i].1),
                d.to_send@.len() == n + 1,
            invariant
                n <= FLUSH_LIMIT,
                start == old(t).log().len(),
                t.wf(),
                t.params() == old(t).params(),
                t.queued_bound() == old(t).queued_bound(),
                bound == old(t).queued_bound(),
                flush_len == flush_room(bound),
                first_len == first_room(datagram@.len(), bound),
                room == reply_room(datagram@.len(), bound),
                t.log().len() > start,
                t.log().subrange(0, start) == old(t).log(),
                t.log()[start].0 == decap_call(datagram@, first_len as nat),
                forall|i: int|
                    start < i < t.log().len() ==> #[trigger] t.log()[i].0 == decap_call(
                        Seq::empty(),
                        flush_len as nat,
                    ),
                d.to_write is None,
                d.to_write == delivered(t.log()[start].1),
                d.to_send@ == sent_datagrams(outputs(t.log().subrange(start, t.log().len() as int))),
                flush_buf@.len() == flush_len,
                forall|i: int| 0 <= i < d.to_send@.len() ==> #[trigger] d.to_send@[i]@.len() <= room,
                t.queue().len() <= MAX_QUEUED,
                (forall|i: int| start < i < t.log().len() ==> #[trigger] sends_data(t.log()[i].1))
                    ==> t.queue().len() + (t.log().len() - start - 1) <= MAX_QUEUED,
            ensures
                start == old(t).log().len(),
                t.wf(),
                t.params() == old(t).params(),
                t.queued_bound() == old(t).queued_bound(),
                t.log().len() > start,
                t.log().subrange(0, start) == old(t).log(),
                bound == old(t).queued_bound(),
                flush_shape(t.log().subrange(start, t.log().len() as int), datagram@, bound),
                (forall|i: int| start < i < t.log().len() ==> #[trigger] sends_data(t.log()[i].1))
                    ==> t.queue().len() + (t.log().len() - start - 1) <= MAX_QUEUED,
                d.to_write is None,
                d.to_write == delivered(t.log()[start].1),
                d.to_send@ == sent_datagrams(outputs(t.log().subrange(start, t.log().len() as int))),
                forall|i: int| 0 <= i < d.to_send@.len() ==> #[trigger] d.to_send@[i]@.len() <= room,
            decreases FLUSH_LIMIT - n,
        {
            let ghost before = t.log();
            let ghost queue_before = t.queue();
            proof {
                lemma_queue_fits(*t, flush_len as nat);
            }
            let out = tunn_decapsulate(t, empty.as_slice(), &mut flush_buf);
            let ghost out_g = t.log().last().1;
            let ghost sent_before = d.to_send@;
            let more = drain_step(&mut d, out);
            proof {
                lemma_push_within(before, t.log().last(), t.queued_bound());
                assert(t.log() =~= before.push(t.log().last()));
                assert(empty@ =~= Seq::<u8>::empty());
                let calls = t.log().subrange(start, t.log().len() as int);
                let prev = before.subrange(start, before.len() as int);
                assert(calls.drop_last() =~= prev);
                assert(outputs(calls) =~= outputs(prev).push(out_g));
                assert(outputs(calls).drop_last() =~= outputs(prev));
                assert(t.log().subrange(0, start) =~= before.subrange(0, start));
                assert(t.log()[start] == before[start]);
                if forall|i: int| start < i < t.log().len() ==> #[trigger] sends_data(t.log()[i].1) {
                    assert forall|i: int| start < i < before.len() implies #[trigger] sends_data(
                        before[i].1,
                    ) by {
                        assert(t.log()[i] == before[i]);
                        assert(sends_data(t.log()[i].1));
                    }
                    assert(sends_data(t.log()[t.log().len() - 1].1));
                    assert(sends_data(out_g));
                }
                if !more {
                    assert(calls.last().1 == out_g);
                    assert forall|i: int| 1 <= i < calls.len() implies #[trigger] calls[i].0
                        == decap_call(Seq::empty(), flush_len as nat) by {
                        assert(calls[i] == t.log()[start + i]);
                    }
                    assert forall|i: int| 0 <= i < calls.len() - 1 implies is_network(
                        #[trigger] calls[i].1,
                    ) by {
                        assert(calls[i] == t.log()[start + i]);
                    }
                    assert(calls[0] == t.log()[start]);
                }
            }
            if !more {
                break;
            }
            n += 1;
        }
        proof {
            let calls = t.log().subrange(start, t.log().len() as int);
            if calls.len() == FLUSH_LIMIT + 1 {
                assert forall|i: int| 1 <= i < calls.len() implies #[trigger] calls[i].0
                    == decap_call(Seq::empty(), flush_len as nat) by {
                    assert(calls[i] == t.log()[start + i]);
                }
                assert forall|i: int| 0 <= i < calls.len() - 1 implies is_network(
                    #[trigger] calls[i].1,
                ) by {
                    assert(calls[i] == t.log()[start + i]);
                }
                assert(calls[0] == t.log()[start]);
                if !(exists|i: int| 1 <= i < calls.len() && !#[trigger] sends_data(calls[i].1)) {
                    assert forall|i: int| start < i < t.log().len() implies #[trigger] sends_data(
                        t.log()[i].1,
                    ) by {
                        assert(t.log()[i] == calls[i - start]);
                        assert(sends_data(calls[i - start].1));
                    }
                    assert(false);
                }
            }
        }
    }
    d
}

/// Every packet that the log may have queued fits `n` bytes with overhead.
proof fn lemma_queue_fits(t: Tunnel, n: nat)
    requires
        t.wf(),
        t.queued_bound() + 32 <= n,
    ensures
        queue_fits(t.log(), n),
{
    assert forall|i: int| 0 <= i < t.log().len() implies (#[trigger] queued_by(t.log()[i])
        matches Some(p) ==> p.len() + 32 <= n) by {
        assert(queued_by(t.log()[i]) matches Some(p) ==> p.len() <= t.queued_bound());
    }
}

} // verus!
