//! The decisions of a client connection: routing the handshake, the status
//! pass-through, the login sub-protocol, the two forwarding directions, the
//! end of a session and the swap to another upstream. The caller performs the
//! socket work that each step hands back.
use vstd::prelude::*;
use vstd::utf8::{decode_utf8_encode_utf8, encode_utf8};
use crate::config::{opt_server_view, route_spec, PlayerForwarding, ProxyServer};
use crate::error::{proxy_error_of, ProxyError};
use crate::protocol::{
    build_encryption_response, build_handshake, build_login_start, build_status_response,
    compression_field, encryption_response_fields, encryption_response_spec, handshake_fields,
    handshake_spec, login_acknowledged, login_start_fields, login_start_spec, parse_encryption_response,
    parse_handshake, parse_login_start, parse_set_compression, status_field, ClientAddr, Handshake,
    ID_ENCRYPTION_REPLAY, ID_ENCRYPTION_REQUEST, ID_HANDSHAKE, ID_LOGIN_SUCCESS, ID_SET_COMPRESSION,
};
use crate::proxy::{
    changed, codecs_agree, connecting_ip_outcome_spec, connecting_server_outcome_spec, dispatch,
    ids_of, opt_packet_view, opt_string_view, recv_event, recv_outcome_spec, removal, send_event,
    send_outcome_spec, status_outcome_spec, Compression, EventListener, MeexProx, PlayerSpec,
    ProxyEvent,
};
use crate::wire::{string_spec, Packet, MAX_LENGTH};

verus! {

/// What follows the handshake.
#[derive(Clone, Copy, Debug, PartialEq, Eq, Structural)]
pub enum NextPhase {
    /// Status pass-through.
    Status,
    /// The login sub-protocol.
    Login,
    /// The connection closes.
    Close,
}

/// The phase that a handshake's next state selects: 1 is status, 2 is login,
/// anything else closes the connection.
pub open spec fn next_phase_spec(next_state: u8) -> NextPhase {
    if next_state == 1 {
        NextPhase::Status
    } else if next_state == 2 {
        NextPhase::Login
    } else {
        NextPhase::Close
    }
}

/// What to do with a client whose handshake was read: the handshake, the
/// upstream to connect to, the handshake to send it and the phase that follows.
#[derive(Clone, Debug)]
pub struct HandshakePlan {
    pub handshake: Handshake,
    pub server: ProxyServer,
    pub upstream_handshake: Packet,
    pub next: NextPhase,
}

/// The answer to one status exchange.
#[derive(Clone, Debug)]
pub enum StatusReply {
    /// Write this packet to the client and go on.
    Write(Packet),
    /// Close both connections.
    Close,
}

pub open spec fn reply_view(r: StatusReply) -> Option<(u8, Seq<u8>)> {
    match r {
        StatusReply::Write(p) => Some(p@),
        StatusReply::Close => None,
    }
}

/// The reply to a status request once the listeners have seen it: the status
/// text as a status response, or closing when they cancelled it or when the
/// text is too long for a string field.
pub open spec fn status_decision_spec(e: ProxyEvent, given: Seq<char>) -> Option<(u8, Seq<u8>)> {
    match status_outcome_spec(e, given) {
        Some(t) => if encode_utf8(t).len() <= MAX_LENGTH {
            Some((ID_HANDSHAKE, string_spec(t)))
        } else {
            None
        },
        None => None,
    }
}

/// The reply to a status request once the listeners have seen it.
pub fn status_decision(after: ProxyEvent, given: String) -> (r: StatusReply)
    ensures
        reply_view(r) == status_decision_spec(after, given@),
{
    match after.status_outcome(given) {
        Some(t) => match build_status_response(t.as_str()) {
            Ok(p) => StatusReply::Write(p),
            Err(_) => StatusReply::Close,
        },
        None => StatusReply::Close,
    }
}

/// A status request that a listener cancelled closes the connections and
/// writes nothing to the client.
pub proof fn lemma_cancelled_status_closes(
    status: String,
    client_address: ClientAddr,
    server_address: String,
    server_port: u16,
    given: Seq<char>,
)
    ensures
        status_decision_spec(
            ProxyEvent::StatusRequestEvent {
                status,
                client_address,
                server_address,
                server_port,
                cancelled: true,
            },
            given,
        ) is None,
{
}

/// `e` is the status request event for these fields, not cancelled.
pub open spec fn is_status_event(
    e: ProxyEvent,
    status: Seq<char>,
    client: ClientAddr,
    server_address: Seq<char>,
    server_port: u16,
) -> bool {
    match e {
        ProxyEvent::StatusRequestEvent {
            status: s,
            client_address: c,
            server_address: a,
            server_port: p,
            cancelled,
        } => s@ == status && c.port == client.port && c.ip@ == client.ip@ && a@ == server_address
            && p == server_port && !cancelled,
        _ => false,
    }
}

impl ProxyEvent {
    /// Lets the listeners see a packet received from the client (`to_server`)
    /// or from the upstream server, and returns the packet they leave.
    pub fn recv_packet<L: EventListener>(
        meexprox: &mut MeexProx<L>,
        packet: Packet,
        player: u64,
        to_server: bool,
    ) -> (r: Packet)
        ensures
            final(meexprox).only_dispatched(*old(meexprox), seq![recv_event(packet, player, to_server)]),
            exists|after: ProxyEvent|
                dispatch(old(meexprox).listeners(), recv_event(packet, player, to_server), after)
                    && r@ == recv_outcome_spec(after, to_server, packet@),
            old(meexprox).listener_count() == 0 ==> r@ == packet@,
    {
        let given = packet.duplicate();
        let event = ProxyEvent::received(packet, player, to_server);
        let after = meexprox.trigger_event(event);
        proof {
            assert(final(meexprox).dispatched() =~= old(meexprox).dispatched() + seq![event]);
        }
        let ghost a = after;
        let r = after.recv_outcome(to_server, given);
        assert(dispatch(old(meexprox).listeners(), recv_event(packet, player, to_server), a));
        assert(r@ == recv_outcome_spec(a, to_server, packet@));
        r
    }

    /// Lets the listeners see a packet about to be written to the upstream
    /// server (`to_server`) or to the client; `None` when they cancelled it.
    pub fn send_packet<L: EventListener>(
        meexprox: &mut MeexProx<L>,
        packet: Packet,
        player: u64,
        to_server: bool,
    ) -> (r: Option<Packet>)
        ensures
            final(meexprox).only_dispatched(*old(meexprox), seq![send_event(packet, player, to_server)]),
            exists|after: ProxyEvent|
                dispatch(old(meexprox).listeners(), send_event(packet, player, to_server), after)
                    && opt_packet_view(r) == send_outcome_spec(after, to_server, packet@),
            old(meexprox).listener_count() == 0 ==> opt_packet_view(r) == Some(packet@),
    {
        let given = packet.duplicate();
        let event = ProxyEvent::sending(packet, player, to_server);
        let after = meexprox.trigger_event(event);
        proof {
            assert(final(meexprox).dispatched() =~= old(meexprox).dispatched() + seq![event]);
        }
        let ghost a = after;
        let r = after.send_outcome(to_server, given);
        assert(dispatch(old(meexprox).listeners(), send_event(packet, player, to_server), a));
        assert(opt_packet_view(r) == send_outcome_spec(a, to_server, packet@));
        r
    }

    /// Lets the listeners see a packet received from the upstream server.
    pub fn recv_server_packet<L: EventListener>(meexprox: &mut MeexProx<L>, packet: Packet, player: u64) -> (r: Packet)
        ensures
            final(meexprox).only_dispatched(*old(meexprox), seq![recv_event(packet, player, false)]),
            exists|after: ProxyEvent|
                dispatch(old(meexprox).listeners(), recv_event(packet, player, false), after)
                    && r@ == recv_outcome_spec(after, false, packet@),
            old(meexprox).listener_count() == 0 ==> r@ == packet@,
    {
        ProxyEvent::recv_packet(meexprox, packet, player, false)
    }

    /// Lets the listeners see a packet received from the client.
    pub fn recv_client_packet<L: EventListener>(meexprox: &mut MeexProx<L>, packet: Packet, player: u64) -> (r: Packet)
        ensures
            final(meexprox).only_dispatched(*old(meexprox), seq![recv_event(packet, player, true)]),
            exists|after: ProxyEvent|
                dispatch(old(meexprox).listeners(), recv_event(packet, player, true), after)
                    && r@ == recv_outcome_spec(after, true, packet@),
            old(meexprox).listener_count() == 0 ==> r@ == packet@,
    {
        ProxyEvent::recv_packet(meexprox, packet, player, true)
    }

    /// Lets the listeners see a packet about to be written to the client;
    /// `None` when they cancelled it.
    pub fn send_client_packet<L: EventListener>(meexprox: &mut MeexProx<L>, packet: Packet, player: u64) -> (r: Option<Packet>)
        ensures
            final(meexprox).only_dispatched(*old(meexprox), seq![send_event(packet, player, false)]),
            exists|after: ProxyEvent|
                dispatch(old(meexprox).listeners(), send_event(packet, player, false), after)
                    && opt_packet_view(r) == send_outcome_spec(after, false, packet@),
            old(meexprox).listener_count() == 0 ==> opt_packet_view(r) == Some(packet@),
    {
        ProxyEvent::send_packet(meexprox, packet, player, false)
    }

    /// Lets the listeners see a packet about to be written to the upstream
    /// server; `None` when they cancelled it.
    pub fn send_server_packet<L: EventListener>(meexprox: &mut MeexProx<L>, packet: Packet, player: u64) -> (r: Option<Packet>)
        ensures
            final(meexprox).only_dispatched(*old(meexprox), seq![send_event(packet, player, true)]),
            exists|after: ProxyEvent|
                dispatch(old(meexprox).listeners(), send_event(packet, player, true), after)
                    && opt_packet_view(r) == send_outcome_spec(after, true, packet@),
            old(meexprox).listener_count() == 0 ==> opt_packet_view(r) == Some(packet@),
    {
        ProxyEvent::send_packet(meexprox, packet, player, true)
    }

    /// Lets the listeners see that a player is about to be connected to
    /// `server`; returns the server they leave, or `None` when they cancelled.
    pub fn player_connecting_server<L: EventListener>(meexprox: &mut MeexProx<L>, player: u64, server: ProxyServer) -> (r: Option<ProxyServer>)
        ensures
            final(meexprox).only_dispatched(
                *old(meexprox),
                seq![ProxyEvent::PlayerConnectingServerEvent { player, server, cancelled: false }],
            ),
            exists|after: ProxyEvent|
                dispatch(
                    old(meexprox).listeners(),
                    ProxyEvent::PlayerConnectingServerEvent { player, server, cancelled: false },
                    after,
                ) && opt_server_view(r) == connecting_server_outcome_spec(after, server@),
            old(meexprox).listener_count() == 0 ==> opt_server_view(r) == Some(server@),
    {
        let given = server.duplicate();
        let event = ProxyEvent::PlayerConnectingServerEvent { player, server, cancelled: false };
        let after = meexprox.trigger_event(event);
        proof {
            assert(final(meexprox).dispatched() =~= old(meexprox).dispatched() + seq![event]);
        }
        after.connecting_server_outcome(given)
    }

    /// Lets the listeners see that a player is about to be connected to the
    /// raw address `ip`; returns the address they leave, or `None` when they
    /// cancelled.
    pub fn player_connecting_ip<L: EventListener>(meexprox: &mut MeexProx<L>, player: u64, ip: String) -> (r: Option<String>)
        ensures
            final(meexprox).only_dispatched(
                *old(meexprox),
                seq![ProxyEvent::PlayerConnectingIPEvent { player, ip, cancelled: false }],
            ),
            exists|after: ProxyEvent|
                dispatch(
                    old(meexprox).listeners(),
                    ProxyEvent::PlayerConnectingIPEvent { player, ip, cancelled: false },
                    after,
                ) && opt_string_view(r) == connecting_ip_outcome_spec(after, ip@),
            old(meexprox).listener_count() == 0 ==> opt_string_view(r) == Some(ip@),
    {
        let given = ip.clone();
        let event = ProxyEvent::PlayerConnectingIPEvent { player, ip, cancelled: false };
        let after = meexprox.trigger_event(event);
        proof {
            assert(final(meexprox).dispatched() =~= old(meexprox).dispatched() + seq![event]);
        }
        after.connecting_ip_outcome(given)
    }

    /// Tells the listeners that a player reached the play state.
    pub fn player_connected<L: EventListener>(meexprox: &mut MeexProx<L>, player: u64)
        ensures
            final(meexprox).only_dispatched(*old(meexprox), seq![ProxyEvent::PlayerConnectedEvent { player }]),
    {
        let event = ProxyEvent::PlayerConnectedEvent { player };
        let _ = meexprox.trigger_event(event);
        proof {
            assert(final(meexprox).dispatched() =~= old(meexprox).dispatched() + seq![event]);
        }
    }

    /// Tells the listeners that a player's session ended.
    pub fn player_disconnected<L: EventListener>(meexprox: &mut MeexProx<L>, player: u64)
        ensures
            final(meexprox).only_dispatched(*old(meexprox), seq![ProxyEvent::PlayerDisconnectedEvent { player }]),
    {
        let event = ProxyEvent::PlayerDisconnectedEvent { player };
        let _ = meexprox.trigger_event(event);
        proof {
            assert(final(meexprox).dispatched() =~= old(meexprox).dispatched() + seq![event]);
        }
    }

    /// The status request event for these fields, not cancelled.
    pub fn status_requested(
        status: String,
        client_address: ClientAddr,
        server_address: String,
        server_port: u16,
    ) -> (e: ProxyEvent)
        ensures
            e == (ProxyEvent::StatusRequestEvent {
                status,
                client_address,
                server_address,
                server_port,
                cancelled: false,
            }),
    {
        ProxyEvent::StatusRequestEvent { status, client_address, server_address, server_port, cancelled: false }
    }

    /// Lets the listeners see a status request and returns the reply to send.
    pub fn status_request<L: EventListener>(
        meexprox: &mut MeexProx<L>,
        status: String,
        client_address: ClientAddr,
        server_address: String,
        server_port: u16,
    ) -> (r: StatusReply)
        ensures
            final(meexprox).only_dispatched(
                *old(meexprox),
                seq![
                    ProxyEvent::StatusRequestEvent {
                        status,
                        client_address,
                        server_address,
                        server_port,
                        cancelled: false,
                    },
                ],
            ),
            exists|after: ProxyEvent|
                dispatch(
                    old(meexprox).listeners(),
                    ProxyEvent::StatusRequestEvent {
                        status,
                        client_address,
                        server_address,
                        server_port,
                        cancelled: false,
                    },
                    after,
                ) && reply_view(r) == status_decision_spec(after, status@),
            old(meexprox).listener_count() == 0 ==> reply_view(r) == status_decision_spec(
                ProxyEvent::StatusRequestEvent {
                    status,
                    client_address,
                    server_address,
                    server_port,
                    cancelled: false,
                },
                status@,
            ),
    {
        let given = status.clone();
        let event = ProxyEvent::status_requested(status, client_address, server_address, server_port);
        let after = meexprox.trigger_event(event);
        proof {
            assert(final(meexprox).dispatched() =~= old(meexprox).dispatched() + seq![event]);
        }
        status_decision(after, given)
    }
}

impl<L: EventListener> MeexProx<L> {
    /// Reads a client's handshake and plans the connection: the upstream is
    /// the server with the asked-for forced host, else the default server;
    /// the handshake sent upstream repeats the client's, with the client's
    /// address appended in handshake forwarding mode.
    pub fn plan_handshake(&self, packet: &Packet, client: &ClientAddr) -> (r: Result<
        HandshakePlan,
        ProxyError,
    >)
        requires
            client.wf(),
        ensures
            packet.id != ID_HANDSHAKE ==> r == Err::<HandshakePlan, ProxyError>(
                ProxyError::HandshakePacket,
            ),
            packet.id == ID_HANDSHAKE ==> match handshake_fields(packet.data@) {
                Err(e) => r == Err::<HandshakePlan, ProxyError>(proxy_error_of(e)),
                Ok((pv, addr, port, ns)) => match route_spec(self.config_spec(), addr) {
                    None => r == Err::<HandshakePlan, ProxyError>(ProxyError::ServerConnect),
                    Some(srv) => (r matches Ok(plan) && plan.server@ == srv
                        && plan.handshake.protocol_version == pv && plan.handshake.server_address@
                        == addr && plan.handshake.server_port == port && plan.handshake.next_state
                        == ns && plan.next == next_phase_spec(ns) && plan.upstream_handshake@ == (
                        ID_HANDSHAKE,
                        handshake_spec(
                            pv,
                            addr,
                            port,
                            ns,
                            if self.config_spec().player_forwarding == PlayerForwarding::Handshake {
                                Some(*client)
                            } else {
                                None
                            },
                        ),
                    )),
                },
            },
    {
        let handshake = match parse_handshake(packet) {
            Ok(h) => h,
            Err(e) => return Err(e),
        };
        let server = match self.config().route(handshake.server_address.as_str()) {
            Some(s) => s,
            None => return Err(ProxyError::ServerConnect),
        };
        proof {
            lemma_parsed_string_fits(packet.data@);
        }
        let forward = if *self.config().player_forwarding() == PlayerForwarding::Handshake {
            Some(client)
        } else {
            None
        };
        let upstream_handshake = match build_handshake(
            handshake.protocol_version,
            handshake.server_address.as_str(),
            handshake.server_port,
            handshake.next_state,
            forward,
        ) {
            Ok(p) => p,
            Err(e) => return Err(ProxyError::ProtocolError(e)),
        };
        let next = if handshake.next_state == 1 {
            NextPhase::Status
        } else if handshake.next_state == 2 {
            NextPhase::Login
        } else {
            NextPhase::Close
        };
        Ok(HandshakePlan { handshake, server, upstream_handshake, next })
    }

    /// The reply to one status exchange: the client's packet went upstream
    /// and `server_packet` came back. A status request (id 0) has its response
    /// shown to the listeners and rebuilt from the text they leave; any other
    /// exchange passes the upstream packet through unchanged.
    pub fn status_reply(
        &mut self,
        handshake: &Handshake,
        client: &ClientAddr,
        client_packet_id: u8,
        server_packet: Packet,
    ) -> (r: StatusReply)
        ensures
            client_packet_id != ID_HANDSHAKE ==> reply_view(r) == Some(server_packet@)
                && final(self).only_dispatched(*old(self), Seq::empty()),
            client_packet_id == ID_HANDSHAKE ==> match status_field(server_packet.data@) {
                Err(_) => r is Close && final(self).only_dispatched(*old(self), Seq::empty()),
                Ok(t) => (exists|e: ProxyEvent, after: ProxyEvent|
                    is_status_event(e, t, *client, handshake.server_address@, handshake.server_port)
                        && final(self).only_dispatched(*old(self), seq![e]) && dispatch(
                        old(self).listeners(),
                        e,
                        after,
                    ) && reply_view(r) == status_decision_spec(after, t)) && (old(self).listener_count()
                    == 0 ==> (encode_utf8(t).len() <= MAX_LENGTH && reply_view(r) == Some(
                    (ID_HANDSHAKE, string_spec(t)),
                ))),
            },
    {
        if client_packet_id != ID_HANDSHAKE {
            proof {
                assert(self.dispatched() =~= self.dispatched() + Seq::<ProxyEvent>::empty());
            }
            return StatusReply::Write(server_packet);
        }
        let status = match crate::protocol::parse_status_response(&server_packet) {
            Ok(t) => t,
            Err(_) => {
                proof {
                    assert(self.dispatched() =~= self.dispatched() + Seq::<ProxyEvent>::empty());
                }
                return StatusReply::Close;
            },
        };
        proof {
            lemma_status_fits(server_packet.data@);
        }
        let c = client.clone_addr();
        let a = handshake.server_address.clone();
        let ghost e = ProxyEvent::StatusRequestEvent {
            status,
            client_address: c,
            server_address: a,
            server_port: handshake.server_port,
            cancelled: false,
        };
        assert(is_status_event(e, status@, *client, handshake.server_address@, handshake.server_port));
        ProxyEvent::status_request(self, status, c, a, handshake.server_port)
    }
}

proof fn lemma_decoded_fits(b: Seq<u8>)
    requires
        vstd::utf8::valid_utf8(b),
        b.len() <= MAX_LENGTH,
    ensures
        encode_utf8(vstd::utf8::decode_utf8(b)).len() <= MAX_LENGTH,
{
    decode_utf8_encode_utf8(b);
}

proof fn lemma_parsed_string_fits(s: Seq<u8>)
    ensures
        handshake_fields(s) matches Ok((_, addr, _, _)) ==> encode_utf8(addr).len() <= MAX_LENGTH,
{
    if let Ok((pv, n1)) = crate::wire::varint_u32(s) {
        let t = s.skip(n1 as int);
        if let Ok((len, n)) = crate::wire::varint_u32(t) {
            if len <= MAX_LENGTH && n + len <= t.len() {
                let b = t.subrange(n as int, n + len);
                if vstd::utf8::valid_utf8(b) {
                    lemma_decoded_fits(b);
                }
            }
        }
    }
}

proof fn lemma_status_fits(s: Seq<u8>)
    ensures
        status_field(s) matches Ok(t) ==> encode_utf8(t).len() <= MAX_LENGTH,
{
    if let Ok((len, n)) = crate::wire::varint_u32(s) {
        if len <= MAX_LENGTH && n + len <= s.len() {
            let b = s.subrange(n as int, n + len);
            if vstd::utf8::valid_utf8(b) {
                lemma_decoded_fits(b);
            }
        }
    }
}

/// What the login driver does after mirroring an upstream login packet to
/// the client.
#[derive(Clone, Debug)]
pub struct LoginStep {
    /// Read the client's encryption response next.
    pub await_client_reply: bool,
    /// Set both codecs to this threshold before reading the next packet.
    pub compression: Option<Option<usize>>,
    /// Write this packet upstream.
    pub acknowledge: Option<Packet>,
    /// The session is now in the play state.
    pub finished: bool,
}

/// What the swap driver does after an upstream login packet of the new server.
#[derive(Clone, Debug)]
pub struct SwapStep {
    /// Write this packet to the new upstream.
    pub reply: Option<Packet>,
    /// Set both codecs to this threshold before reading the next packet.
    pub compression: Option<Option<usize>>,
    /// The new upstream is in the play state.
    pub finished: bool,
}

/// Where a swap goes: a configured server or a raw `ip:port` address.
#[derive(Clone, Debug)]
pub enum SwapTarget {
    Server(ProxyServer),
    Address(String),
}

/// The start of a swap: the address to dial, the server that becomes the
/// session's upstream (`None` for a raw address), the two packets to replay
/// on the new connection and the new generation of forwarding loops.
#[derive(Clone, Debug)]
pub struct SwapPlan {
    pub address: String,
    pub target: Option<ProxyServer>,
    pub handshake: Option<Packet>,
    pub login_start: Option<Packet>,
    pub generation: u64,
}

/// The connecting event that starts a swap to `target`, not cancelled.
pub open spec fn swap_event(target: SwapTarget, player: u64) -> ProxyEvent {
    match target {
        SwapTarget::Server(s) => ProxyEvent::PlayerConnectingServerEvent { player, server: s, cancelled: false },
        SwapTarget::Address(a) => ProxyEvent::PlayerConnectingIPEvent { player, ip: a, cancelled: false },
    }
}

/// Where a swap to `target` goes once the listeners left its connecting event
/// as `after`: the address to dial and the server that becomes the session's
/// upstream, or `None` when they cancelled.
pub open spec fn swap_destination(after: ProxyEvent, target: SwapTarget) -> Option<(Seq<char>, Option<crate::config::ServerSpec>)> {
    match target {
        SwapTarget::Server(s) => match connecting_server_outcome_spec(after, s@) {
            Some(v) => Some((v.host, Some(v))),
            None => None,
        },
        SwapTarget::Address(a) => match connecting_ip_outcome_spec(after, a@) {
            Some(ip) => Some((ip, None)),
            None => None,
        },
    }
}

/// What the end of a forwarding loop does to the session set: a loop of the
/// session's current generation removes it, a loop of an earlier generation
/// (one a swap aborted) leaves everything as it is.
pub open spec fn loop_end(
    before: Seq<PlayerSpec>,
    player: u64,
    generation: u64,
    after: Seq<PlayerSpec>,
    r: bool,
) -> bool {
    &&& r == exists|i: int|
        0 <= i < before.len() && before[i].id == player && before[i].connection_id == generation
    &&& r ==> removal(ids_of(before), player, ids_of(after), true)
    &&& !r ==> after == before
}

/// The disconnect of a session is reported once: of two loop ends of the
/// same session in a row, the second never removes it, the two dispatch at
/// most one `PlayerDisconnectedEvent` between them, and exactly one if the
/// session was there with the first loop's generation.
pub proof fn lemma_disconnected_once(
    a: Seq<PlayerSpec>,
    b: Seq<PlayerSpec>,
    c: Seq<PlayerSpec>,
    da: Seq<ProxyEvent>,
    db: Seq<ProxyEvent>,
    dc: Seq<ProxyEvent>,
    player: u64,
    g1: u64,
    g2: u64,
    r1: bool,
    r2: bool,
)
    requires
        loop_end(a, player, g1, b, r1),
        loop_end_events(da, player, r1, db),
        loop_end(b, player, g2, c, r2),
        loop_end_events(db, player, r2, dc),
    ensures
        !(r1 && r2),
        dc == da || dc == da.push(ProxyEvent::PlayerDisconnectedEvent { player }),
        (exists|i: int| 0 <= i < a.len() && a[i].id == player && a[i].connection_id == g1) ==> dc
            == da.push(ProxyEvent::PlayerDisconnectedEvent { player }),
{
    if r1 && r2 {
        let i = choose|i: int| 0 <= i < b.len() && b[i].id == player && b[i].connection_id == g2;
        assert(ids_of(b)[i] == player);
    }
}

/// The events that the end of a forwarding loop dispatches: one
/// `PlayerDisconnectedEvent` when it removed the session, none otherwise.
pub open spec fn loop_end_events(before: Seq<ProxyEvent>, player: u64, r: bool, after: Seq<ProxyEvent>) -> bool {
    if r {
        after == before.push(ProxyEvent::PlayerDisconnectedEvent { player })
    } else {
        after == before
    }
}

impl<L: EventListener> MeexProx<L> {
    /// Reads the client's login start and opens its session, pinned to
    /// `server`. Returns the session id, or `None` when a listener cancelled
    /// the connection, in which case the session set is as before.
    pub fn login_start(&mut self, handshake: &Handshake, server: &ProxyServer, packet: &Packet) -> (r:
        Result<Option<u64>, ProxyError>)
        requires
            old(self).wf(),
        ensures
            final(self).wf(),
            final(self).config_spec() == old(self).config_spec(),
            final(self).listener_count() == old(self).listener_count(),
            codecs_agree(old(self).players_spec()) ==> codecs_agree(final(self).players_spec()),
            packet.id != ID_HANDSHAKE ==> r == Err::<Option<u64>, ProxyError>(ProxyError::LoginPacket),
            packet.id == ID_HANDSHAKE && login_start_fields(packet.data@) is Err ==> r == Err::<
                Option<u64>,
                ProxyError,
            >(proxy_error_of(login_start_fields(packet.data@)->Err_0)),
            packet.id == ID_HANDSHAKE && login_start_fields(packet.data@) is Ok && old(self).listener_count()
                == 0 && old(self).next_id_spec() < u64::MAX ==> r matches Ok(Some(_)),
            final(self).listeners() == old(self).listeners(),
            r is Err ==> final(self).players_spec() == old(self).players_spec()
                && final(self).dispatched() == old(self).dispatched(),
            r matches Ok(None) ==> final(self).players_spec() == old(self).players_spec(),
            r is Ok ==> exists|id: u64, s: ProxyServer, after: ProxyEvent|
                s@ == server@ && final(self).dispatched() == old(self).dispatched().push(
                    ProxyEvent::PlayerConnectingServerEvent { player: id, server: s, cancelled: false },
                ) && dispatch(
                    old(self).listeners(),
                    ProxyEvent::PlayerConnectingServerEvent { player: id, server: s, cancelled: false },
                    after,
                ) && match r {
                    Ok(Some(x)) => x == id && connecting_server_outcome_spec(after, server@) is Some,
                    _ => connecting_server_outcome_spec(after, server@) is None,
                },
            r matches Ok(Some(id)) ==> packet.id == ID_HANDSHAKE && (login_start_fields(packet.data@)
                matches Ok((name, uuid)) && !old(self).ids().contains(id) && final(self).players_spec()
                == old(self).players_spec().push(
                PlayerSpec {
                    id,
                    name,
                    uuid,
                    protocol_version: handshake.protocol_version,
                    server_address: handshake.server_address@,
                    server_port: handshake.server_port,
                    server: Some(server@),
                    shared_secret: None,
                    verify_token: None,
                    connection_id: 0,
                    compression: Compression { client: None, server: None },
                },
            )),
    {
        let (name, uuid) = match parse_login_start(packet) {
            Ok(x) => x,
            Err(e) => return Err(e),
        };
        let id = match self.add_player(
            name,
            uuid,
            handshake.protocol_version,
            handshake.server_address.clone(),
            handshake.server_port,
            Some(server.duplicate()),
        ) {
            Some(id) => id,
            None => return Err(ProxyError::LoginPacket),
        };
        let ghost added = self.players_spec();
        let ghost before = *self;
        let s = server.duplicate();
        let ghost sg = s;
        let ghost ev = ProxyEvent::PlayerConnectingServerEvent { player: id, server: sg, cancelled: false };
        let outcome = ProxyEvent::player_connecting_server(self, id, s);
        let ghost after = choose|after: ProxyEvent|
            dispatch(before.listeners(), ev, after) && opt_server_view(outcome)
                == connecting_server_outcome_spec(after, sg@);
        assert(dispatch(old(self).listeners(), ev, after));
        assert(self.dispatched() =~= old(self).dispatched().push(ev));
        match outcome {
            Some(_) => {
                proof {
                    if codecs_agree(old(self).players_spec()) {
                        assert forall|i: int| 0 <= i < added.len() implies (#[trigger] added[i]).compression.client
                            == added[i].compression.server by {
                            if i < old(self).players_spec().len() {
                                assert(added[i] == old(self).players_spec()[i]);
                            }
                        }
                    }
                }
                Ok(Some(id))
            },
            None => {
                let ghost mid = self.players_spec();
                assert(mid == added);
                let removed = self.remove_player(id);
                proof {
                    let n = old(self).players_spec().len();
                    assert(added[n as int].id == id);
                    assert(ids_of(added)[n as int] == id);
                    assert(removed);
                    assert forall|i: int| 0 <= i < added.len() && added[i].id == id implies i == n by {
                        if i < n {
                            assert(old(self).ids()[i] == id);
                        }
                    }
                    let i = choose|i: int|
                        0 <= i < added.len() && added[i].id == id && self.players_spec() == added.remove(i);
                    assert(i == n);
                    assert(added.remove(n as int) =~= old(self).players_spec());
                    assert forall|p: PlayerSpec| self.players_spec().contains(p) == old(
                        self,
                    ).players_spec().contains(p) by {
                        if p.id == id {
                            if old(self).players_spec().contains(p) {
                                let k = old(self).players_spec().index_of(p);
                                assert(old(self).ids()[k] == id);
                            }
                            if self.players_spec().contains(p) {
                                let k = self.players_spec().index_of(p);
                                assert(self.ids()[k] == id);
                            }
                        } else {
                            assert(added.contains(p) == old(self).players_spec().contains(p)) by {
                                if added.contains(p) {
                                    let k = added.index_of(p);
                                    if k < old(self).players_spec().len() {
                                        assert(old(self).players_spec()[k] == p);
                                    }
                                }
                                if old(self).players_spec().contains(p) {
                                    let k = old(self).players_spec().index_of(p);
                                    assert(added[k] == p);
                                }
                            }
                        }
                    }
                    if codecs_agree(old(self).players_spec()) {
                        assert forall|i: int| 0 <= i < self.players_spec().len() implies (#[trigger] self.players_spec()[i]).compression.client
                            == self.players_spec()[i].compression.server by {
                            let p = self.players_spec()[i];
                            assert(self.players_spec().contains(p));
                            let k = old(self).players_spec().index_of(p);
                            assert(old(self).players_spec()[k] == p);
                        }
                    }
                }
                Ok(None)
            },
        }
    }

    /// One upstream packet of the login sub-protocol, after it was mirrored
    /// to the client: an encryption request (1) awaits the client's reply, a
    /// set-compression packet (3) sets both codecs of the session, and login
    /// success (2) acknowledges the login upstream and reports the player
    /// connected.
    pub fn login_server_packet(&mut self, player: u64, packet: &Packet) -> (r: Result<LoginStep, ProxyError>)
        requires
            old(self).wf(),
        ensures
            final(self).wf(),
            final(self).config_spec() == old(self).config_spec(),
            final(self).listener_count() == old(self).listener_count(),
            codecs_agree(old(self).players_spec()) ==> codecs_agree(final(self).players_spec()),
            packet.id == ID_SET_COMPRESSION ==> match compression_field(packet.data@) {
                Ok(t) => r matches Ok(step) && step.compression == Some(t) && !step.finished
                    && step.acknowledge is None && changed(
                    old(self).players_spec(),
                    final(self).players_spec(),
                    player,
                    |q: PlayerSpec| PlayerSpec { compression: Compression { client: t, server: t }, ..q },
                ),
                Err(e) => r == Err::<LoginStep, ProxyError>(proxy_error_of(e))
                    && final(self).players_spec() == old(self).players_spec(),
            },
            final(self).listeners() == old(self).listeners(),
            packet.id == ID_SET_COMPRESSION ==> final(self).dispatched() == old(self).dispatched(),
            packet.id != ID_SET_COMPRESSION && packet.id != ID_LOGIN_SUCCESS ==> final(self).only_dispatched(
                *old(self),
                Seq::empty(),
            ) && (r matches Ok(step) && step.compression
                is None && step.await_client_reply == (packet.id == ID_ENCRYPTION_REQUEST)
                && !step.finished && step.acknowledge is None),
            packet.id == ID_LOGIN_SUCCESS ==> (r matches Ok(step) && step.finished && step.compression
                is None && !step.await_client_reply && exists|ack: Packet, after: ProxyEvent|
                ack@ == (ID_SET_COMPRESSION, Seq::<u8>::empty()) && final(self).only_dispatched(
                    *old(self),
                    seq![
                        send_event(ack, player, true),
                        ProxyEvent::PlayerConnectedEvent { player },
                    ],
                ) && dispatch(old(self).listeners(), send_event(ack, player, true), after)
                    && opt_packet_view(step.acknowledge) == send_outcome_spec(after, true, ack@)),
    {
        if packet.id == ID_SET_COMPRESSION {
            let t = match parse_set_compression(packet) {
                Ok(t) => t,
                Err(e) => return Err(e.as_proxy()),
            };
            self.set_compression(player, t);
            return Ok(LoginStep { await_client_reply: false, compression: Some(t), acknowledge: None, finished: false });
        }
        if packet.id == ID_LOGIN_SUCCESS {
            let ack = login_acknowledged();
            assert(ack.data@ =~= Seq::<u8>::empty());
            let ghost ackg = ack;
            let ghost before = *self;
            let sent = ProxyEvent::send_server_packet(self, ack, player);
            let ghost after = choose|after: ProxyEvent|
                dispatch(before.listeners(), send_event(ackg, player, true), after)
                    && opt_packet_view(sent) == send_outcome_spec(after, true, ackg@);
            ProxyEvent::player_connected(self, player);
            proof {
                assert(self.dispatched() =~= old(self).dispatched() + seq![
                    send_event(ackg, player, true),
                    ProxyEvent::PlayerConnectedEvent { player },
                ]);
                assert(dispatch(old(self).listeners(), send_event(ackg, player, true), after));
            }
            return Ok(LoginStep { await_client_reply: false, compression: None, acknowledge: sent, finished: true });
        }
        proof {
            assert(self.dispatched() =~= self.dispatched() + Seq::<ProxyEvent>::empty());
        }
        Ok(LoginStep {
            await_client_reply: packet.id == ID_ENCRYPTION_REQUEST,
            compression: None,
            acknowledge: None,
            finished: false,
        })
    }

    /// The client's reply to an encryption request, whatever its id: its
    /// shared secret and verify token are kept on the session for later swaps.
    /// The caller forwards the packet upstream unchanged.
    pub fn login_client_reply(&mut self, player: u64, packet: &Packet) -> (r: Result<(), ProxyError>)
        requires
            old(self).wf(),
        ensures
            final(self).listeners() == old(self).listeners(),
            final(self).dispatched() == old(self).dispatched(),
            final(self).wf(),
            final(self).config_spec() == old(self).config_spec(),
            final(self).listener_count() == old(self).listener_count(),
            codecs_agree(old(self).players_spec()) ==> codecs_agree(final(self).players_spec()),
            match encryption_response_fields(packet.data@) {
                Ok((secret, token)) => r is Ok && changed(
                    old(self).players_spec(),
                    final(self).players_spec(),
                    player,
                    |q: PlayerSpec| PlayerSpec { shared_secret: Some(secret), verify_token: Some(token), ..q },
                ),
                Err(e) => r == Err::<(), ProxyError>(proxy_error_of(e))
                    && final(self).players_spec() == old(self).players_spec(),
            },
    {
        match parse_encryption_response(packet) {
            Ok((secret, token)) => {
                let ghost before = self.players_spec();
                self.record_encryption(player, secret, token);
                proof {
                    if codecs_agree(old(self).players_spec()) {
                        assert forall|i: int| 0 <= i < self.players_spec().len() implies (#[trigger] self.players_spec()[i]).compression.client
                            == self.players_spec()[i].compression.server by {
                            assert(self.players_spec()[i].compression == before[i].compression);
                        }
                    }
                }
                Ok(())
            },
            Err(e) => Err(e.as_proxy()),
        }
    }

    /// One packet of the forwarding phase, read from the client (`to_server`)
    /// or from the upstream server: the listeners see it received, then about
    /// to be sent. Returns the packet to write on the other side, or `None`
    /// when they cancelled the send.
    pub fn forward(&mut self, player: u64, packet: Packet, to_server: bool) -> (r: Option<Packet>)
        ensures
            exists|received: Packet, e1: ProxyEvent, e2: ProxyEvent|
                final(self).only_dispatched(
                    *old(self),
                    seq![recv_event(packet, player, to_server), send_event(received, player, to_server)],
                ) && dispatch(old(self).listeners(), recv_event(packet, player, to_server), e1)
                    && received@ == recv_outcome_spec(e1, to_server, packet@) && dispatch(
                    old(self).listeners(),
                    send_event(received, player, to_server),
                    e2,
                ) && opt_packet_view(r) == send_outcome_spec(e2, to_server, received@),
            old(self).listener_count() == 0 ==> opt_packet_view(r) == Some(packet@),
    {
        let received = ProxyEvent::recv_packet(self, packet, player, to_server);
        let ghost mid = *self;
        let ghost sent = received;
        let r = ProxyEvent::send_packet(self, received, player, to_server);
        proof {
            assert(self.dispatched() =~= old(self).dispatched() + seq![
                recv_event(packet, player, to_server),
                send_event(sent, player, to_server),
            ]);
        }
        r
    }

    /// The end of a forwarding loop of generation `generation`: a loop of the
    /// session's current generation removes the session and reports the
    /// player disconnected, returning true; any other call changes nothing.
    pub fn loop_finished(&mut self, player: u64, generation: u64) -> (r: bool)
        requires
            old(self).wf(),
        ensures
            final(self).wf(),
            final(self).config_spec() == old(self).config_spec(),
            final(self).listener_count() == old(self).listener_count(),
            loop_end(old(self).players_spec(), player, generation, final(self).players_spec(), r),
            final(self).listeners() == old(self).listeners(),
            loop_end_events(old(self).dispatched(), player, r, final(self).dispatched()),
            codecs_agree(old(self).players_spec()) ==> codecs_agree(final(self).players_spec()),
    {
        let ghost before = self.players_spec();
        let current = match self.get_player_by_id(player) {
            Some(p) => {
                let c = p.connection_id() == generation;
                proof {
                    if c {
                        let k = before.index_of(p@);
                        assert(before[k].id == player && before[k].connection_id == generation);
                        assert(self.ids()[k] == player);
                    }
                }
                c
            },
            None => false,
        };
        if !current {
            proof {
                if exists|i: int| 0 <= i < self.players_spec().len() && self.players_spec()[i].id == player
                    && self.players_spec()[i].connection_id == generation {
                    let i = choose|i: int| 0 <= i < self.players_spec().len() && self.players_spec()[i].id
                        == player && self.players_spec()[i].connection_id == generation;
                    assert(self.ids()[i] == player);
                }
            }
            return false;
        }
        let removed = self.remove_player(player);
        ProxyEvent::player_disconnected(self, player);
        proof {
            assert(old(self).ids().contains(player));
            assert(removed);
            assert(self.dispatched() =~= old(self).dispatched().push(
                ProxyEvent::PlayerDisconnectedEvent { player },
            ));
            if codecs_agree(old(self).players_spec()) {
                assert forall|i: int| 0 <= i < self.players_spec().len() implies (#[trigger] self.players_spec()[i]).compression.client
                    == self.players_spec()[i].compression.server by {
                    let p = self.players_spec()[i];
                    assert(self.ids()[i] == p.id);
                    assert(self.players_spec().contains(p));
                    let k = old(self).players_spec().index_of(p);
                    assert(old(self).players_spec()[k] == p);
                }
            }
        }
        removed
    }
}

/// Whether a swap appends the client's address to the replayed handshake:
/// in handshake forwarding mode, except for a raw address when
/// `no_pf_for_ip_connect` is set.
pub open spec fn swap_forwards(c: crate::config::ConfigSpec, raw_address: bool) -> bool {
    c.player_forwarding == PlayerForwarding::Handshake && !(raw_address && c.no_pf_for_ip_connect)
}

/// The session `id` of `players`, if there is one.
pub open spec fn session_of(players: Seq<PlayerSpec>, id: u64) -> Option<PlayerSpec> {
    if exists|i: int| 0 <= i < players.len() && players[i].id == id {
        Some(players[choose|i: int| 0 <= i < players.len() && players[i].id == id])
    } else {
        None
    }
}

proof fn lemma_session_of<L: EventListener>(m: &MeexProx<L>, id: u64, k: int)
    requires
        m.wf(),
        0 <= k < m.players_spec().len(),
        m.players_spec()[k].id == id,
    ensures
        session_of(m.players_spec(), id) == Some(m.players_spec()[k]),
{
    let ps = m.players_spec();
    let j = choose|i: int| 0 <= i < ps.len() && ps[i].id == id;
    if j != k {
        if j < k {
            assert(ps[j].id != ps[k].id);
        } else {
            assert(ps[k].id != ps[j].id);
        }
    }
}

impl<L: EventListener> MeexProx<L> {
    /// Starts moving session `player` to another upstream. The listeners see
    /// the connecting event first and may cancel the swap (`Ok(None)`, nothing
    /// changed). Otherwise the session's loops move to a new generation, which
    /// ends the old ones without removing the session, its upstream codec
    /// starts uncompressed, and the plan holds the handshake (next state 2)
    /// and login start to replay on the new connection. The client connection
    /// is left as it is.
    pub fn begin_swap(&mut self, player: u64, target: SwapTarget, client: &ClientAddr) -> (r: Result<
        Option<SwapPlan>,
        ProxyError,
    >)
        requires
            old(self).wf(),
            client.wf(),
        ensures
            final(self).wf(),
            final(self).config_spec() == old(self).config_spec(),
            final(self).listeners() == old(self).listeners(),
            session_of(old(self).players_spec(), player) is None ==> (r matches Ok(None)
                && final(self).only_dispatched(*old(self), Seq::empty())),
            session_of(old(self).players_spec(), player) matches Some(q) && old(self).listener_count()
                == 0 && encode_utf8(q.server_address).len() <= MAX_LENGTH && encode_utf8(q.name).len()
                <= MAX_LENGTH ==> r matches Ok(Some(_)),
            !(r matches Ok(Some(_))) ==> final(self).players_spec() == old(self).players_spec(),
            session_of(old(self).players_spec(), player) is Some ==> exists|after: ProxyEvent|
                dispatch(old(self).listeners(), swap_event(target, player), after) && (swap_destination(after, target) is None ==> r matches Ok(None)) && (!(r matches Ok(Some(_))) ==> final(self).dispatched() == old(self).dispatched().push(swap_event(target, player))) && (r matches Ok(Some(plan)) ==> swap_destination(after, target) == Some(
                    (plan.address@, opt_server_view(plan.target)),
                )),
            r matches Ok(Some(plan)) ==> (session_of(old(self).players_spec(), player) matches Some(q)
                && exists|hs: Packet, ls: Packet, e1: ProxyEvent, e2: ProxyEvent|
                hs@ == (
                    ID_HANDSHAKE,
                    handshake_spec(
                        q.protocol_version,
                        q.server_address,
                        q.server_port,
                        2,
                        if swap_forwards(old(self).config_spec(), target is Address) {
                            Some(*client)
                        } else {
                            None
                        },
                    ),
                ) && ls@ == (ID_HANDSHAKE, login_start_spec(q.name, q.uuid)) && final(self).dispatched()
                    == old(self).dispatched() + seq![
                    swap_event(target, player),
                    send_event(hs, player, true),
                    send_event(ls, player, true),
                ] && dispatch(old(self).listeners(), send_event(hs, player, true), e1)
                    && opt_packet_view(plan.handshake) == send_outcome_spec(e1, true, hs@) && dispatch(
                    old(self).listeners(),
                    send_event(ls, player, true),
                    e2,
                ) && opt_packet_view(plan.login_start) == send_outcome_spec(e2, true, ls@)
                    && plan.generation != q.connection_id && changed(
                    old(self).players_spec(),
                    final(self).players_spec(),
                    player,
                    |x: PlayerSpec| PlayerSpec {
                        connection_id: plan.generation,
                        compression: Compression { server: None, ..x.compression },
                        ..x
                    },
                )),
    {
        let q = match self.get_player_by_id(player) {
            Some(p) => p.clone_player(),
            None => {
                proof {
                    if exists|i: int| 0 <= i < self.players_spec().len() && self.players_spec()[i].id == player {
                        let i = choose|i: int| 0 <= i < self.players_spec().len() && self.players_spec()[i].id == player;
                        assert(self.ids()[i] == player);
                    }
                    assert(self.dispatched() =~= self.dispatched() + Seq::<ProxyEvent>::empty());
                }
                return Ok(None);
            },
        };
        proof {
            let k = self.players_spec().index_of(q@);
            lemma_session_of(self, player, k);
            assert(self.ids()[k] == player);
        }
        let ghost tg = target;
        let ghost start = *self;
        let ghost mut after_c = ProxyEvent::PlayerConnectedEvent { player };
        let raw = match &target {
            SwapTarget::Address(_) => true,
            SwapTarget::Server(_) => false,
        };
        let (address, server_target) = match target {
            SwapTarget::Server(s) => {
                let ghost sg = s;
                let res = ProxyEvent::player_connecting_server(self, player, s);
                proof {
                    after_c = choose|a: ProxyEvent|
                        dispatch(
                            start.listeners(),
                            ProxyEvent::PlayerConnectingServerEvent { player, server: sg, cancelled: false },
                            a,
                        ) && opt_server_view(res) == connecting_server_outcome_spec(a, sg@);
                    assert(self.dispatched() =~= old(self).dispatched().push(swap_event(tg, player)));
                }
                match res {
                    Some(s2) => (s2.host_string(), Some(s2)),
                    None => return Ok(None),
                }
            },
            SwapTarget::Address(ip) => {
                let ghost ipg = ip;
                let res = ProxyEvent::player_connecting_ip(self, player, ip);
                proof {
                    after_c = choose|a: ProxyEvent|
                        dispatch(
                            start.listeners(),
                            ProxyEvent::PlayerConnectingIPEvent { player, ip: ipg, cancelled: false },
                            a,
                        ) && opt_string_view(res) == connecting_ip_outcome_spec(a, ipg@);
                    assert(self.dispatched() =~= old(self).dispatched().push(swap_event(tg, player)));
                }
                match res {
                    Some(a) => (a, None),
                    None => return Ok(None),
                }
            },
        };
        assert(swap_destination(after_c, tg) == Some((address@, opt_server_view(server_target))));
        let forward = *self.config().player_forwarding() == PlayerForwarding::Handshake && !(raw
            && self.config().no_pf_for_ip_connect());
        let handshake = match build_handshake(
            q.protocol_version(),
            q.server_address(),
            q.server_port(),
            2,
            if forward {
                Some(client)
            } else {
                None
            },
        ) {
            Ok(p) => p,
            Err(e) => return Err(ProxyError::ProtocolError(e)),
        };
        let login_start = match build_login_start(q.name(), q.uuid()) {
            Ok(p) => p,
            Err(e) => return Err(ProxyError::ProtocolError(e)),
        };
        let ghost hsg = handshake;
        let ghost lsg = login_start;
        let ghost b1 = *self;
        let hs_out = ProxyEvent::send_server_packet(self, handshake, player);
        let ghost e1 = choose|e: ProxyEvent|
            dispatch(b1.listeners(), send_event(hsg, player, true), e) && opt_packet_view(hs_out)
                == send_outcome_spec(e, true, hsg@);
        let ghost b2 = *self;
        let ls_out = ProxyEvent::send_server_packet(self, login_start, player);
        let ghost e2 = choose|e: ProxyEvent|
            dispatch(b2.listeners(), send_event(lsg, player, true), e) && opt_packet_view(ls_out)
                == send_outcome_spec(e, true, lsg@);
        let generation = match self.begin_generation(player) {
            Some(g) => g,
            None => return Ok(None),
        };
        proof {
            assert(self.dispatched() =~= old(self).dispatched() + seq![
                swap_event(tg, player),
                send_event(hsg, player, true),
                send_event(lsg, player, true),
            ]);
            assert(dispatch(old(self).listeners(), send_event(hsg, player, true), e1));
            assert(dispatch(old(self).listeners(), send_event(lsg, player, true), e2));
            assert(dispatch(old(self).listeners(), swap_event(tg, player), after_c));
        }
        Ok(
            Some(
                SwapPlan {
                    address,
                    target: server_target,
                    handshake: hs_out,
                    login_start: ls_out,
                    generation,
                },
            ),
        )
    }

    /// One upstream packet of the new server during a swap: an encryption
    /// request (1) is answered with the shared secret and verify token
    /// captured at login, a set-compression packet (3) sets both codecs of
    /// the session, and login success (2) is acknowledged and ends the swap.
    /// Nothing is sent to the client.
    pub fn swap_server_packet(&mut self, player: u64, packet: &Packet) -> (r: Result<SwapStep, ProxyError>)
        requires
            old(self).wf(),
        ensures
            final(self).wf(),
            final(self).config_spec() == old(self).config_spec(),
            final(self).listener_count() == old(self).listener_count(),
            codecs_agree(old(self).players_spec()) ==> codecs_agree(final(self).players_spec()),
            packet.id == ID_SET_COMPRESSION ==> match compression_field(packet.data@) {
                Ok(t) => (r matches Ok(step) && step.compression == Some(t) && !step.finished
                    && step.reply is None && changed(
                    old(self).players_spec(),
                    final(self).players_spec(),
                    player,
                    |q: PlayerSpec| PlayerSpec { compression: Compression { client: t, server: t }, ..q },
                )),
                Err(e) => r == Err::<SwapStep, ProxyError>(proxy_error_of(e))
                    && final(self).players_spec() == old(self).players_spec(),
            },
            packet.id != ID_SET_COMPRESSION ==> final(self).players_spec() == old(self).players_spec(),
            packet.id == ID_ENCRYPTION_REQUEST ==> match session_of(old(self).players_spec(), player) {
                Some(q) => match (q.shared_secret, q.verify_token) {
                    (Some(secret), Some(token)) => secret.len() <= MAX_LENGTH && token.len()
                        <= MAX_LENGTH ==> (r matches Ok(step) && !step.finished && step.compression is None
                        && exists|p: Packet, e: ProxyEvent|
                        p@ == (ID_ENCRYPTION_REPLAY, encryption_response_spec(secret, token)) && final(self).only_dispatched(*old(self), seq![send_event(p, player, true)]) && dispatch(
                            old(self).listeners(),
                            send_event(p, player, true),
                            e,
                        ) && opt_packet_view(step.reply) == send_outcome_spec(e, true, p@)),
                    _ => r == Err::<SwapStep, ProxyError>(ProxyError::LoginPacket),
                },
                None => r == Err::<SwapStep, ProxyError>(ProxyError::LoginPacket),
            },
            packet.id == ID_LOGIN_SUCCESS ==> (r matches Ok(step) && step.finished
                && step.compression is None && exists|p: Packet, e: ProxyEvent|
                p@ == (ID_SET_COMPRESSION, Seq::<u8>::empty()) && final(self).only_dispatched(
                    *old(self),
                    seq![send_event(p, player, true)],
                ) && dispatch(old(self).listeners(), send_event(p, player, true), e) && opt_packet_view(step.reply) == send_outcome_spec(e, true, p@)),
            final(self).listeners() == old(self).listeners(),
            r is Err || (packet.id != ID_ENCRYPTION_REQUEST && packet.id != ID_LOGIN_SUCCESS)
                ==> final(self).dispatched() == old(self).dispatched(),
            packet.id != ID_SET_COMPRESSION && packet.id != ID_ENCRYPTION_REQUEST && packet.id
                != ID_LOGIN_SUCCESS ==> (r matches Ok(step) && !step.finished && step.reply is None
                && step.compression is None),
    {
        if packet.id == ID_SET_COMPRESSION {
            let t = match parse_set_compression(packet) {
                Ok(t) => t,
                Err(e) => return Err(e.as_proxy()),
            };
            self.set_compression(player, t);
            return Ok(SwapStep { reply: None, compression: Some(t), finished: false });
        }
        if packet.id == ID_LOGIN_SUCCESS {
            let ack = login_acknowledged();
            assert(ack.data@ =~= Seq::<u8>::empty());
            let sent = ProxyEvent::send_server_packet(self, ack, player);
            return Ok(SwapStep { reply: sent, compression: None, finished: true });
        }
        if packet.id == ID_ENCRYPTION_REQUEST {
            let q = match self.get_player_by_id(player) {
                Some(p) => p,
                None => {
                    proof {
                        if exists|i: int| 0 <= i < self.players_spec().len() && self.players_spec()[i].id == player {
                            let i = choose|i: int| 0 <= i < self.players_spec().len() && self.players_spec()[i].id == player;
                            assert(self.ids()[i] == player);
                        }
                    }
                    return Err(ProxyError::LoginPacket);
                },
            };
            proof {
                let k = self.players_spec().index_of(q@);
                lemma_session_of(self, player, k);
            }
            let reply = match (q.shared_secret(), q.verify_token()) {
                (Some(secret), Some(token)) => match build_encryption_response(secret, token) {
                    Ok(p) => p,
                    Err(e) => return Err(ProxyError::ProtocolError(e)),
                },
                _ => return Err(ProxyError::LoginPacket),
            };
            let sent = ProxyEvent::send_server_packet(self, reply, player);
            return Ok(SwapStep { reply: sent, compression: None, finished: false });
        }
        Ok(SwapStep { reply: None, compression: None, finished: false })
    }

    /// Ends a swap: `server` becomes the session's upstream (`None` for a raw
    /// address).
    pub fn finish_swap(&mut self, player: u64, server: Option<ProxyServer>)
        requires
            old(self).wf(),
        ensures
            final(self).listeners() == old(self).listeners(),
            final(self).dispatched() == old(self).dispatched(),
            final(self).wf(),
            final(self).config_spec() == old(self).config_spec(),
            final(self).listener_count() == old(self).listener_count(),
            changed(
                old(self).players_spec(),
                final(self).players_spec(),
                player,
                |q: PlayerSpec| PlayerSpec { server: opt_server_view(server), ..q },
            ),
            codecs_agree(old(self).players_spec()) ==> codecs_agree(final(self).players_spec()),
    {
        self.set_server(player, server);
    }
}

/// A swap keeps the client codec and the upstream codec of every session in
/// agreement when the swapped session's client codec is uncompressed: the new
/// upstream codec starts uncompressed, and the client codec keeps its
/// threshold until the new server sets one.
pub proof fn lemma_swap_codecs(before: Seq<PlayerSpec>, after: Seq<PlayerSpec>, id: u64, generation: u64)
    requires
        codecs_agree(before),
        changed(
            before,
            after,
            id,
            |x: PlayerSpec| PlayerSpec {
                connection_id: generation,
                compression: Compression { server: None, ..x.compression },
                ..x
            },
        ),
        forall|i: int| 0 <= i < before.len() && before[i].id == id ==> before[i].compression.client is None,
    ensures
        codecs_agree(after),
{
    assert forall|i: int| 0 <= i < after.len() implies (#[trigger] after[i]).compression.client
        == after[i].compression.server by {
        assert(after[i] == if before[i].id == id {
            PlayerSpec {
                connection_id: generation,
                compression: Compression { server: None, ..before[i].compression },
                ..before[i]
            }
        } else {
            before[i]
        });
    }
}

} // verus!
