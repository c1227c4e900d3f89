//! The proxy instance: its configuration, the set of player sessions and the
//! event listeners, with the events they receive.
use vstd::prelude::*;
use crate::config::{opt_server_view, ProxyConfig, ProxyServer, ServerSpec};
use crate::protocol::ClientAddr;
use crate::wire::{copy_bytes, Packet};
use crate::error::ProxyError;

verus! {

/// The compression thresholds of a session's client codec and upstream codec.
#[derive(Clone, Copy, Debug, PartialEq, Eq, Structural)]
pub struct Compression {
    pub client: Option<usize>,
    pub server: Option<usize>,
}

/// A player session as the logic sees it.
pub struct PlayerSpec {
    pub id: u64,
    pub name: Seq<char>,
    pub uuid: u128,
    pub protocol_version: u16,
    pub server_address: Seq<char>,
    pub server_port: u16,
    pub server: Option<ServerSpec>,
    pub shared_secret: Option<Seq<u8>>,
    pub verify_token: Option<Seq<u8>>,
    pub connection_id: u64,
    pub compression: Compression,
}

/// One connected player: identity, the handshake it gave, its current
/// upstream, the encryption material captured at login and the compression
/// state of its two codecs.
#[derive(Clone, Debug)]
pub struct ProxyPlayer {
    id: u64,
    name: String,
    uuid: u128,
    protocol_version: u16,
    server_address: String,
    server_port: u16,
    server: Option<ProxyServer>,
    shared_secret: Option<Vec<u8>>,
    verify_token: Option<Vec<u8>>,
    connection_id: u64,
    compression: Compression,
}

pub open spec fn opt_bytes(o: Option<Vec<u8>>) -> Option<Seq<u8>> {
    match o {
        Some(v) => Some(v@),
        None => None,
    }
}

impl View for ProxyPlayer {
    type V = PlayerSpec;

    closed spec fn view(&self) -> PlayerSpec {
        PlayerSpec {
            id: self.id,
            name: self.name@,
            uuid: self.uuid,
            protocol_version: self.protocol_version,
            server_address: self.server_address@,
            server_port: self.server_port,
            server: opt_server_view(self.server),
            shared_secret: opt_bytes(self.shared_secret),
            verify_token: opt_bytes(self.verify_token),
            connection_id: self.connection_id,
            compression: self.compression,
        }
    }
}

impl ProxyPlayer {
    /// A session for a player that has just sent its login start, pinned to
    /// `server`, with no captured encryption material and no compression.
    pub fn new(
        id: u64,
        name: String,
        uuid: u128,
        protocol_version: u16,
        server_address: String,
        server_port: u16,
        server: Option<ProxyServer>,
    ) -> (r: ProxyPlayer)
        ensures
            r@ == (PlayerSpec {
                id,
                name: name@,
                uuid,
                protocol_version,
                server_address: server_address@,
                server_port,
                server: opt_server_view(server),
                shared_secret: None,
                verify_token: None,
                connection_id: 0,
                compression: Compression { client: None, server: None },
            }),
    {
        ProxyPlayer {
            id,
            name,
            uuid,
            protocol_version,
            server_address,
            server_port,
            server,
            shared_secret: None,
            verify_token: None,
            connection_id: 0,
            compression: Compression { client: None, server: None },
        }
    }

    pub fn id(&self) -> (r: u64)
        ensures
            r == self@.id,
    {
        self.id
    }

    pub fn name(&self) -> (r: &str)
        ensures
            r@ == self@.name,
    {
        self.name.as_str()
    }

    pub fn uuid(&self) -> (r: u128)
        ensures
            r == self@.uuid,
    {
        self.uuid
    }

    pub fn protocol_version(&self) -> (r: u16)
        ensures
            r == self@.protocol_version,
    {
        self.protocol_version
    }

    /// The server address the client gave in its handshake.
    pub fn server_address(&self) -> (r: &str)
        ensures
            r@ == self@.server_address,
    {
        self.server_address.as_str()
    }

    /// The server port the client gave in its handshake.
    pub fn server_port(&self) -> (r: u16)
        ensures
            r == self@.server_port,
    {
        self.server_port
    }

    /// The current upstream; `None` after a swap to a raw address.
    pub fn server(&self) -> (r: Option<&ProxyServer>)
        ensures
            match r {
                Some(s) => self@.server == Some(s@),
                None => self@.server is None,
            },
    {
        self.server.as_ref()
    }

    pub fn shared_secret(&self) -> (r: Option<&Vec<u8>>)
        ensures
            match r {
                Some(v) => self@.shared_secret == Some(v@),
                None => self@.shared_secret is None,
            },
    {
        self.shared_secret.as_ref()
    }

    pub fn verify_token(&self) -> (r: Option<&Vec<u8>>)
        ensures
            match r {
                Some(v) => self@.verify_token == Some(v@),
                None => self@.verify_token is None,
            },
    {
        self.verify_token.as_ref()
    }

    /// The generation of the session's forwarding loops; a swap starts a new one.
    pub fn connection_id(&self) -> (r: u64)
        ensures
            r == self@.connection_id,
    {
        self.connection_id
    }

    pub fn compression(&self) -> (r: Compression)
        ensures
            r == self@.compression,
    {
        self.compression
    }
}

/// An event handed to the listeners, which may change its fields and, where
/// it has one, set its `cancelled` flag.
#[derive(Clone, Debug)]
pub enum ProxyEvent {
    /// A packet arrived from the upstream server.
    RecvServerPacketEvent { packet: Packet, player: u64 },
    /// A packet is about to be written to the client.
    SendClientPacketEvent { packet: Packet, player: u64, cancelled: bool },
    /// A packet arrived from the client.
    RecvClientPacketEvent { packet: Packet, player: u64 },
    /// A packet is about to be written to the upstream server.
    SendServerPacketEvent { packet: Packet, player: u64, cancelled: bool },
    /// A player is about to be connected to an upstream server.
    PlayerConnectingServerEvent { player: u64, server: ProxyServer, cancelled: bool },
    /// A player is about to be connected to a raw `ip:port` address.
    PlayerConnectingIPEvent { player: u64, ip: String, cancelled: bool },
    /// A player reached the play state.
    PlayerConnectedEvent { player: u64 },
    /// A player's session ended.
    PlayerDisconnectedEvent { player: u64 },
    /// A client asked for the server status.
    StatusRequestEvent {
        status: String,
        client_address: ClientAddr,
        server_address: String,
        server_port: u16,
        cancelled: bool,
    },
}

/// Code that observes and changes events. Listeners are called in the order
/// they were added; an error from one is ignored.
pub trait EventListener {
    /// What this listener does to an event: it may turn `before` into `after`.
    /// A listener that states nothing more may turn any event into any other.
    open spec fn handles(&self, before: ProxyEvent, after: ProxyEvent) -> bool {
        true
    }

    fn on_event(&self, event: &mut ProxyEvent) -> (r: Result<(), ProxyError>)
        ensures
            self.handles(*old(event), *final(event)),
    ;
}

/// `states` is the event as handed to each listener in turn, and as the last
/// one left it: listener `i` turned `states[i]` into `states[i + 1]`.
pub open spec fn handled_in_order<L: EventListener>(listeners: Seq<L>, states: Seq<ProxyEvent>) -> bool {
    &&& states.len() == listeners.len() + 1
    &&& forall|i: int| 0 <= i < listeners.len() ==> #[trigger] listeners[i].handles(states[i], states[i + 1])
}

/// `after` is what `listeners`, called once each in order, each seeing the
/// changes of those before it, can make of `event`.
pub open spec fn dispatch<L: EventListener>(listeners: Seq<L>, event: ProxyEvent, after: ProxyEvent) -> bool {
    exists|states: Seq<ProxyEvent>|
        handled_in_order(listeners, states) && states[0] == event && states.last() == after
}

/// With no listener, an event comes back as it was handed over.
pub proof fn lemma_dispatch_none<L: EventListener>(listeners: Seq<L>, event: ProxyEvent, after: ProxyEvent)
    requires
        listeners.len() == 0,
        dispatch(listeners, event, after),
    ensures
        after == event,
{
}

pub open spec fn opt_packet_view(o: Option<Packet>) -> Option<(u8, Seq<u8>)> {
    match o {
        Some(p) => Some(p@),
        None => None,
    }
}

/// The packet forwarded after the listeners saw a received packet: the
/// event's packet, or `given` if a listener changed the event's kind.
pub open spec fn recv_outcome_spec(e: ProxyEvent, to_server: bool, given: (u8, Seq<u8>)) -> (u8, Seq<u8>) {
    match e {
        ProxyEvent::RecvClientPacketEvent { packet, .. } => if to_server {
            packet@
        } else {
            given
        },
        ProxyEvent::RecvServerPacketEvent { packet, .. } => if !to_server {
            packet@
        } else {
            given
        },
        _ => given,
    }
}

/// The packet written after the listeners saw a packet about to be sent:
/// `None` if they cancelled it, else the event's packet, or `given` if a
/// listener changed the event's kind.
pub open spec fn send_outcome_spec(e: ProxyEvent, to_server: bool, given: (u8, Seq<u8>)) -> Option<
    (u8, Seq<u8>),
> {
    match e {
        ProxyEvent::SendServerPacketEvent { packet, cancelled, .. } => if !to_server {
            Some(given)
        } else if cancelled {
            None
        } else {
            Some(packet@)
        },
        ProxyEvent::SendClientPacketEvent { packet, cancelled, .. } => if to_server {
            Some(given)
        } else if cancelled {
            None
        } else {
            Some(packet@)
        },
        _ => Some(given),
    }
}

/// The status text after the listeners saw a status request: `None` if they
/// cancelled it, else the event's text, or `given` if a listener changed
/// the event's kind.
pub open spec fn status_outcome_spec(e: ProxyEvent, given: Seq<char>) -> Option<Seq<char>> {
    match e {
        ProxyEvent::StatusRequestEvent { status, cancelled, .. } => if cancelled {
            None
        } else {
            Some(status@)
        },
        _ => Some(given),
    }
}

pub open spec fn opt_string_view(o: Option<String>) -> Option<Seq<char>> {
    match o {
        Some(s) => Some(s@),
        None => None,
    }
}

impl ProxyEvent {
    pub fn recv_outcome(self, to_server: bool, given: Packet) -> (r: Packet)
        ensures
            r@ == recv_outcome_spec(self, to_server, given@),
    {
        match self {
            ProxyEvent::RecvClientPacketEvent { packet, .. } => if to_server {
                packet
            } else {
                given
            },
            ProxyEvent::RecvServerPacketEvent { packet, .. } => if !to_server {
                packet
            } else {
                given
            },
            _ => given,
        }
    }

    pub fn send_outcome(self, to_server: bool, given: Packet) -> (r: Option<Packet>)
        ensures
            opt_packet_view(r) == send_outcome_spec(self, to_server, given@),
    {
        match self {
            ProxyEvent::SendServerPacketEvent { packet, cancelled, .. } => if !to_server {
                Some(given)
            } else if cancelled {
                None
            } else {
                Some(packet)
            },
            ProxyEvent::SendClientPacketEvent { packet, cancelled, .. } => if to_server {
                Some(given)
            } else if cancelled {
                None
            } else {
                Some(packet)
            },
            _ => Some(given),
        }
    }

    pub fn status_outcome(self, given: String) -> (r: Option<String>)
        ensures
            opt_string_view(r) == status_outcome_spec(self, given@),
    {
        match self {
            ProxyEvent::StatusRequestEvent { status, cancelled, .. } => if cancelled {
                None
            } else {
                Some(status)
            },
            _ => Some(given),
        }
    }

    /// The server to connect to after the listeners saw a connecting event.
    pub fn connecting_server_outcome(self, given: ProxyServer) -> (r: Option<ProxyServer>)
        ensures
            opt_server_view(r) == connecting_server_outcome_spec(self, given@),
    {
        match self {
            ProxyEvent::PlayerConnectingServerEvent { server, cancelled, .. } => if cancelled {
                None
            } else {
                Some(server)
            },
            _ => Some(given),
        }
    }

    /// The address to connect to after the listeners saw a connecting event.
    pub fn connecting_ip_outcome(self, given: String) -> (r: Option<String>)
        ensures
            opt_string_view(r) == connecting_ip_outcome_spec(self, given@),
    {
        match self {
            ProxyEvent::PlayerConnectingIPEvent { ip, cancelled, .. } => if cancelled {
                None
            } else {
                Some(ip)
            },
            _ => Some(given),
        }
    }

    /// The event for a packet received from the client (`to_server`) or from
    /// the upstream server.
    pub fn received(packet: Packet, player: u64, to_server: bool) -> (e: ProxyEvent)
        ensures
            e == recv_event(packet, player, to_server),
    {
        if to_server {
            ProxyEvent::RecvClientPacketEvent { packet, player }
        } else {
            ProxyEvent::RecvServerPacketEvent { packet, player }
        }
    }

    /// The event for a packet about to be written to the upstream server
    /// (`to_server`) or to the client.
    pub fn sending(packet: Packet, player: u64, to_server: bool) -> (e: ProxyEvent)
        ensures
            e == send_event(packet, player, to_server),
    {
        if to_server {
            ProxyEvent::SendServerPacketEvent { packet, player, cancelled: false }
        } else {
            ProxyEvent::SendClientPacketEvent { packet, player, cancelled: false }
        }
    }
}

/// The server to connect to after the listeners saw a connecting event:
/// `None` if they cancelled it, else the event's server, or `given` if a
/// listener changed the event's kind.
pub open spec fn connecting_server_outcome_spec(e: ProxyEvent, given: ServerSpec) -> Option<ServerSpec> {
    match e {
        ProxyEvent::PlayerConnectingServerEvent { server, cancelled, .. } => if cancelled {
            None
        } else {
            Some(server@)
        },
        _ => Some(given),
    }
}

/// The address to connect to after the listeners saw a connecting event:
/// `None` if they cancelled it, else the event's address, or `given` if a
/// listener changed the event's kind.
pub open spec fn connecting_ip_outcome_spec(e: ProxyEvent, given: Seq<char>) -> Option<Seq<char>> {
    match e {
        ProxyEvent::PlayerConnectingIPEvent { ip, cancelled, .. } => if cancelled {
            None
        } else {
            Some(ip@)
        },
        _ => Some(given),
    }
}

/// The event for a packet received from the client (`to_server`) or from the
/// upstream server.
pub open spec fn recv_event(packet: Packet, player: u64, to_server: bool) -> ProxyEvent {
    if to_server {
        ProxyEvent::RecvClientPacketEvent { packet, player }
    } else {
        ProxyEvent::RecvServerPacketEvent { packet, player }
    }
}

/// The event for a packet about to be written to the upstream server
/// (`to_server`) or to the client, not cancelled.
pub open spec fn send_event(packet: Packet, player: u64, to_server: bool) -> ProxyEvent {
    if to_server {
        ProxyEvent::SendServerPacketEvent { packet, player, cancelled: false }
    } else {
        ProxyEvent::SendClientPacketEvent { packet, player, cancelled: false }
    }
}

/// The ids of a sequence of sessions.
pub open spec fn ids_of(players: Seq<PlayerSpec>) -> Seq<u64> {
    players.map_values(|p: PlayerSpec| p.id)
}

/// What a removal of `id` from the session set does: it reports whether `id`
/// was there, takes it out and leaves every other session in place.
pub open spec fn removal(before: Seq<u64>, id: u64, after: Seq<u64>, r: bool) -> bool {
    &&& r == before.contains(id)
    &&& !after.contains(id)
    &&& forall|x: u64| x != id ==> (after.contains(x) == before.contains(x))
}

/// A session leaves the set exactly once: of two removals of the same id in a
/// row, the first reports it gone if it was there, and the second never does.
pub proof fn lemma_removed_once(a: Seq<u64>, b: Seq<u64>, c: Seq<u64>, id: u64, r1: bool, r2: bool)
    requires
        removal(a, id, b, r1),
        removal(b, id, c, r2),
    ensures
        !r2,
        a.contains(id) ==> r1,
{
}

/// The proxy: its configuration, the sessions of connected players and the
/// event listeners in the order they were added.
pub struct MeexProx<L> {
    config: ProxyConfig,
    players: Vec<ProxyPlayer>,
    event_listeners: Vec<L>,
    next_id: u64,
    dispatched: Ghost<Seq<ProxyEvent>>,
}

pub open spec fn players_view(players: Seq<ProxyPlayer>) -> Seq<PlayerSpec> {
    players.map_values(|p: ProxyPlayer| p@)
}

impl<L: EventListener> MeexProx<L> {
    /// The sessions, in the order they were added.
    pub closed spec fn players_spec(&self) -> Seq<PlayerSpec> {
        players_view(self.players@)
    }

    /// The listeners, in the order they were added.
    pub closed spec fn listeners(&self) -> Seq<L> {
        self.event_listeners@
    }

    pub open spec fn listener_count(&self) -> nat {
        self.listeners().len()
    }

    /// Every event handed to the listeners so far, in order, as it was handed.
    pub closed spec fn dispatched(&self) -> Seq<ProxyEvent> {
        self.dispatched@
    }

    pub closed spec fn config_spec(&self) -> crate::config::ConfigSpec {
        self.config@
    }

    pub closed spec fn next_id_spec(&self) -> u64 {
        self.next_id
    }

    /// The session ids are distinct, and below the next id to give out.
    pub open spec fn wf(&self) -> bool {
        &&& forall|i: int, j: int|
            0 <= i < j < self.players_spec().len() ==> (#[trigger] self.players_spec()[i]).id
                != (#[trigger] self.players_spec()[j]).id
        &&& forall|i: int|
            0 <= i < self.players_spec().len() ==> (#[trigger] self.players_spec()[i]).id
                < self.next_id_spec()
    }

    pub open spec fn ids(&self) -> Seq<u64> {
        ids_of(self.players_spec())
    }

    /// `self` is `before` with `events` handed to the listeners, in order,
    /// and nothing else changed.
    pub open spec fn only_dispatched(self, before: Self, events: Seq<ProxyEvent>) -> bool {
        &&& self.dispatched() == before.dispatched() + events
        &&& self.listeners() == before.listeners()
        &&& self.players_spec() == before.players_spec()
        &&& self.config_spec() == before.config_spec()
        &&& self.next_id_spec() == before.next_id_spec()
    }

    pub fn new(config: ProxyConfig) -> (r: MeexProx<L>)
        ensures
            r.wf(),
            r.players_spec().len() == 0,
            r.listeners().len() == 0,
            r.dispatched().len() == 0,
            r.config_spec() == config@,
    {
        MeexProx {
            config,
            players: Vec::new(),
            event_listeners: Vec::new(),
            next_id: 0,
            dispatched: Ghost(Seq::empty()),
        }
    }

    pub fn config(&self) -> (r: &ProxyConfig)
        ensures
            r@ == self.config_spec(),
    {
        &self.config
    }

    pub fn get_players(&self) -> (r: &Vec<ProxyPlayer>)
        ensures
            players_view(r@) == self.players_spec(),
    {
        &self.players
    }

    /// Adds a listener after those already added.
    pub fn add_event_listener(&mut self, event_listener: L)
        ensures
            final(self).listeners() == old(self).listeners().push(event_listener),
            final(self).dispatched() == old(self).dispatched(),
            final(self).players_spec() == old(self).players_spec(),
            final(self).config_spec() == old(self).config_spec(),
            final(self).next_id_spec() == old(self).next_id_spec(),
    {
        self.event_listeners.push(event_listener);
    }

    /// Hands `event` to every listener once, in the order they were added,
    /// each seeing the changes of those before it; an error from a listener
    /// is ignored and the next one still runs. Returns the event as the last
    /// one left it, and records `event` as dispatched.
    pub fn trigger_event(&mut self, event: ProxyEvent) -> (r: ProxyEvent)
        ensures
            final(self).dispatched() == old(self).dispatched().push(event),
            dispatch(old(self).listeners(), event, r),
            old(self).listeners().len() == 0 ==> r == event,
            final(self).listeners() == old(self).listeners(),
            final(self).players_spec() == old(self).players_spec(),
            final(self).config_spec() == old(self).config_spec(),
            final(self).next_id_spec() == old(self).next_id_spec(),
    {
        let ghost given = event;
        self.dispatched = Ghost(self.dispatched@.push(event));
        let mut current = event;
        let ghost mut states: Seq<ProxyEvent> = seq![event];
        let mut i: usize = 0;
        while i < self.event_listeners.len()
            invariant
                i <= self.event_listeners@.len(),
                states.len() == i + 1,
                states[0] == given,
                states.last() == current,
                forall|j: int|
                    0 <= j < i ==> #[trigger] self.event_listeners@[j].handles(states[j], states[j + 1]),
            decreases self.event_listeners.len() - i,
        {
            let _ = self.event_listeners[i].on_event(&mut current);
            proof {
                states = states.push(current);
            }
            i = i + 1;
        }
        assert(handled_in_order(self.event_listeners@, states));
        current
    }

    /// The first session of the player with this UUID.
    pub fn get_player(&self, uuid: u128) -> (r: Option<&ProxyPlayer>)
        ensures
            match r {
                Some(p) => exists|i: int|
                    0 <= i < self.players_spec().len() && self.players_spec()[i] == p@
                        && p@.uuid == uuid && forall|j: int|
                        0 <= j < i ==> (#[trigger] self.players_spec()[j]).uuid != uuid,
                None => forall|i: int|
                    0 <= i < self.players_spec().len() ==> (#[trigger] self.players_spec()[i]).uuid
                        != uuid,
            },
    {
        let mut i: usize = 0;
        while i < self.players.len()
            invariant
                i <= self.players@.len(),
                forall|j: int| 0 <= j < i ==> (#[trigger] self.players_spec()[j]).uuid != uuid,
            decreases self.players.len() - i,
        {
            if self.players[i].uuid == uuid {
                assert(self.players_spec()[i as int] == self.players@[i as int]@);
                return Some(&self.players[i]);
            }
            i = i + 1;
        }
        None
    }

    fn index_of(&self, id: u64) -> (r: Option<usize>)
        requires
            self.wf(),
        ensures
            match r {
                Some(i) => i < self.players@.len() && self.players_spec()[i as int].id == id,
                None => !self.ids().contains(id),
            },
    {
        let mut i: usize = 0;
        while i < self.players.len()
            invariant
                i <= self.players@.len(),
                forall|j: int| 0 <= j < i ==> (#[trigger] self.players_spec()[j]).id != id,
            decreases self.players.len() - i,
        {
            if self.players[i].id == id {
                return Some(i);
            }
            i = i + 1;
        }
        proof {
            if self.ids().contains(id) {
                let k = self.ids().index_of(id);
                assert(self.players_spec()[k].id == id);
            }
        }
        None
    }

    /// The session with this id.
    pub fn get_player_by_id(&self, id: u64) -> (r: Option<&ProxyPlayer>)
        requires
            self.wf(),
        ensures
            match r {
                Some(p) => p@.id == id && self.players_spec().contains(p@),
                None => !self.ids().contains(id),
            },
    {
        match self.index_of(id) {
            Some(i) => Some(&self.players[i]),
            None => None,
        }
    }

    /// Adds a session under a fresh id, which it returns; `None` when the ids
    /// are used up.
    pub fn add_player(
        &mut self,
        name: String,
        uuid: u128,
        protocol_version: u16,
        server_address: String,
        server_port: u16,
        server: Option<ProxyServer>,
    ) -> (r: Option<u64>)
        requires
            old(self).wf(),
        ensures
            final(self).wf(),
            final(self).listeners() == old(self).listeners(),
            final(self).dispatched() == old(self).dispatched(),
            final(self).config_spec() == old(self).config_spec(),
            match r {
                Some(id) => !old(self).ids().contains(id) && final(self).players_spec()
                    == old(self).players_spec().push(
                    PlayerSpec {
                        id,
                        name: name@,
                        uuid,
                        protocol_version,
                        server_address: server_address@,
                        server_port,
                        server: opt_server_view(server),
                        shared_secret: None,
                        verify_token: None,
                        connection_id: 0,
                        compression: Compression { client: None, server: None },
                    },
                ),
                None => final(self).players_spec() == old(self).players_spec(),
            },
            old(self).next_id_spec() < u64::MAX ==> r is Some,
    {
        if self.next_id == u64::MAX {
            return None;
        }
        let id = self.next_id;
        let p = ProxyPlayer::new(id, name, uuid, protocol_version, server_address, server_port, server);
        self.players.push(p);
        self.next_id = id + 1;
        proof {
            assert(players_view(self.players@) =~= players_view(old(self).players@).push(p@));
            if old(self).ids().contains(id) {
                let k = old(self).ids().index_of(id);
                assert(old(self).players_spec()[k].id < id);
            }
        }
        Some(id)
    }

    /// Removes the session with this id; true only if it was there.
    pub fn remove_player(&mut self, id: u64) -> (r: bool)
        requires
            old(self).wf(),
        ensures
            final(self).wf(),
            removal(old(self).ids(), id, final(self).ids(), r),
            r ==> exists|i: int|
                0 <= i < old(self).players_spec().len() && old(self).players_spec()[i].id == id
                    && final(self).players_spec() == old(self).players_spec().remove(i),
            !r ==> final(self).players_spec() == old(self).players_spec(),
            final(self).listeners() == old(self).listeners(),
            final(self).dispatched() == old(self).dispatched(),
            final(self).config_spec() == old(self).config_spec(),
            forall|p: PlayerSpec| p.id != id ==> (final(self).players_spec().contains(p)
                == old(self).players_spec().contains(p)),
    {
        match self.index_of(id) {
            Some(i) => {
                let ghost before = self.players_spec();
                assert(ids_of(before)[i as int] == id);
                self.players.remove(i);
                proof {
                    assert(self.players_spec() =~= before.remove(i as int));
                    assert(self.ids() =~= ids_of(before).remove(i as int));
                    assert forall|x: u64| x != id implies (self.ids().contains(x) == ids_of(
                        before,
                    ).contains(x)) by {
                        if ids_of(before).contains(x) {
                            let k = ids_of(before).index_of(x);
                            if k < i {
                                assert(self.ids()[k] == x);
                            } else {
                                assert(k != i);
                                assert(self.ids()[k - 1] == x);
                            }
                        }
                    }
                    if self.ids().contains(id) {
                        let k = self.ids().index_of(id);
                        if k < i {
                            assert(before[k].id == id);
                        } else {
                            assert(before[k + 1].id == id);
                        }
                    }
                    assert forall|p: PlayerSpec| p.id != id implies (self.players_spec().contains(
                        p,
                    ) == before.contains(p)) by {
                        if before.contains(p) {
                            let k = before.index_of(p);
                            if k < i {
                                assert(self.players_spec()[k] == p);
                            } else {
                                assert(k != i);
                                assert(self.players_spec()[k - 1] == p);
                            }
                        }
                    }
                }
                true
            },
            None => false,
        }
    }
}

/// `after` is `before` with the session `id` changed by `f`.
pub open spec fn changed(
    before: Seq<PlayerSpec>,
    after: Seq<PlayerSpec>,
    id: u64,
    f: spec_fn(PlayerSpec) -> PlayerSpec,
) -> bool {
    &&& after.len() == before.len()
    &&& forall|i: int|
        0 <= i < before.len() ==> (#[trigger] after[i]) == if before[i].id == id {
            f(before[i])
        } else {
            before[i]
        }
}

/// Every session's client codec and upstream codec have the same threshold.
pub open spec fn codecs_agree(players: Seq<PlayerSpec>) -> bool {
    forall|i: int|
        0 <= i < players.len() ==> (#[trigger] players[i]).compression.client
            == players[i].compression.server
}

proof fn lemma_changed_ids(before: Seq<PlayerSpec>, after: Seq<PlayerSpec>, id: u64, f: spec_fn(PlayerSpec) -> PlayerSpec)
    requires
        changed(before, after, id, f),
        forall|p: PlayerSpec| #[trigger] f(p).id == p.id,
    ensures
        ids_of(after) == ids_of(before),
{
    assert(ids_of(after) =~= ids_of(before));
}

impl<L: EventListener> MeexProx<L> {
    fn change_player(&mut self, id: u64, g: Ghost<spec_fn(PlayerSpec) -> PlayerSpec>, p: ProxyPlayer, i: usize)
        requires
            old(self).wf(),
            i < old(self).players@.len(),
            old(self).players_spec()[i as int].id == id,
            p@ == (g@)(old(self).players_spec()[i as int]),
            forall|q: PlayerSpec| #[trigger] (g@)(q).id == q.id,
        ensures
            final(self).wf(),
            changed(old(self).players_spec(), final(self).players_spec(), id, g@),
            final(self).listeners() == old(self).listeners(),
            final(self).dispatched() == old(self).dispatched(),
            final(self).config_spec() == old(self).config_spec(),
            final(self).next_id_spec() == old(self).next_id_spec(),
    {
        let ghost f = g@;
        let ghost before = self.players_spec();
        self.players.set(i, p);
        proof {
            assert forall|j: int| 0 <= j < before.len() implies (#[trigger] self.players_spec()[j]) == if before[j].id == id {
                f(before[j])
            } else {
                before[j]
            } by {
                if j != i {
                    assert(before[j].id != id);
                }
            }
            lemma_changed_ids(before, self.players_spec(), id, f);
            assert forall|a: int, b: int|
                0 <= a < b < self.players_spec().len() implies (#[trigger] self.players_spec()[a]).id
                != (#[trigger] self.players_spec()[b]).id by {
                assert(self.ids()[a] == before[a].id);
                assert(self.ids()[b] == before[b].id);
            }
        }
    }

    /// Sets both codecs of session `id` to `threshold`.
    pub fn set_compression(&mut self, id: u64, threshold: Option<usize>)
        requires
            old(self).wf(),
        ensures
            final(self).wf(),
            changed(
                old(self).players_spec(),
                final(self).players_spec(),
                id,
                |q: PlayerSpec| PlayerSpec { compression: Compression { client: threshold, server: threshold }, ..q },
            ),
            codecs_agree(old(self).players_spec()) ==> codecs_agree(final(self).players_spec()),
            final(self).listeners() == old(self).listeners(),
            final(self).dispatched() == old(self).dispatched(),
            final(self).config_spec() == old(self).config_spec(),
    {
        let ghost f = |q: PlayerSpec| PlayerSpec { compression: Compression { client: threshold, server: threshold }, ..q };
        match self.index_of(id) {
            Some(i) => {
                let mut p = self.players[i].clone_player();
                p.compression = Compression { client: threshold, server: threshold };
                self.change_player(id, Ghost(f), p, i);
            },
            None => {
                assert(changed(self.players_spec(), self.players_spec(), id, f)) by {
                    assert forall|j: int| 0 <= j < self.players_spec().len() implies self.players_spec()[j].id != id by {
                        assert(self.ids()[j] == self.players_spec()[j].id);
                    }
                }
            },
        }
    }

    /// Stores the encryption material that session `id` sent at login.
    pub fn record_encryption(&mut self, id: u64, shared_secret: Vec<u8>, verify_token: Vec<u8>)
        requires
            old(self).wf(),
        ensures
            final(self).wf(),
            changed(
                old(self).players_spec(),
                final(self).players_spec(),
                id,
                |q: PlayerSpec| PlayerSpec { shared_secret: Some(shared_secret@), verify_token: Some(verify_token@), ..q },
            ),
            final(self).listeners() == old(self).listeners(),
            final(self).dispatched() == old(self).dispatched(),
            final(self).config_spec() == old(self).config_spec(),
    {
        let ghost f = |q: PlayerSpec| PlayerSpec { shared_secret: Some(shared_secret@), verify_token: Some(verify_token@), ..q };
        match self.index_of(id) {
            Some(i) => {
                let mut p = self.players[i].clone_player();
                p.shared_secret = Some(shared_secret);
                p.verify_token = Some(verify_token);
                self.change_player(id, Ghost(f), p, i);
            },
            None => {
                assert(changed(self.players_spec(), self.players_spec(), id, f)) by {
                    assert forall|j: int| 0 <= j < self.players_spec().len() implies self.players_spec()[j].id != id by {
                        assert(self.ids()[j] == self.players_spec()[j].id);
                    }
                }
            },
        }
    }

    /// Starts a new generation of forwarding loops for session `id`, whose
    /// upstream codec starts again without compression; returns the new
    /// generation.
    pub fn begin_generation(&mut self, id: u64) -> (r: Option<u64>)
        requires
            old(self).wf(),
        ensures
            final(self).wf(),
            match r {
                Some(g) => old(self).ids().contains(id) && changed(
                    old(self).players_spec(),
                    final(self).players_spec(),
                    id,
                    |q: PlayerSpec| PlayerSpec {
                        connection_id: g,
                        compression: Compression { server: None, ..q.compression },
                        ..q
                    },
                ) && forall|i: int| 0 <= i < old(self).players_spec().len() && old(self).players_spec()[i].id == id
                    ==> g != old(self).players_spec()[i].connection_id,
                None => !old(self).ids().contains(id) && final(self).players_spec() == old(self).players_spec(),
            },
            final(self).listeners() == old(self).listeners(),
            final(self).dispatched() == old(self).dispatched(),
            final(self).config_spec() == old(self).config_spec(),
    {
        match self.index_of(id) {
            Some(i) => {
                let mut p = self.players[i].clone_player();
                let g = p.connection_id.wrapping_add(1);
                let ghost f = |q: PlayerSpec| PlayerSpec {
                    connection_id: g,
                    compression: Compression { server: None, ..q.compression },
                    ..q
                };
                p.connection_id = g;
                p.compression = Compression { client: p.compression.client, server: None };
                proof {
                    assert(self.ids()[i as int] == id);
                }
                self.change_player(id, Ghost(f), p, i);
                proof {
                    assert forall|k: int| 0 <= k < old(self).players_spec().len() && old(self).players_spec()[k].id == id
                        implies g != old(self).players_spec()[k].connection_id by {
                        if k != i {
                            assert(old(self).players_spec()[k].id != old(self).players_spec()[i as int].id);
                        }
                    }
                }
                Some(g)
            },
            None => None,
        }
    }

    /// Sets the current upstream of session `id`.
    pub fn set_server(&mut self, id: u64, server: Option<ProxyServer>)
        requires
            old(self).wf(),
        ensures
            final(self).wf(),
            changed(
                old(self).players_spec(),
                final(self).players_spec(),
                id,
                |q: PlayerSpec| PlayerSpec { server: opt_server_view(server), ..q },
            ),
            codecs_agree(old(self).players_spec()) ==> codecs_agree(final(self).players_spec()),
            final(self).listeners() == old(self).listeners(),
            final(self).dispatched() == old(self).dispatched(),
            final(self).config_spec() == old(self).config_spec(),
    {
        let ghost f = |q: PlayerSpec| PlayerSpec { server: opt_server_view(server), ..q };
        match self.index_of(id) {
            Some(i) => {
                let mut p = self.players[i].clone_player();
                p.server = server;
                self.change_player(id, Ghost(f), p, i);
            },
            None => {
                assert(changed(self.players_spec(), self.players_spec(), id, f)) by {
                    assert forall|j: int| 0 <= j < self.players_spec().len() implies self.players_spec()[j].id != id by {
                        assert(self.ids()[j] == self.players_spec()[j].id);
                    }
                }
            },
        }
    }
}

fn opt_bytes_copy(o: &Option<Vec<u8>>) -> (r: Option<Vec<u8>>)
    ensures
        opt_bytes(r) == opt_bytes(*o),
{
    match o {
        Some(v) => Some(copy_bytes(v, 0, v.len())),
        None => None,
    }
}

fn opt_server_copy(o: &Option<ProxyServer>) -> (r: Option<ProxyServer>)
    ensures
        opt_server_view(r) == opt_server_view(*o),
{
    match o {
        Some(s) => Some(s.duplicate()),
        None => None,
    }
}

impl ProxyPlayer {
    /// A copy of this session.
    pub fn clone_player(&self) -> (r: ProxyPlayer)
        ensures
            r@ == self@,
    {
        ProxyPlayer {
            id: self.id,
            name: self.name.clone(),
            uuid: self.uuid,
            protocol_version: self.protocol_version,
            server_address: self.server_address.clone(),
            server_port: self.server_port,
            server: opt_server_copy(&self.server),
            shared_secret: opt_bytes_copy(&self.shared_secret),
            verify_token: opt_bytes_copy(&self.verify_token),
            connection_id: self.connection_id,
            compression: self.compression,
        }
    }
}

} // verus!
