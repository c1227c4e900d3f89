use std::cell::Cell;
use std::rc::Rc;

use meexprox::config::{ProxyConfig, ProxyServer};
use meexprox::driver::{NextPhase, StatusReply, SwapTarget};
use meexprox::error::ProxyError;
use meexprox::protocol::{
    build_encryption_response, build_handshake, build_login_start, build_status_response,
    parse_handshake, parse_login_start, parse_status_response, ClientAddr,
};
use meexprox::proxy::{EventListener, MeexProx, ProxyEvent};
use meexprox::wire::{write_varint, Packet};

struct Quiet;

impl EventListener for Quiet {
    fn on_event(&self, _event: &mut ProxyEvent) -> Result<(), ProxyError> {
        Ok(())
    }
}

struct Replace;

impl EventListener for Replace {
    fn on_event(&self, event: &mut ProxyEvent) -> Result<(), ProxyError> {
        if let ProxyEvent::StatusRequestEvent { status, .. } = event {
            *status = "REPLACED".to_string();
        }
        Err(ProxyError::EventChanged)
    }
}

struct CancelAll;

impl EventListener for CancelAll {
    fn on_event(&self, event: &mut ProxyEvent) -> Result<(), ProxyError> {
        match event {
            ProxyEvent::StatusRequestEvent { cancelled, .. }
            | ProxyEvent::SendClientPacketEvent { cancelled, .. }
            | ProxyEvent::PlayerConnectingServerEvent { cancelled, .. }
            | ProxyEvent::PlayerConnectingIPEvent { cancelled, .. } => *cancelled = true,
            _ => {}
        }
        Ok(())
    }
}

struct Counter {
    connected: Rc<Cell<u32>>,
    disconnected: Rc<Cell<u32>>,
}

impl EventListener for Counter {
    fn on_event(&self, event: &mut ProxyEvent) -> Result<(), ProxyError> {
        match event {
            ProxyEvent::PlayerConnectedEvent { .. } => self.connected.set(self.connected.get() + 1),
            ProxyEvent::PlayerDisconnectedEvent { .. } => {
                self.disconnected.set(self.disconnected.get() + 1)
            }
            _ => {}
        }
        Ok(())
    }
}

const STATUS_CONFIG: &str = "host: 0.0.0.0:25565
servers:
  srv: 127.0.0.1:25500
  b: 127.0.0.1:25600
default_server: srv
player_forwarding: disabled
";

fn client() -> ClientAddr {
    ClientAddr { port: 40000, ip: vec![127, 0, 0, 1] }
}

fn proxy<L: EventListener>(listener: Option<L>) -> MeexProx<L> {
    let mut p = MeexProx::new(ProxyConfig::load_yml(STATUS_CONFIG).unwrap());
    if let Some(l) = listener {
        p.add_event_listener(l);
    }
    p
}

fn status_exchange<L: EventListener>(p: &mut MeexProx<L>) -> StatusReply {
    let hs = build_handshake(764, "x", 25565, 1, None).unwrap();
    let plan = p.plan_handshake(&hs, &client()).unwrap();
    assert_eq!(plan.next, NextPhase::Status);
    let json = "{\"version\":{\"name\":\"1.20\"}}";
    let q = build_status_response(json).unwrap();
    p.status_reply(&plan.handshake, &client(), 0, q)
}

#[test]
fn status_pass_through() {
    let mut p = proxy::<Quiet>(None);
    let hs = build_handshake(764, "x", 25565, 1, None).unwrap();
    let plan = p.plan_handshake(&hs, &client()).unwrap();
    assert_eq!(plan.server.name(), "srv");
    assert_eq!(plan.upstream_handshake.data, hs.data);
    match status_exchange(&mut p) {
        StatusReply::Write(r) => {
            assert_eq!(parse_status_response(&r).unwrap(), "{\"version\":{\"name\":\"1.20\"}}")
        }
        StatusReply::Close => panic!("closed"),
    }
}

#[test]
fn status_mutation() {
    let mut p = proxy(Some(Replace));
    match status_exchange(&mut p) {
        StatusReply::Write(r) => assert_eq!(parse_status_response(&r).unwrap(), "REPLACED"),
        StatusReply::Close => panic!("closed"),
    }
}

#[test]
fn status_cancelled_closes() {
    let mut p = proxy(Some(CancelAll));
    assert!(matches!(status_exchange(&mut p), StatusReply::Close));
}

#[test]
fn status_ping_passes_unchanged() {
    let mut p = proxy(Some(Replace));
    let hs = parse_handshake(&build_handshake(764, "x", 25565, 1, None).unwrap()).unwrap();
    let pong = Packet::new(1, vec![1, 2, 3, 4, 5, 6, 7, 8]);
    match p.status_reply(&hs, &client(), 1, pong) {
        StatusReply::Write(r) => {
            assert_eq!(r.id, 1);
            assert_eq!(r.data, vec![1, 2, 3, 4, 5, 6, 7, 8]);
        }
        StatusReply::Close => panic!("closed"),
    }
}

#[test]
fn bad_next_state_closes() {
    let mut p = proxy::<Quiet>(None);
    let hs = build_handshake(764, "x", 25565, 3, None).unwrap();
    let plan = p.plan_handshake(&hs, &client()).unwrap();
    assert_eq!(plan.next, NextPhase::Close);
    assert_eq!(p.get_players().len(), 0);
}

#[test]
fn handshake_forwarding_mode() {
    let cfg = ProxyConfig::load_yml("host: h\nservers:\n  a: x:1\ndefault_server: a\n").unwrap();
    let p: MeexProx<Quiet> = MeexProx::new(cfg);
    let hs = build_handshake(764, "x", 25565, 2, None).unwrap();
    let plan = p.plan_handshake(&hs, &client()).unwrap();
    assert_eq!(plan.next, NextPhase::Login);
    let expected = build_handshake(764, "x", 25565, 2, Some(&client())).unwrap();
    assert_eq!(plan.upstream_handshake.data, expected.data);
}

#[test]
fn no_route_is_server_connect() {
    let cfg = ProxyConfig::load_yml("host: h\nservers:\n  a: x:1\n").unwrap();
    let p: MeexProx<Quiet> = MeexProx::new(cfg);
    let hs = build_handshake(764, "x", 25565, 2, None).unwrap();
    assert_eq!(p.plan_handshake(&hs, &client()).err(), Some(ProxyError::ServerConnect));
}

fn logged_in<L: EventListener>(p: &mut MeexProx<L>) -> u64 {
    let hs = parse_handshake(&build_handshake(764, "x", 25565, 2, None).unwrap()).unwrap();
    let srv = p.config().get_server_by_name("srv").unwrap();
    let start = build_login_start("Steve", 42).unwrap();
    let id = p.login_start(&hs, &srv, &start).unwrap().unwrap();
    let step = p.login_server_packet(id, &Packet::new(1, vec![0])).unwrap();
    assert!(step.await_client_reply);
    let reply = build_encryption_response(&vec![7; 16], &vec![1, 2, 3, 4]).unwrap();
    p.login_client_reply(id, &reply).unwrap();
    let mut data = Vec::new();
    write_varint(&mut data, 512);
    let step = p.login_server_packet(id, &Packet::new(3, data)).unwrap();
    assert_eq!(step.compression, Some(Some(256)));
    let step = p.login_server_packet(id, &Packet::new(2, vec![])).unwrap();
    assert!(step.finished);
    let ack = step.acknowledge.unwrap();
    assert_eq!(ack.id, 3);
    assert!(ack.data.is_empty());
    id
}

#[test]
fn login_captures_session() {
    let mut p = proxy::<Quiet>(None);
    let id = logged_in(&mut p);
    let s = p.get_player(42).unwrap();
    assert_eq!(s.id(), id);
    assert_eq!(s.name(), "Steve");
    assert_eq!(s.protocol_version(), 764);
    assert_eq!(s.server().unwrap().name(), "srv");
    assert_eq!(s.shared_secret().unwrap(), &vec![7; 16]);
    assert_eq!(s.verify_token().unwrap(), &vec![1, 2, 3, 4]);
    let c = s.compression();
    assert_eq!(c.client, Some(256));
    assert_eq!(c.server, Some(256));
    assert!(p.get_player(43).is_none());
}

#[test]
fn login_cancelled_leaves_set() {
    let mut p = proxy(Some(CancelAll));
    let hs = parse_handshake(&build_handshake(764, "x", 25565, 2, None).unwrap()).unwrap();
    let srv = p.config().get_server_by_name("srv").unwrap();
    let start = build_login_start("Steve", 42).unwrap();
    assert_eq!(p.login_start(&hs, &srv, &start), Ok(None));
    assert_eq!(p.get_players().len(), 0);
}

#[test]
fn negative_threshold_disables() {
    let mut p = proxy::<Quiet>(None);
    let id = logged_in(&mut p);
    let mut data = Vec::new();
    write_varint(&mut data, 1);
    let step = p.login_server_packet(id, &Packet::new(3, data)).unwrap();
    assert_eq!(step.compression, Some(None));
    assert_eq!(p.get_player(42).unwrap().compression().client, None);
}

#[test]
fn forwarding_without_listeners_copies() {
    let mut p = proxy::<Quiet>(None);
    let r = p.forward(0, Packet::new(5, vec![1, 2]), true).unwrap();
    assert_eq!((r.id, r.data), (5, vec![1, 2]));
}

#[test]
fn cancelled_send_to_client() {
    let mut p = proxy(Some(CancelAll));
    assert!(p.forward(0, Packet::new(5, vec![1, 2]), false).is_none());
    let up = p.forward(0, Packet::new(5, vec![1, 2]), true).unwrap();
    assert_eq!(up.data, vec![1, 2]);
}

#[test]
fn disconnect_reported_once() {
    let connected = Rc::new(Cell::new(0));
    let disconnected = Rc::new(Cell::new(0));
    let counter = Counter { connected: connected.clone(), disconnected: disconnected.clone() };
    let mut p = proxy(Some(counter));
    let id = logged_in(&mut p);
    assert_eq!(connected.get(), 1);
    let generation = p.get_player(42).unwrap().connection_id();
    assert!(p.loop_finished(id, generation));
    assert!(!p.loop_finished(id, generation));
    assert_eq!(disconnected.get(), 1);
    assert_eq!(p.get_players().len(), 0);
}

struct CancelUpstream;

impl EventListener for CancelUpstream {
    fn on_event(&self, event: &mut ProxyEvent) -> Result<(), ProxyError> {
        if let ProxyEvent::SendServerPacketEvent { cancelled, .. } = event {
            *cancelled = true;
        }
        Ok(())
    }
}

#[test]
fn replayed_packets_pass_the_listeners() {
    let mut p = proxy(Some(CancelUpstream));
    let hs = parse_handshake(&build_handshake(764, "x", 25565, 2, None).unwrap()).unwrap();
    let srv = p.config().get_server_by_name("srv").unwrap();
    let id = p.login_start(&hs, &srv, &build_login_start("Alex", 9).unwrap()).unwrap().unwrap();
    let step = p.login_server_packet(id, &Packet::new(2, vec![])).unwrap();
    assert!(step.finished);
    assert!(step.acknowledge.is_none());
    let plan = p
        .begin_swap(id, SwapTarget::Address("127.0.0.1:1".to_string()), &client())
        .unwrap()
        .unwrap();
    assert!(plan.handshake.is_none());
    assert!(plan.login_start.is_none());
    let step = p.swap_server_packet(id, &Packet::new(2, vec![])).unwrap();
    assert!(step.finished);
    assert!(step.reply.is_none());
}

#[test]
fn session_removed_once() {
    let mut p = proxy::<Quiet>(None);
    let id = logged_in(&mut p);
    assert!(p.remove_player(id));
    assert!(!p.remove_player(id));
}

#[test]
fn login_and_reconnect() {
    let mut p = proxy::<Quiet>(None);
    let id = logged_in(&mut p);
    let old_generation = p.get_player(42).unwrap().connection_id();
    let plan = p
        .begin_swap(id, SwapTarget::Address("127.0.0.1:25600".to_string()), &client())
        .unwrap()
        .unwrap();
    assert_eq!(plan.address, "127.0.0.1:25600");
    assert!(plan.target.is_none());
    let hs = parse_handshake(plan.handshake.as_ref().unwrap()).unwrap();
    assert_eq!((hs.protocol_version, hs.server_address.as_str(), hs.server_port, hs.next_state), (764, "x", 25565, 2));
    assert_eq!(parse_login_start(plan.login_start.as_ref().unwrap()), Ok(("Steve".to_string(), 42)));
    assert_ne!(plan.generation, old_generation);
    assert!(!p.loop_finished(id, old_generation));
    assert_eq!(p.get_players().len(), 1);
    assert_eq!(p.get_player(42).unwrap().compression().server, None);
    let step = p.swap_server_packet(id, &Packet::new(1, vec![0])).unwrap();
    let reply = step.reply.unwrap();
    assert_eq!(reply.data, build_encryption_response(&vec![7; 16], &vec![1, 2, 3, 4]).unwrap().data);
    let mut data = Vec::new();
    write_varint(&mut data, 512);
    let step = p.swap_server_packet(id, &Packet::new(3, data)).unwrap();
    assert_eq!(step.compression, Some(Some(256)));
    let step = p.swap_server_packet(id, &Packet::new(2, vec![])).unwrap();
    assert!(step.finished);
    assert_eq!(step.reply.unwrap().id, 3);
    p.finish_swap(id, plan.target);
    assert!(p.get_player(42).unwrap().server().is_none());
    assert!(p.loop_finished(id, plan.generation));
}

#[test]
fn swap_to_server_and_cancel() {
    let mut p = proxy::<Quiet>(None);
    let id = logged_in(&mut p);
    let b = p.config().get_server_by_name("b").unwrap();
    let plan = p.begin_swap(id, SwapTarget::Server(b), &client()).unwrap().unwrap();
    assert_eq!(plan.address, "127.0.0.1:25600");
    assert_eq!(plan.target.as_ref().unwrap().name(), "b");
    let mut q = proxy(Some(CancelAll));
    let s = ProxyServer::new("b".to_string(), "127.0.0.1:25600".to_string(), None);
    assert!(q.begin_swap(0, SwapTarget::Server(s), &client()).unwrap().is_none());
}

#[test]
fn swap_without_material_fails() {
    let mut p = proxy::<Quiet>(None);
    let hs = parse_handshake(&build_handshake(764, "x", 25565, 2, None).unwrap()).unwrap();
    let srv = p.config().get_server_by_name("srv").unwrap();
    let id = p.login_start(&hs, &srv, &build_login_start("Alex", 9).unwrap()).unwrap().unwrap();
    assert_eq!(p.swap_server_packet(id, &Packet::new(1, vec![])).err(), Some(ProxyError::LoginPacket));
}

struct Append(&'static str);

impl EventListener for Append {
    fn on_event(&self, event: &mut ProxyEvent) -> Result<(), ProxyError> {
        if let ProxyEvent::StatusRequestEvent { status, .. } = event {
            status.push_str(self.0);
        }
        Ok(())
    }
}

#[test]
fn listeners_run_in_order() {
    let mut p = MeexProx::new(ProxyConfig::load_yml(STATUS_CONFIG).unwrap());
    p.add_event_listener(Append("1"));
    p.add_event_listener(Append("2"));
    let hs = parse_handshake(&build_handshake(764, "x", 25565, 1, None).unwrap()).unwrap();
    let q = build_status_response("s").unwrap();
    match p.status_reply(&hs, &client(), 0, q) {
        StatusReply::Write(r) => assert_eq!(parse_status_response(&r).unwrap(), "s12"),
        StatusReply::Close => panic!("closed"),
    }
}

#[test]
fn malformed_status_closes() {
    let mut p = proxy::<Quiet>(None);
    let hs = parse_handshake(&build_handshake(764, "x", 25565, 1, None).unwrap()).unwrap();
    let q = Packet::new(0, vec![5, b'a']);
    assert!(matches!(p.status_reply(&hs, &client(), 0, q), StatusReply::Close));
}

struct Rewrite;

impl EventListener for Rewrite {
    fn on_event(&self, event: &mut ProxyEvent) -> Result<(), ProxyError> {
        if let ProxyEvent::RecvClientPacketEvent { packet, .. } = event {
            packet.data.push(9);
        }
        Ok(())
    }
}

#[test]
fn forwarding_listener_rewrites_packet() {
    let mut p = proxy(Some(Rewrite));
    let r = p.forward(0, Packet::new(5, vec![1]), true).unwrap();
    assert_eq!(r.data, vec![1, 9]);
    let r = p.forward(0, Packet::new(5, vec![1]), false).unwrap();
    assert_eq!(r.data, vec![1]);
}
