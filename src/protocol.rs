//! The packets of the handshake, status and login phases that the proxy reads
//! or writes itself.
use vstd::prelude::*;
use vstd::utf8::*;
use crate::error::{proxy_error_of, ProxyError};
use crate::wire::{
    lemma_prefixed_round_trip, lemma_string_round_trip, lemma_ushort_round_trip,
    lemma_uuid_round_trip, lemma_varint_u32_round_trip, lemma_be_round_trip, append_bytes, be_bytes, copy_bytes, prefixed_parse, prefixed_spec, read_prefixed_bytes, read_string,
    read_u16_varint, read_u8_varint, read_unsigned_short, read_uuid, read_varint, string_parse,
    string_spec, threshold_spec, ushort_parse, uuid_parse, varint_spec, varint_u32, write_boolean,
    write_prefixed_bytes, write_string, write_unsigned_short, write_uuid, write_varint,
    decode_threshold, Packet, ProtocolError, MAX_LENGTH,
};

verus! {

/// Handshake, status request and response, login start.
pub const ID_HANDSHAKE: u8 = 0x00;
/// Encryption request, from the server.
pub const ID_ENCRYPTION_REQUEST: u8 = 0x01;
/// Login success, from the server.
pub const ID_LOGIN_SUCCESS: u8 = 0x02;
/// Set compression from the server; login acknowledged from the client.
pub const ID_SET_COMPRESSION: u8 = 0x03;
/// The encryption response that the proxy replays to a new server.
pub const ID_ENCRYPTION_REPLAY: u8 = 0x00;

/// The fields of a handshake packet.
#[derive(Clone, Debug)]
pub struct Handshake {
    pub protocol_version: u16,
    pub server_address: String,
    pub server_port: u16,
    pub next_state: u8,
}

/// The network address of a client: the port and the four (IPv4) or sixteen
/// (IPv6) address bytes.
#[derive(Clone, Debug)]
pub struct ClientAddr {
    pub port: u16,
    pub ip: Vec<u8>,
}

impl ClientAddr {
    pub open spec fn wf(&self) -> bool {
        self.ip@.len() == 4 || self.ip@.len() == 16
    }

    pub open spec fn is_ipv6(&self) -> bool {
        self.ip@.len() == 16
    }

    /// A copy of this address.
    pub fn clone_addr(&self) -> (r: ClientAddr)
        ensures
            r.port == self.port,
            r.ip@ == self.ip@,
    {
        ClientAddr { port: self.port, ip: copy_bytes(&self.ip, 0, self.ip.len()) }
    }
}

/// The fields of a handshake read from `s`: protocol version, server address,
/// server port and next state.
pub open spec fn handshake_fields(s: Seq<u8>) -> Result<(u16, Seq<char>, u16, u8), ProtocolError> {
    match varint_u32(s) {
        Err(e) => Err(e),
        Ok((pv, n1)) => if pv > 0xffff {
            Err(ProtocolError::InvalidVarInt)
        } else {
            match string_parse(s.skip(n1 as int)) {
                Err(e) => Err(e),
                Ok((addr, n2)) => match ushort_parse(s.skip((n1 + n2) as int)) {
                    Err(e) => Err(e),
                    Ok((port, n3)) => match varint_u32(s.skip((n1 + n2 + n3) as int)) {
                        Err(e) => Err(e),
                        Ok((ns, _)) => if ns > 0xff {
                            Err(ProtocolError::InvalidVarInt)
                        } else {
                            Ok((pv as u16, addr, port, ns as u8))
                        },
                    },
                },
            }
        },
    }
}

/// The address block that handshake forwarding appends: an IPv6 flag, the
/// client port and the address bytes.
pub open spec fn forwarded_addr_spec(a: ClientAddr) -> Seq<u8> {
    seq![if a.is_ipv6() { 1u8 } else { 0u8 }] + be_bytes(a.port as nat, 2) + a.ip@
}

/// The payload of a handshake packet, with the client address appended when
/// one is given.
pub open spec fn handshake_spec(
    pv: u16,
    addr: Seq<char>,
    port: u16,
    next_state: u8,
    forward: Option<ClientAddr>,
) -> Seq<u8> {
    varint_spec(pv as nat) + string_spec(addr) + be_bytes(port as nat, 2) + varint_spec(
        next_state as nat,
    ) + match forward {
        Some(a) => forwarded_addr_spec(a),
        None => Seq::empty(),
    }
}

/// The payload of a login start packet: the name and the UUID.
pub open spec fn login_start_spec(name: Seq<char>, uuid: u128) -> Seq<u8> {
    string_spec(name) + be_bytes(uuid as nat, 16)
}

/// The fields of a login start packet read from `s`.
pub open spec fn login_start_fields(s: Seq<u8>) -> Result<(Seq<char>, u128), ProtocolError> {
    match string_parse(s) {
        Err(e) => Err(e),
        Ok((name, n)) => match uuid_parse(s.skip(n as int)) {
            Err(e) => Err(e),
            Ok((uuid, _)) => Ok((name, uuid)),
        },
    }
}

/// The payload of an encryption response: the shared secret and the verify
/// token, each prefixed by its length.
pub open spec fn encryption_response_spec(secret: Seq<u8>, token: Seq<u8>) -> Seq<u8> {
    prefixed_spec(secret) + prefixed_spec(token)
}

/// The shared secret and verify token read from an encryption response.
pub open spec fn encryption_response_fields(s: Seq<u8>) -> Result<(Seq<u8>, Seq<u8>), ProtocolError> {
    match prefixed_parse(s) {
        Err(e) => Err(e),
        Ok((secret, n)) => match prefixed_parse(s.skip(n as int)) {
            Err(e) => Err(e),
            Ok((token, _)) => Ok((secret, token)),
        },
    }
}

/// The threshold announced by a set-compression payload.
pub open spec fn compression_field(s: Seq<u8>) -> Result<Option<usize>, ProtocolError> {
    match varint_u32(s) {
        Err(e) => Err(e),
        Ok((raw, _)) => Ok(threshold_spec(raw)),
    }
}

/// The status text of a status response payload.
pub open spec fn status_field(s: Seq<u8>) -> Result<Seq<char>, ProtocolError> {
    match string_parse(s) {
        Err(e) => Err(e),
        Ok((t, _)) => Ok(t),
    }
}

/// Reads the handshake carried by `p`.
pub fn parse_handshake(p: &Packet) -> (r: Result<Handshake, ProxyError>)
    ensures
        p.id != ID_HANDSHAKE ==> r == Err::<Handshake, ProxyError>(ProxyError::HandshakePacket),
        p.id == ID_HANDSHAKE ==> match (r, handshake_fields(p.data@)) {
            (Ok(h), Ok((pv, addr, port, ns))) => h.protocol_version == pv && h.server_address@
                == addr && h.server_port == port && h.next_state == ns,
            (Err(e), Err(se)) => e == proxy_error_of(se),
            _ => false,
        },
{
    if p.id != ID_HANDSHAKE {
        return Err(ProxyError::HandshakePacket);
    }
    let d = &p.data;
    assert(d@.skip(0) =~= d@);
    let (pv, p1) = match read_u16_varint(d, 0) {
        Ok(x) => x,
        Err(e) => return Err(e.as_proxy()),
    };
    let (addr, p2) = match read_string(d, p1) {
        Ok(x) => x,
        Err(e) => return Err(e.as_proxy()),
    };
    let (port, p3) = match read_unsigned_short(d, p2) {
        Ok(x) => x,
        Err(e) => return Err(e.as_proxy()),
    };
    let (ns, _p4) = match read_u8_varint(d, p3) {
        Ok(x) => x,
        Err(e) => return Err(e.as_proxy()),
    };
    Ok(Handshake { protocol_version: pv, server_address: addr, server_port: port, next_state: ns })
}

/// Builds a handshake packet with the given fields, appending the client
/// address when `forward` holds one. Fails when the address is too long for a
/// string field.
pub fn build_handshake(
    protocol_version: u16,
    server_address: &str,
    server_port: u16,
    next_state: u8,
    forward: Option<&ClientAddr>,
) -> (r: Result<Packet, ProtocolError>)
    requires
        forward matches Some(a) ==> a.wf(),
    ensures
        encode_utf8(server_address@).len() <= MAX_LENGTH ==> (r matches Ok(p) && p.id
            == ID_HANDSHAKE && p.data@ == handshake_spec(
            protocol_version,
            server_address@,
            server_port,
            next_state,
            match forward {
                Some(a) => Some(*a),
                None => None,
            },
        )),
        encode_utf8(server_address@).len() > MAX_LENGTH ==> r == Err::<Packet, ProtocolError>(
            ProtocolError::InvalidVarInt,
        ),
{
    let mut d: Vec<u8> = Vec::new();
    write_varint(&mut d, protocol_version as u32);
    match write_string(&mut d, server_address) {
        Ok(()) => {},
        Err(e) => return Err(e),
    }
    write_unsigned_short(&mut d, server_port);
    write_varint(&mut d, next_state as u32);
    match forward {
        Some(a) => {
            let ghost before = d@;
            write_boolean(&mut d, a.ip.len() == 16);
            write_unsigned_short(&mut d, a.port);
            append_bytes(&mut d, &a.ip);
            assert(d@ =~= before + forwarded_addr_spec(*a));
        },
        None => {
            assert(d@ =~= d@ + Seq::<u8>::empty());
        },
    }
    Ok(Packet { id: ID_HANDSHAKE, data: d })
}

/// The name and UUID of a login start packet.
pub fn parse_login_start(p: &Packet) -> (r: Result<(String, u128), ProxyError>)
    ensures
        p.id != ID_HANDSHAKE ==> r == Err::<(String, u128), ProxyError>(ProxyError::LoginPacket),
        p.id == ID_HANDSHAKE ==> match (r, login_start_fields(p.data@)) {
            (Ok((name, uuid)), Ok((sname, suuid))) => name@ == sname && uuid == suuid,
            (Err(e), Err(se)) => e == proxy_error_of(se),
            _ => false,
        },
{
    if p.id != ID_HANDSHAKE {
        return Err(ProxyError::LoginPacket);
    }
    let d = &p.data;
    assert(d@.skip(0) =~= d@);
    let (name, p1) = match read_string(d, 0) {
        Ok(x) => x,
        Err(e) => return Err(e.as_proxy()),
    };
    let (uuid, _p2) = match read_uuid(d, p1) {
        Ok(x) => x,
        Err(e) => return Err(e.as_proxy()),
    };
    Ok((name, uuid))
}

/// Builds a login start packet. Fails when the name is too long for a string
/// field.
pub fn build_login_start(name: &str, uuid: u128) -> (r: Result<Packet, ProtocolError>)
    ensures
        encode_utf8(name@).len() <= MAX_LENGTH ==> (r matches Ok(p) && p.id == ID_HANDSHAKE
            && p.data@ == login_start_spec(name@, uuid)),
        encode_utf8(name@).len() > MAX_LENGTH ==> r == Err::<Packet, ProtocolError>(
            ProtocolError::InvalidVarInt,
        ),
{
    let mut d: Vec<u8> = Vec::new();
    match write_string(&mut d, name) {
        Ok(()) => {},
        Err(e) => return Err(e),
    }
    write_uuid(&mut d, uuid);
    assert(d@ =~= login_start_spec(name@, uuid));
    Ok(Packet { id: ID_HANDSHAKE, data: d })
}

/// The shared secret and verify token of an encryption response, whatever
/// its id.
pub fn parse_encryption_response(p: &Packet) -> (r: Result<(Vec<u8>, Vec<u8>), ProtocolError>)
    ensures
        match (r, encryption_response_fields(p.data@)) {
            (Ok((a, b)), Ok((sa, sb))) => a@ == sa && b@ == sb,
            (Err(e), Err(se)) => e == se,
            _ => false,
        },
{
    let d = &p.data;
    assert(d@.skip(0) =~= d@);
    let (secret, p1) = match read_prefixed_bytes(d, 0) {
        Ok(x) => x,
        Err(e) => return Err(e),
    };
    let (token, _p2) = match read_prefixed_bytes(d, p1) {
        Ok(x) => x,
        Err(e) => return Err(e),
    };
    Ok((secret, token))
}

/// Builds the encryption response that replays a captured shared secret and
/// verify token. Fails when either is too long for a length prefix.
pub fn build_encryption_response(secret: &Vec<u8>, token: &Vec<u8>) -> (r: Result<Packet, ProtocolError>)
    ensures
        secret@.len() <= MAX_LENGTH && token@.len() <= MAX_LENGTH ==> (r matches Ok(p) && p.id
            == ID_ENCRYPTION_REPLAY && p.data@ == encryption_response_spec(secret@, token@)),
        secret@.len() > MAX_LENGTH || token@.len() > MAX_LENGTH ==> r == Err::<
            Packet,
            ProtocolError,
        >(ProtocolError::InvalidVarInt),
{
    let mut d: Vec<u8> = Vec::new();
    match write_prefixed_bytes(&mut d, secret.as_slice()) {
        Ok(()) => {},
        Err(e) => return Err(e),
    }
    match write_prefixed_bytes(&mut d, token.as_slice()) {
        Ok(()) => {},
        Err(e) => return Err(e),
    }
    assert(d@ =~= encryption_response_spec(secret@, token@));
    Ok(Packet { id: ID_ENCRYPTION_REPLAY, data: d })
}

/// The compression threshold that a set-compression packet announces; `None`
/// turns compression off.
pub fn parse_set_compression(p: &Packet) -> (r: Result<Option<usize>, ProtocolError>)
    ensures
        match (r, compression_field(p.data@)) {
            (Ok(t), Ok(st)) => t == st,
            (Err(e), Err(se)) => e == se,
            _ => false,
        },
{
    assert(p.data@.skip(0) =~= p.data@);
    match read_varint(&p.data, 0) {
        Ok((raw, _)) => Ok(decode_threshold(raw)),
        Err(e) => Err(e),
    }
}

/// The status text of a status response.
pub fn parse_status_response(p: &Packet) -> (r: Result<String, ProtocolError>)
    ensures
        match (r, status_field(p.data@)) {
            (Ok(t), Ok(st)) => t@ == st,
            (Err(e), Err(se)) => e == se,
            _ => false,
        },
{
    assert(p.data@.skip(0) =~= p.data@);
    match read_string(&p.data, 0) {
        Ok((t, _)) => Ok(t),
        Err(e) => Err(e),
    }
}

/// Builds a status response carrying `status`. Fails when it is too long for
/// a string field.
pub fn build_status_response(status: &str) -> (r: Result<Packet, ProtocolError>)
    ensures
        encode_utf8(status@).len() <= MAX_LENGTH ==> (r matches Ok(p) && p.id == ID_HANDSHAKE
            && p.data@ == string_spec(status@)),
        encode_utf8(status@).len() > MAX_LENGTH ==> r == Err::<Packet, ProtocolError>(
            ProtocolError::InvalidVarInt,
        ),
{
    let mut d: Vec<u8> = Vec::new();
    match write_string(&mut d, status) {
        Ok(()) => {},
        Err(e) => return Err(e),
    }
    assert(d@ =~= string_spec(status@));
    Ok(Packet { id: ID_HANDSHAKE, data: d })
}

/// The login acknowledged packet: id 0x03 with no payload.
pub fn login_acknowledged() -> (r: Packet)
    ensures
        r.id == ID_SET_COMPRESSION,
        r.data@.len() == 0,
{
    Packet::empty(ID_SET_COMPRESSION)
}

/// A handshake written out reads back as the same fields, whatever follows.
pub proof fn lemma_handshake_round_trip(
    pv: u16,
    addr: Seq<char>,
    port: u16,
    next_state: u8,
    forward: Option<ClientAddr>,
)
    requires
        encode_utf8(addr).len() <= MAX_LENGTH,
    ensures
        handshake_fields(handshake_spec(pv, addr, port, next_state, forward)) == Ok::<
            (u16, Seq<char>, u16, u8),
            ProtocolError,
        >((pv, addr, port, next_state)),
{
    let tail = match forward {
        Some(a) => forwarded_addr_spec(a),
        None => Seq::empty(),
    };
    let v1 = varint_spec(pv as nat);
    let v2 = string_spec(addr);
    let v3 = be_bytes(port as nat, 2);
    let v4 = varint_spec(next_state as nat);
    let r3 = v4 + tail;
    let r2 = v3 + r3;
    let r1 = v2 + r2;
    let s = handshake_spec(pv, addr, port, next_state, forward);
    assert(s =~= v1 + r1);
    lemma_varint_u32_round_trip(pv as u32, r1);
    assert(varint_u32(s) == Ok::<(u32, nat), ProtocolError>((pv as u32, v1.len())));
    let n1 = v1.len();
    assert(s.skip(n1 as int) =~= r1);
    lemma_string_round_trip(addr, r2);
    let n2 = v2.len();
    assert(s.skip((n1 + n2) as int) =~= r2);
    lemma_ushort_round_trip(port, r3);
    lemma_be_round_trip(port as nat, 2);
    assert(s.skip((n1 + n2 + 2) as int) =~= r3);
    lemma_varint_u32_round_trip(next_state as u32, tail);
}

/// A login start written out reads back as the same name and UUID.
pub proof fn lemma_login_start_round_trip(name: Seq<char>, uuid: u128)
    requires
        encode_utf8(name).len() <= MAX_LENGTH,
    ensures
        login_start_fields(login_start_spec(name, uuid)) == Ok::<(Seq<char>, u128), ProtocolError>(
            (name, uuid),
        ),
{
    let s = login_start_spec(name, uuid);
    let u = be_bytes(uuid as nat, 16);
    lemma_string_round_trip(name, u);
    assert(s.skip(string_spec(name).len() as int) =~= u + Seq::empty());
    lemma_uuid_round_trip(uuid, Seq::empty());
}

/// An encryption response written out reads back as the same shared secret
/// and verify token.
pub proof fn lemma_encryption_response_round_trip(secret: Seq<u8>, token: Seq<u8>)
    requires
        secret.len() <= MAX_LENGTH,
        token.len() <= MAX_LENGTH,
    ensures
        encryption_response_fields(encryption_response_spec(secret, token)) == Ok::<
            (Seq<u8>, Seq<u8>),
            ProtocolError,
        >((secret, token)),
{
    let s = encryption_response_spec(secret, token);
    let t = prefixed_spec(token);
    lemma_prefixed_round_trip(secret, t);
    assert(s.skip(prefixed_spec(secret).len() as int) =~= t + Seq::empty());
    lemma_prefixed_round_trip(token, Seq::empty());
}

/// A set-compression value whose zigzag decoding is zero turns compression on
/// with threshold zero, so that every packet is compressed.
pub proof fn lemma_zero_threshold(rest: Seq<u8>)
    ensures
        compression_field(varint_spec(0) + rest) == Ok::<Option<usize>, ProtocolError>(Some(0)),
{
    lemma_varint_u32_round_trip(0, rest);
}

/// The message that disconnects a player in the play state.
pub const ID_PLAY_DISCONNECT: u8 = 0x1D;

/// Builds the packet that disconnects a player with the reason `text`.
/// Fails when the text is too long for a string field.
pub fn build_disconnect(text: &str) -> (r: Result<Packet, ProtocolError>)
    ensures
        encode_utf8(text@).len() <= MAX_LENGTH ==> (r matches Ok(p) && p.id == ID_PLAY_DISCONNECT
            && p.data@ == string_spec(text@)),
        encode_utf8(text@).len() > MAX_LENGTH ==> r == Err::<Packet, ProtocolError>(
            ProtocolError::InvalidVarInt,
        ),
{
    let mut d: Vec<u8> = Vec::new();
    match write_string(&mut d, text) {
        Ok(()) => {},
        Err(e) => return Err(e),
    }
    assert(d@ =~= string_spec(text@));
    Ok(Packet { id: ID_PLAY_DISCONNECT, data: d })
}

} // verus!
