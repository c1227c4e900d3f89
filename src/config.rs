//! The proxy configuration: upstream servers, the default server, forced
//! hosts and the forwarding mode, read from a YAML document.
use vstd::prelude::*;
use vstd::string::to_string_from_display_ensures_for_str;
use crate::error::ProxyError;
use crate::text::str_eq;
use crate::yaml::{entry_view, find_entry, lemma_lookup_at, lookup, parse_yaml, yaml_document_of, NodeSpec, YamlDocument, YamlNode};

verus! {

broadcast use to_string_from_display_ensures_for_str;

/// Whether the client's address is appended to the handshake sent upstream.
#[derive(Clone, Copy, Debug, PartialEq, Eq, Structural)]
pub enum PlayerForwarding {
    /// Append the client's address to the handshake.
    Handshake,
    /// Send the handshake unchanged.
    Disabled,
}

/// An upstream server as the proxy's logic sees it.
pub struct ServerSpec {
    pub name: Seq<char>,
    pub host: Seq<char>,
    pub forced_host: Option<Seq<char>>,
}

/// One upstream server: its unique name, its `ip:port` address and the
/// virtual host that routes to it, if any.
#[derive(Clone, Debug)]
pub struct ProxyServer {
    name: String,
    host: String,
    forced_host: Option<String>,
}

pub open spec fn opt_view(o: Option<String>) -> Option<Seq<char>> {
    match o {
        Some(s) => Some(s@),
        None => None,
    }
}

fn opt_duplicate(o: &Option<String>) -> (r: Option<String>)
    ensures
        opt_view(r) == opt_view(*o),
{
    match o {
        Some(s) => Some(s.clone()),
        None => None,
    }
}

impl View for ProxyServer {
    type V = ServerSpec;

    closed spec fn view(&self) -> ServerSpec {
        ServerSpec { name: self.name@, host: self.host@, forced_host: opt_view(self.forced_host) }
    }
}

impl ProxyServer {
    pub fn new(name: String, host: String, forced_host: Option<String>) -> (r: ProxyServer)
        ensures
            r@ == (ServerSpec { name: name@, host: host@, forced_host: opt_view(forced_host) }),
    {
        ProxyServer { name, host, forced_host }
    }

    pub fn name(&self) -> (r: &str)
        ensures
            r@ == self@.name,
    {
        self.name.as_str()
    }

    pub fn host(&self) -> (r: &str)
        ensures
            r@ == self@.host,
    {
        self.host.as_str()
    }

    pub fn forced_host(&self) -> (r: Option<&String>)
        ensures
            match r {
                Some(s) => self@.forced_host == Some(s@),
                None => self@.forced_host is None,
            },
    {
        self.forced_host.as_ref()
    }

    /// The server's address, owned.
    pub fn host_string(&self) -> (r: String)
        ensures
            r@ == self@.host,
    {
        self.host.clone()
    }

    /// A copy of this server.
    pub fn duplicate(&self) -> (r: ProxyServer)
        ensures
            r@ == self@,
    {
        ProxyServer {
            name: self.name.clone(),
            host: self.host.clone(),
            forced_host: opt_duplicate(&self.forced_host),
        }
    }
}

/// The configuration as the proxy's logic sees it.
pub struct ConfigSpec {
    pub host: Seq<char>,
    pub servers: Seq<ServerSpec>,
    pub default_server: Option<ServerSpec>,
    pub talk_host: Option<Seq<char>>,
    pub talk_secret: Option<Seq<char>>,
    pub player_forwarding: PlayerForwarding,
    pub no_pf_for_ip_connect: bool,
}

/// `i` is the first server named `name`.
pub open spec fn first_named(servers: Seq<ServerSpec>, name: Seq<char>, i: int) -> bool {
    0 <= i < servers.len() && servers[i].name == name && forall|j: int|
        0 <= j < i ==> servers[j].name != name
}

/// The first server named `name`, if any.
pub open spec fn server_named(servers: Seq<ServerSpec>, name: Seq<char>) -> Option<ServerSpec> {
    if exists|i: int| first_named(servers, name, i) {
        Some(servers[choose|i: int| first_named(servers, name, i)])
    } else {
        None
    }
}

/// `i` is the first server whose forced host is `host`.
pub open spec fn first_forced(servers: Seq<ServerSpec>, host: Seq<char>, i: int) -> bool {
    0 <= i < servers.len() && servers[i].forced_host == Some(host) && forall|j: int|
        0 <= j < i ==> servers[j].forced_host != Some(host)
}

/// The first server whose forced host is `host`, if any.
pub open spec fn server_forced(servers: Seq<ServerSpec>, host: Seq<char>) -> Option<ServerSpec> {
    if exists|i: int| first_forced(servers, host, i) {
        Some(servers[choose|i: int| first_forced(servers, host, i)])
    } else {
        None
    }
}

/// The upstream for a client that asked for `virtual_host`: the server with
/// that forced host, else the default server.
pub open spec fn route_spec(c: ConfigSpec, virtual_host: Seq<char>) -> Option<ServerSpec> {
    match server_forced(c.servers, virtual_host) {
        Some(s) => Some(s),
        None => c.default_server,
    }
}

proof fn lemma_first_named_unique(servers: Seq<ServerSpec>, name: Seq<char>, i: int)
    requires
        first_named(servers, name, i),
    ensures
        server_named(servers, name) == Some(servers[i]),
{
    let k = choose|k: int| first_named(servers, name, k);
    assert(k == i) by {
        if k < i {
            assert(servers[k].name != name);
        } else if i < k {
            assert(servers[i].name != name);
        }
    }
}

proof fn lemma_first_forced_unique(servers: Seq<ServerSpec>, host: Seq<char>, i: int)
    requires
        first_forced(servers, host, i),
    ensures
        server_forced(servers, host) == Some(servers[i]),
{
    let k = choose|k: int| first_forced(servers, host, k);
    assert(k == i) by {
        if k < i {
            assert(servers[k].forced_host != Some(host));
        } else if i < k {
            assert(servers[i].forced_host != Some(host));
        }
    }
}

/// The proxy configuration.
#[derive(Clone)]
pub struct ProxyConfig {
    host: String,
    servers: Vec<ProxyServer>,
    default_server: Option<ProxyServer>,
    talk_host: Option<String>,
    talk_secret: Option<String>,
    player_forwarding: PlayerForwarding,
    no_pf_for_ip_connect: bool,
}

pub open spec fn servers_view(s: Seq<ProxyServer>) -> Seq<ServerSpec> {
    s.map_values(|x: ProxyServer| x@)
}

pub open spec fn opt_server_view(o: Option<ProxyServer>) -> Option<ServerSpec> {
    match o {
        Some(s) => Some(s@),
        None => None,
    }
}

impl View for ProxyConfig {
    type V = ConfigSpec;

    closed spec fn view(&self) -> ConfigSpec {
        ConfigSpec {
            host: self.host@,
            servers: servers_view(self.servers@),
            default_server: opt_server_view(self.default_server),
            talk_host: opt_view(self.talk_host),
            talk_secret: opt_view(self.talk_secret),
            player_forwarding: self.player_forwarding,
            no_pf_for_ip_connect: self.no_pf_for_ip_connect,
        }
    }
}

impl ProxyConfig {
    pub fn new(
        host: String,
        servers: Vec<ProxyServer>,
        default_server: Option<ProxyServer>,
        talk_host: Option<String>,
        talk_secret: Option<String>,
        player_forwarding: PlayerForwarding,
        no_pf_for_ip_connect: bool,
    ) -> (r: ProxyConfig)
        ensures
            r@ == (ConfigSpec {
                host: host@,
                servers: servers_view(servers@),
                default_server: opt_server_view(default_server),
                talk_host: opt_view(talk_host),
                talk_secret: opt_view(talk_secret),
                player_forwarding,
                no_pf_for_ip_connect,
            }),
    {
        ProxyConfig {
            host,
            servers,
            default_server,
            talk_host,
            talk_secret,
            player_forwarding,
            no_pf_for_ip_connect,
        }
    }

    /// The address the proxy listens on.
    pub fn host(&self) -> (r: &str)
        ensures
            r@ == self@.host,
    {
        self.host.as_str()
    }

    pub fn servers(&self) -> (r: &Vec<ProxyServer>)
        ensures
            servers_view(r@) == self@.servers,
    {
        &self.servers
    }

    pub fn default_server(&self) -> (r: Option<&ProxyServer>)
        ensures
            match r {
                Some(s) => self@.default_server == Some(s@),
                None => self@.default_server is None,
            },
    {
        self.default_server.as_ref()
    }

    pub fn talk_host(&self) -> (r: Option<&String>)
        ensures
            match r {
                Some(s) => self@.talk_host == Some(s@),
                None => self@.talk_host is None,
            },
    {
        self.talk_host.as_ref()
    }

    pub fn talk_secret(&self) -> (r: Option<&String>)
        ensures
            match r {
                Some(s) => self@.talk_secret == Some(s@),
                None => self@.talk_secret is None,
            },
    {
        self.talk_secret.as_ref()
    }

    pub fn player_forwarding(&self) -> (r: &PlayerForwarding)
        ensures
            *r == self@.player_forwarding,
    {
        &self.player_forwarding
    }

    pub fn no_pf_for_ip_connect(&self) -> (r: bool)
        ensures
            r == self@.no_pf_for_ip_connect,
    {
        self.no_pf_for_ip_connect
    }

    /// The first server called `name`.
    pub fn get_server_by_name(&self, name: &str) -> (r: Option<ProxyServer>)
        ensures
            opt_server_view(r) == server_named(self@.servers, name@),
    {
        find_named(&self.servers, name)
    }

    /// The first server whose forced host is `forced_host`.
    pub fn get_server_by_forced_host(&self, forced_host: &str) -> (r: Option<ProxyServer>)
        ensures
            opt_server_view(r) == server_forced(self@.servers, forced_host@),
    {
        let ghost sv = self@.servers;
        let mut i: usize = 0;
        while i < self.servers.len()
            invariant
                i <= self.servers@.len(),
                sv == servers_view(self.servers@),
                forall|j: int| 0 <= j < i ==> sv[j].forced_host != Some(forced_host@),
            decreases self.servers.len() - i,
        {
            match &self.servers[i].forced_host {
                Some(h) => {
                    if str_eq(h.as_str(), forced_host) {
                        proof {
                            lemma_first_forced_unique(sv, forced_host@, i as int);
                        }
                        return Some(self.servers[i].duplicate());
                    }
                },
                None => {},
            }
            i = i + 1;
        }
        proof {
            assert(!exists|k: int| first_forced(sv, forced_host@, k));
        }
        None
    }

    /// The upstream for a client that asked for `virtual_host`: the server
    /// with that forced host, else the default server; `None` refuses the
    /// connection.
    pub fn route(&self, virtual_host: &str) -> (r: Option<ProxyServer>)
        ensures
            opt_server_view(r) == route_spec(self@, virtual_host@),
    {
        match self.get_server_by_forced_host(virtual_host) {
            Some(s) => Some(s),
            None => match &self.default_server {
                Some(d) => Some(d.duplicate()),
                None => None,
            },
        }
    }
}

/// The string under `key`, if the entry is a string.
pub open spec fn str_entry(d: Seq<(Seq<char>, NodeSpec)>, key: Seq<char>) -> Option<Seq<char>> {
    match lookup(d, key) {
        Some(NodeSpec::Str(s)) => Some(s),
        _ => None,
    }
}

/// The servers listed by a `servers` mapping, in order; entries whose
/// address is not a string are skipped.
pub open spec fn servers_from(m: Seq<(Seq<char>, Option<Seq<char>>)>) -> Seq<ServerSpec>
    decreases m.len(),
{
    if m.len() == 0 {
        Seq::empty()
    } else {
        let rest = servers_from(m.drop_last());
        match m.last().1 {
            Some(h) => rest.push(ServerSpec { name: m.last().0, host: h, forced_host: None }),
            None => rest,
        }
    }
}

/// The index of the first server named `name`.
pub open spec fn first_index(servers: Seq<ServerSpec>, name: Seq<char>) -> int {
    choose|i: int| first_named(servers, name, i)
}

/// Gives the first server named `name` the forced host `host`.
pub open spec fn with_forced(servers: Seq<ServerSpec>, name: Seq<char>, host: Seq<char>) -> Seq<ServerSpec> {
    if exists|i: int| first_named(servers, name, i) {
        let i = first_index(servers, name);
        servers.update(i, ServerSpec { forced_host: Some(host), ..servers[i] })
    } else {
        servers
    }
}

/// Applies the entries of a `forced_hosts` mapping in order.
pub open spec fn apply_forced(
    servers: Seq<ServerSpec>,
    fh: Seq<(Seq<char>, Option<Seq<char>>)>,
) -> Seq<ServerSpec>
    decreases fh.len(),
{
    if fh.len() == 0 {
        servers
    } else {
        let s = apply_forced(servers, fh.drop_last());
        match fh.last().1 {
            Some(h) => with_forced(s, fh.last().0, h),
            None => s,
        }
    }
}

pub open spec fn mapping_entry(d: Seq<(Seq<char>, NodeSpec)>, key: Seq<char>) -> Option<
    Seq<(Seq<char>, Option<Seq<char>>)>,
> {
    match lookup(d, key) {
        Some(NodeSpec::Mapping(m)) => Some(m),
        _ => None,
    }
}

/// `no_pf_for_ip_connect`: true when absent, the boolean when present, and
/// `None` (an invalid configuration) for any other value.
pub open spec fn no_pf_entry(d: Seq<(Seq<char>, NodeSpec)>) -> Option<bool> {
    match lookup(d, "no_pf_for_ip_connect"@) {
        None => Some(true),
        Some(NodeSpec::Bool(b)) => Some(b),
        _ => None,
    }
}

/// `player_forwarding`: disabled only for the string `disabled`.
pub open spec fn forwarding_entry(d: Seq<(Seq<char>, NodeSpec)>) -> PlayerForwarding {
    if str_entry(d, "player_forwarding"@) == Some("disabled"@) {
        PlayerForwarding::Disabled
    } else {
        PlayerForwarding::Handshake
    }
}

/// The servers of a document, forced hosts applied.
pub open spec fn doc_servers(d: Seq<(Seq<char>, NodeSpec)>) -> Seq<ServerSpec> {
    apply_forced(
        servers_from(mapping_entry(d, "servers"@).unwrap()),
        match mapping_entry(d, "forced_hosts"@) {
            Some(m) => m,
            None => Seq::empty(),
        },
    )
}

/// The configuration that a document describes: `host` (a string) and
/// `servers` (a mapping) are required, and `no_pf_for_ip_connect` must be a
/// boolean when present.
pub open spec fn config_of_doc(d: Seq<(Seq<char>, NodeSpec)>) -> Result<ConfigSpec, ProxyError> {
    if str_entry(d, "host"@) is None || mapping_entry(d, "servers"@) is None || no_pf_entry(
        d,
    ) is None {
        Err(ProxyError::ConfigParse)
    } else {
        let servers = doc_servers(d);
        Ok(
            ConfigSpec {
                host: str_entry(d, "host"@).unwrap(),
                servers,
                default_server: match str_entry(d, "default_server"@) {
                    Some(n) => server_named(servers, n),
                    None => None,
                },
                talk_host: str_entry(d, "talk_host"@),
                talk_secret: str_entry(d, "talk_secret"@),
                player_forwarding: forwarding_entry(d),
                no_pf_for_ip_connect: no_pf_entry(d).unwrap(),
            },
        )
    }
}

fn string_entry(doc: &YamlDocument, key: &str) -> (r: Option<String>)
    ensures
        opt_view(r) == str_entry(doc@, key@),
{
    match find_entry(doc, key) {
        Some(YamlNode::Str(s)) => Some(s.clone()),
        _ => None,
    }
}

fn servers_of_mapping(m: &Vec<(String, Option<String>)>) -> (r: Vec<ProxyServer>)
    ensures
        servers_view(r@) == servers_from(m@.map_values(|e: (String, Option<String>)| entry_view(e))),
{
    let ghost mv = m@.map_values(|e: (String, Option<String>)| entry_view(e));
    let mut r: Vec<ProxyServer> = Vec::new();
    let mut i: usize = 0;
    while i < m.len()
        invariant
            i <= m@.len(),
            mv == m@.map_values(|e: (String, Option<String>)| entry_view(e)),
            servers_view(r@) == servers_from(mv.take(i as int)),
        decreases m.len() - i,
    {
        assert(mv.take(i + 1).drop_last() =~= mv.take(i as int));
        match &m[i].1 {
            Some(h) => {
                r.push(ProxyServer { name: m[i].0.clone(), host: h.clone(), forced_host: None });
                assert(servers_view(r@) =~= servers_from(mv.take(i + 1)));
            },
            None => {},
        }
        i = i + 1;
    }
    assert(mv.take(m@.len() as int) =~= mv);
    r
}

fn set_forced(servers: &mut Vec<ProxyServer>, name: &str, host: &String)
    ensures
        servers_view(final(servers)@) == with_forced(servers_view(old(servers)@), name@, host@),
{
    let ghost sv = servers_view(servers@);
    let mut i: usize = 0;
    while i < servers.len()
        invariant
            i <= servers@.len(),
            sv == servers_view(servers@),
            servers@ == old(servers)@,
            forall|j: int| 0 <= j < i ==> sv[j].name != name@,
        decreases servers.len() - i,
    {
        if str_eq(servers[i].name.as_str(), name) {
            proof {
                lemma_first_index(sv, name@, i as int);
            }
            let s = ProxyServer {
                name: servers[i].name.clone(),
                host: servers[i].host.clone(),
                forced_host: Some(host.clone()),
            };
            let ghost sp = s@;
            assert(sp == ServerSpec { forced_host: Some(host@), ..sv[i as int] });
            assert(first_named(sv, name@, i as int));
            servers.set(i, s);
            assert(servers_view(servers@) =~= with_forced(sv, name@, host@));
            return;
        }
        i = i + 1;
    }
    assert(!exists|k: int| first_named(sv, name@, k));
}

/// The first server of `servers` called `name`.
fn find_named(servers: &Vec<ProxyServer>, name: &str) -> (r: Option<ProxyServer>)
    ensures
        opt_server_view(r) == server_named(servers_view(servers@), name@),
{
    let ghost sv = servers_view(servers@);
    let mut i: usize = 0;
    while i < servers.len()
        invariant
            i <= servers@.len(),
            sv == servers_view(servers@),
            forall|j: int| 0 <= j < i ==> sv[j].name != name@,
        decreases servers.len() - i,
    {
        if str_eq(servers[i].name.as_str(), name) {
            proof {
                lemma_first_named_unique(sv, name@, i as int);
            }
            return Some(servers[i].duplicate());
        }
        i = i + 1;
    }
    proof {
        assert(!exists|k: int| first_named(sv, name@, k));
    }
    None
}

proof fn lemma_first_index(servers: Seq<ServerSpec>, name: Seq<char>, i: int)
    requires
        first_named(servers, name, i),
    ensures
        first_index(servers, name) == i,
{
    lemma_first_named_unique(servers, name, i);
}

impl ProxyConfig {
    /// Reads the configuration from a parsed YAML document.
    pub fn from_yaml(doc: &YamlDocument) -> (r: Result<ProxyConfig, ProxyError>)
        ensures
            match (r, config_of_doc(doc@)) {
                (Ok(c), Ok(sc)) => c@ == sc,
                (Err(e), Err(se)) => e == se,
                _ => false,
            },
    {
        let host = match string_entry(doc, "host") {
            Some(h) => h,
            None => return Err(ProxyError::ConfigParse),
        };
        let mut servers = match find_entry(doc, "servers") {
            Some(YamlNode::Mapping(m)) => servers_of_mapping(m),
            _ => return Err(ProxyError::ConfigParse),
        };
        let no_pf_for_ip_connect = match find_entry(doc, "no_pf_for_ip_connect") {
            None => true,
            Some(YamlNode::Bool(b)) => *b,
            _ => return Err(ProxyError::ConfigParse),
        };
        let ghost base = servers_view(servers@);
        match find_entry(doc, "forced_hosts") {
            Some(YamlNode::Mapping(fh)) => {
                let ghost fv = fh@.map_values(|e: (String, Option<String>)| entry_view(e));
                let mut i: usize = 0;
                while i < fh.len()
                    invariant
                        i <= fh@.len(),
                        fv == fh@.map_values(|e: (String, Option<String>)| entry_view(e)),
                        servers_view(servers@) == apply_forced(base, fv.take(i as int)),
                    decreases fh.len() - i,
                {
                    assert(fv.take(i + 1).drop_last() =~= fv.take(i as int));
                    match &fh[i].1 {
                        Some(h) => set_forced(&mut servers, fh[i].0.as_str(), h),
                        None => {},
                    }
                    i = i + 1;
                }
                assert(fv.take(fh@.len() as int) =~= fv);
            },
            _ => {},
        }
        let ghost sv = servers_view(servers@);
        assert(sv == doc_servers(doc@));
        let default_server = match string_entry(doc, "default_server") {
            Some(n) => find_named(&servers, n.as_str()),
            None => None,
        };
        let player_forwarding = match find_entry(doc, "player_forwarding") {
            Some(YamlNode::Str(s)) => if str_eq(s.as_str(), "disabled") {
                PlayerForwarding::Disabled
            } else {
                PlayerForwarding::Handshake
            },
            _ => PlayerForwarding::Handshake,
        };
        Ok(
            ProxyConfig {
                host,
                servers,
                default_server,
                talk_host: string_entry(doc, "talk_host"),
                talk_secret: string_entry(doc, "talk_secret"),
                player_forwarding,
                no_pf_for_ip_connect,
            },
        )
    }

    /// Reads the configuration from YAML text. Text that does not parse, or
    /// whose top level is not a mapping, is a configuration error.
    pub fn load_yml(text: &str) -> (r: Result<ProxyConfig, ProxyError>)
        ensures
            match yaml_document_of(text@) {
                None => r == Err::<ProxyConfig, ProxyError>(ProxyError::ConfigParse),
                Some(d) => match (r, config_of_doc(d)) {
                    (Ok(c), Ok(sc)) => c@ == sc,
                    (Err(e), Err(se)) => e == se,
                    _ => false,
                },
            },
    {
        match parse_yaml(text) {
            Some(doc) => ProxyConfig::from_yaml(&doc),
            None => Err(ProxyError::ConfigParse),
        }
    }
}

/// The `servers` mapping that lists `s`: each name with its address.
pub open spec fn servers_entries(s: Seq<ServerSpec>) -> Seq<(Seq<char>, Option<Seq<char>>)>
    decreases s.len(),
{
    if s.len() == 0 {
        Seq::empty()
    } else {
        servers_entries(s.drop_last()).push((s.last().name, Some(s.last().host)))
    }
}

/// The `forced_hosts` mapping of `s`: each server with a forced host.
pub open spec fn forced_entries(s: Seq<ServerSpec>) -> Seq<(Seq<char>, Option<Seq<char>>)>
    decreases s.len(),
{
    if s.len() == 0 {
        Seq::empty()
    } else {
        let rest = forced_entries(s.drop_last());
        match s.last().forced_host {
            Some(h) => rest.push((s.last().name, Some(h))),
            None => rest,
        }
    }
}

pub open spec fn opt_node(o: Option<Seq<char>>) -> NodeSpec {
    match o {
        Some(s) => NodeSpec::Str(s),
        None => NodeSpec::Other,
    }
}

/// The document that writes out `c`; absent optional values are written as
/// non-string values.
pub open spec fn doc_of_config(c: ConfigSpec) -> Seq<(Seq<char>, NodeSpec)> {
    seq![
        ("host"@, NodeSpec::Str(c.host)),
        ("servers"@, NodeSpec::Mapping(servers_entries(c.servers))),
        ("forced_hosts"@, NodeSpec::Mapping(forced_entries(c.servers))),
        ("default_server"@, match c.default_server {
            Some(s) => NodeSpec::Str(s.name),
            None => NodeSpec::Other,
        }),
        ("talk_host"@, opt_node(c.talk_host)),
        ("talk_secret"@, opt_node(c.talk_secret)),
        ("player_forwarding"@, NodeSpec::Str(
            if c.player_forwarding == PlayerForwarding::Disabled {
                "disabled"@
            } else {
                "handshake"@
            },
        )),
        ("no_pf_for_ip_connect"@, NodeSpec::Bool(c.no_pf_for_ip_connect)),
    ]
}

/// `s` without its forced hosts.
pub open spec fn strip(s: Seq<ServerSpec>) -> Seq<ServerSpec>
    decreases s.len(),
{
    if s.len() == 0 {
        Seq::empty()
    } else {
        strip(s.drop_last()).push(ServerSpec { forced_host: None, ..s.last() })
    }
}

/// Every server with a forced host is the first of its name.
pub open spec fn forced_on_first(s: Seq<ServerSpec>) -> bool {
    forall|i: int|
        0 <= i < s.len() && (#[trigger] s[i]).forced_host is Some ==> first_named(s, s[i].name, i)
}

proof fn lemma_strip(s: Seq<ServerSpec>)
    ensures
        strip(s).len() == s.len(),
        forall|i: int| 0 <= i < s.len() ==> #[trigger] strip(s)[i] == (ServerSpec { forced_host: None, ..s[i] }),
    decreases s.len(),
{
    if s.len() > 0 {
        lemma_strip(s.drop_last());
    }
}

proof fn lemma_servers_from_entries(s: Seq<ServerSpec>)
    ensures
        servers_from(servers_entries(s)) == strip(s),
    decreases s.len(),
{
    if s.len() > 0 {
        lemma_servers_from_entries(s.drop_last());
        let e = servers_entries(s);
        assert(e.drop_last() =~= servers_entries(s.drop_last()));
    }
}

proof fn lemma_servers_from_unforced(m: Seq<(Seq<char>, Option<Seq<char>>)>)
    ensures
        forall|i: int| 0 <= i < servers_from(m).len() ==> (#[trigger] servers_from(m)[i]).forced_host is None,
    decreases m.len(),
{
    if m.len() > 0 {
        lemma_servers_from_unforced(m.drop_last());
    }
}

proof fn lemma_with_forced_keeps(s: Seq<ServerSpec>, name: Seq<char>, host: Seq<char>)
    requires
        forced_on_first(s),
    ensures
        forced_on_first(with_forced(s, name, host)),
        with_forced(s, name, host).len() == s.len(),
        forall|i: int| 0 <= i < s.len() ==> (#[trigger] with_forced(s, name, host)[i]).name == s[i].name,
{
    if exists|i: int| first_named(s, name, i) {
        let k = first_index(s, name);
        let t = with_forced(s, name, host);
        assert forall|i: int| 0 <= i < t.len() && (#[trigger] t[i]).forced_host is Some implies first_named(
            t,
            t[i].name,
            i,
        ) by {
            if i != k {
                assert(first_named(s, s[i].name, i));
            }
        }
    }
}

proof fn lemma_apply_forced_keeps(s: Seq<ServerSpec>, fh: Seq<(Seq<char>, Option<Seq<char>>)>)
    requires
        forced_on_first(s),
    ensures
        forced_on_first(apply_forced(s, fh)),
    decreases fh.len(),
{
    if fh.len() > 0 {
        lemma_apply_forced_keeps(s, fh.drop_last());
        if let Some(h) = fh.last().1 {
            lemma_with_forced_keeps(apply_forced(s, fh.drop_last()), fh.last().0, h);
        }
    }
}

proof fn lemma_apply_forced_entries(s: Seq<ServerSpec>, k: nat)
    requires
        forced_on_first(s),
        k <= s.len(),
    ensures
        apply_forced(strip(s), forced_entries(s.take(k as int))) == s.take(k as int) + strip(s).skip(
            k as int,
        ),
    decreases k,
{
    lemma_strip(s);
    if k == 0 {
        assert(s.take(0) =~= Seq::<ServerSpec>::empty());
        assert(forced_entries(s.take(0)) =~= Seq::empty());
        assert(s.take(0) + strip(s).skip(0) =~= strip(s));
    } else {
        let j = (k - 1) as int;
        lemma_apply_forced_entries(s, (k - 1) as nat);
        let prev = s.take(j) + strip(s).skip(j);
        let cur = s.take(k as int) + strip(s).skip(k as int);
        assert(s.take(k as int).drop_last() =~= s.take(j));
        assert(s.take(k as int).last() == s[j]);
        match s[j].forced_host {
            Some(h) => {
                let fe = forced_entries(s.take(k as int));
                assert(fe.drop_last() =~= forced_entries(s.take(j)));
                assert(first_named(s, s[j].name, j));
                assert(first_named(prev, s[j].name, j)) by {
                    assert forall|i: int| 0 <= i < j implies prev[i].name != s[j].name by {
                        assert(prev[i] == s[i]);
                    }
                }
                lemma_first_index(prev, s[j].name, j);
                assert(with_forced(prev, s[j].name, h) =~= cur);
            },
            None => {
                assert(prev =~= cur);
            },
        }
    }
}

/// A configuration read from a document, written out and read again, is the
/// same configuration.
pub proof fn lemma_config_round_trip(d: Seq<(Seq<char>, NodeSpec)>)
    requires
        config_of_doc(d) is Ok,
    ensures
        config_of_doc(doc_of_config(config_of_doc(d)->Ok_0)) == config_of_doc(d),
{
    let c = config_of_doc(d)->Ok_0;
    let e = doc_of_config(c);
    let s = c.servers;
    reveal_strlit("host");
    reveal_strlit("servers");
    reveal_strlit("forced_hosts");
    reveal_strlit("default_server");
    reveal_strlit("talk_host");
    reveal_strlit("talk_secret");
    reveal_strlit("player_forwarding");
    reveal_strlit("no_pf_for_ip_connect");
    reveal_strlit("disabled");
    reveal_strlit("handshake");
    let keys = seq![
        "host"@,
        "servers"@,
        "forced_hosts"@,
        "default_server"@,
        "talk_host"@,
        "talk_secret"@,
        "player_forwarding"@,
        "no_pf_for_ip_connect"@,
    ];
    assert forall|k: int| 0 <= k < 8 implies lookup(e, #[trigger] keys[k]) == Some(e[k].1) by {
        assert(e[k].0 == keys[k]);
        assert forall|j: int| 0 <= j < k implies e[j].0 != keys[k] by {
            assert(keys[j].len() != keys[k].len());
        }
        lemma_lookup_at(e, keys[k], k);
    }
    let base = servers_from(mapping_entry(d, "servers"@).unwrap());
    lemma_servers_from_unforced(mapping_entry(d, "servers"@).unwrap());
    lemma_apply_forced_keeps(
        base,
        match mapping_entry(d, "forced_hosts"@) {
            Some(m) => m,
            None => Seq::empty(),
        },
    );
    assert(forced_on_first(base));
    assert(s == doc_servers(d));
    assert(forced_on_first(s));
    assert(mapping_entry(e, "servers"@) == Some(servers_entries(s)));
    assert(mapping_entry(e, "forced_hosts"@) == Some(forced_entries(s)));
    lemma_servers_from_entries(s);
    lemma_apply_forced_entries(s, s.len());
    lemma_strip(s);
    assert(s.take(s.len() as int) =~= s);
    assert(s.take(s.len() as int) + strip(s).skip(s.len() as int) =~= s);
    assert(doc_servers(e) == s);
    if let Some(n) = str_entry(d, "default_server"@) {
        if let Some(ds) = server_named(s, n) {
            let k = first_index(s, n);
            lemma_first_named_unique(s, n, k);
            lemma_first_named_unique(s, ds.name, k);
        }
    }
    let r = config_of_doc(e)->Ok_0;
    assert(config_of_doc(e) is Ok);
    assert(r.host == c.host);
    assert(r.servers == c.servers);
    assert(r.default_server == c.default_server);
    assert(r.talk_host == c.talk_host);
    assert(r.talk_secret == c.talk_secret);
    assert("handshake"@.len() != "disabled"@.len());
    assert("handshake"@ != "disabled"@);
    assert(r.player_forwarding == c.player_forwarding);
    assert(r.no_pf_for_ip_connect == c.no_pf_for_ip_connect);
}

impl ProxyConfig {
    /// The document that writes out this configuration.
    pub fn to_yaml(&self) -> (r: YamlDocument)
        ensures
            r@ == doc_of_config(self@),
    {
        let ghost sv = servers_view(self.servers@);
        let mut servers: Vec<(String, Option<String>)> = Vec::new();
        let mut forced: Vec<(String, Option<String>)> = Vec::new();
        let mut i: usize = 0;
        while i < self.servers.len()
            invariant
                i <= self.servers@.len(),
                sv == servers_view(self.servers@),
                servers@.map_values(|e: (String, Option<String>)| entry_view(e)) == servers_entries(
                    sv.take(i as int),
                ),
                forced@.map_values(|e: (String, Option<String>)| entry_view(e)) == forced_entries(
                    sv.take(i as int),
                ),
            decreases self.servers.len() - i,
        {
            let s = &self.servers[i];
            assert(sv.take(i + 1).drop_last() =~= sv.take(i as int));
            servers.push((s.name.clone(), Some(s.host.clone())));
            assert(servers@.map_values(|e: (String, Option<String>)| entry_view(e)) =~= servers_entries(
                sv.take(i + 1),
            ));
            match &s.forced_host {
                Some(h) => {
                    forced.push((s.name.clone(), Some(h.clone())));
                },
                None => {},
            }
            assert(forced@.map_values(|e: (String, Option<String>)| entry_view(e)) =~= forced_entries(
                sv.take(i + 1),
            ));
            i = i + 1;
        }
        assert(sv.take(self.servers@.len() as int) =~= sv);
        let default_node = match &self.default_server {
            Some(s) => YamlNode::Str(s.name.clone()),
            None => YamlNode::Other,
        };
        let forwarding = if self.player_forwarding == PlayerForwarding::Disabled {
            "disabled".to_string()
        } else {
            "handshake".to_string()
        };
        let mut entries: Vec<(String, YamlNode)> = Vec::new();
        entries.push(("host".to_string(), YamlNode::Str(self.host.clone())));
        entries.push(("servers".to_string(), YamlNode::Mapping(servers)));
        entries.push(("forced_hosts".to_string(), YamlNode::Mapping(forced)));
        entries.push(("default_server".to_string(), default_node));
        entries.push(("talk_host".to_string(), opt_node_of(&self.talk_host)));
        entries.push(("talk_secret".to_string(), opt_node_of(&self.talk_secret)));
        entries.push(("player_forwarding".to_string(), YamlNode::Str(forwarding)));
        entries.push(
            ("no_pf_for_ip_connect".to_string(), YamlNode::Bool(self.no_pf_for_ip_connect)),
        );
        let r = YamlDocument { entries };
        assert(r@ =~= doc_of_config(self@));
        r
    }
}

fn opt_node_of(o: &Option<String>) -> (r: YamlNode)
    ensures
        r@ == opt_node(opt_view(*o)),
{
    match o {
        Some(s) => YamlNode::Str(s.clone()),
        None => YamlNode::Other,
    }
}

} // verus!
