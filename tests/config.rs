use meexprox::config::{PlayerForwarding, ProxyConfig, ProxyServer};
use meexprox::error::ProxyError;

const ROUTING: &str = "host: 127.0.0.1:25565
servers:
  a: 127.0.0.1:1
  b: 127.0.0.1:2
forced_hosts:
  b: play.example
default_server: a
";

#[test]
fn forced_host_routing() {
    let c = ProxyConfig::load_yml(ROUTING).unwrap();
    assert_eq!(c.host(), "127.0.0.1:25565");
    assert_eq!(c.servers().len(), 2);
    let b = c.route("play.example").unwrap();
    assert_eq!(b.name(), "b");
    assert_eq!(b.host(), "127.0.0.1:2");
    assert_eq!(b.forced_host().map(|s| s.as_str()), Some("play.example"));
    let a = c.route("other").unwrap();
    assert_eq!(a.name(), "a");
    assert!(a.forced_host().is_none());
}

#[test]
fn routing_without_default_fails() {
    let text = "host: 0.0.0.0:25565
servers:
  a: 127.0.0.1:1
  b: 127.0.0.1:2
forced_hosts:
  b: play.example
";
    let c = ProxyConfig::load_yml(text).unwrap();
    assert!(c.route("other").is_none());
    assert_eq!(c.route("play.example").unwrap().name(), "b");
}

#[test]
fn lookups_by_name_and_forced_host() {
    let c = ProxyConfig::load_yml(ROUTING).unwrap();
    assert_eq!(c.get_server_by_name("a").unwrap().host(), "127.0.0.1:1");
    assert!(c.get_server_by_name("c").is_none());
    assert_eq!(c.get_server_by_forced_host("play.example").unwrap().name(), "b");
    assert!(c.get_server_by_forced_host("a").is_none());
}

#[test]
fn defaults_of_optional_keys() {
    let c = ProxyConfig::load_yml("host: h\nservers: {}\n").unwrap();
    assert_eq!(c.servers().len(), 0);
    assert!(c.default_server().is_none());
    assert!(c.talk_host().is_none());
    assert!(c.talk_secret().is_none());
    assert_eq!(*c.player_forwarding(), PlayerForwarding::Handshake);
    assert!(c.no_pf_for_ip_connect());
}

#[test]
fn explicit_optional_keys() {
    let text = "host: h
servers:
  srv: 127.0.0.1:25500
default_server: srv
player_forwarding: disabled
talk_host: 1.2.3.4:5
talk_secret: s3
no_pf_for_ip_connect: false
";
    let c = ProxyConfig::load_yml(text).unwrap();
    assert_eq!(*c.player_forwarding(), PlayerForwarding::Disabled);
    assert!(!c.no_pf_for_ip_connect());
    assert_eq!(c.talk_host().map(|s| s.as_str()), Some("1.2.3.4:5"));
    assert_eq!(c.talk_secret().map(|s| s.as_str()), Some("s3"));
    assert_eq!(c.default_server().unwrap().name(), "srv");
}

#[test]
fn unknown_forwarding_mode_is_handshake() {
    let c = ProxyConfig::load_yml("host: h\nservers: {}\nplayer_forwarding: velocity\n").unwrap();
    assert_eq!(*c.player_forwarding(), PlayerForwarding::Handshake);
}

#[test]
fn invalid_configs() {
    assert_eq!(ProxyConfig::load_yml("servers: {}\n").err(), Some(ProxyError::ConfigParse));
    assert_eq!(ProxyConfig::load_yml("host: h\n").err(), Some(ProxyError::ConfigParse));
    assert_eq!(
        ProxyConfig::load_yml("host: h\nservers: {}\nno_pf_for_ip_connect: 3\n").err(),
        Some(ProxyError::ConfigParse)
    );
    assert_eq!(ProxyConfig::load_yml("- a\n- b\n").err(), Some(ProxyError::ConfigParse));
    assert_eq!(ProxyConfig::load_yml("host: [unclosed\n").err(), Some(ProxyError::ConfigParse));
}

#[test]
fn unknown_default_server_is_none() {
    let c = ProxyConfig::load_yml("host: h\nservers:\n  a: x:1\ndefault_server: zz\n").unwrap();
    assert!(c.default_server().is_none());
}

fn same(a: &ProxyConfig, b: &ProxyConfig) {
    assert_eq!(a.host(), b.host());
    assert_eq!(a.servers().len(), b.servers().len());
    for (x, y) in a.servers().iter().zip(b.servers().iter()) {
        assert_eq!(x.name(), y.name());
        assert_eq!(x.host(), y.host());
        assert_eq!(x.forced_host(), y.forced_host());
    }
    assert_eq!(a.default_server().map(|s| s.name().to_string()), b.default_server().map(|s| s.name().to_string()));
    assert_eq!(a.talk_host(), b.talk_host());
    assert_eq!(a.talk_secret(), b.talk_secret());
    assert_eq!(a.player_forwarding(), b.player_forwarding());
    assert_eq!(a.no_pf_for_ip_connect(), b.no_pf_for_ip_connect());
}

#[test]
fn config_round_trip() {
    let c = ProxyConfig::load_yml(ROUTING).unwrap();
    let again = ProxyConfig::from_yaml(&c.to_yaml()).unwrap();
    same(&c, &again);
    let text = "host: h
servers:
  srv: 127.0.0.1:25500
default_server: srv
player_forwarding: disabled
talk_host: t
no_pf_for_ip_connect: false
";
    let c = ProxyConfig::load_yml(text).unwrap();
    let again = ProxyConfig::from_yaml(&c.to_yaml()).unwrap();
    same(&c, &again);
}

#[test]
fn constructed_config() {
    let s = ProxyServer::new("a".to_string(), "1.1.1.1:1".to_string(), Some("v".to_string()));
    let c = ProxyConfig::new(
        "0.0.0.0:1".to_string(),
        vec![s.clone()],
        Some(s),
        None,
        None,
        PlayerForwarding::Disabled,
        true,
    );
    assert_eq!(c.route("v").unwrap().name(), "a");
    assert_eq!(c.route("w").unwrap().name(), "a");
}
