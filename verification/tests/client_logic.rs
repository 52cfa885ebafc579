use sitepi::authorize::{
    authorize_headers, authorize_url, check_authorize_status, check_stream_status,
    connect_target, stream_message, AuthorizeError, ConnectError,
};
use sitepi::codec::encode_key;
use sitepi::config::{
    fallback_config, resolve_config, CliOverrides, Config, ConfigError, ReconnectConfig,
};
use sitepi::keyfile::{generate_keys, parse_key_file, render_key_file, KeyFileError, StoredKeys};
use sitepi::message::{
    assemble_peer, build_peer, read_allowed_ips, split_message, Message, MessageError, PeerFields,
};
use sitepi::net::{to_wire_order, AllowedIp, Endpoint, IpAddress, IpNetwork, Ipv4Network};
use sitepi::peers::{Peer, PeerManager};
use sitepi::routes::{
    add_route_row, delete_route_row, interface_index, route_status, RouteOutcome, RouteRow,
};
use sitepi::schedule::{ConnectRetry, ReconnectState, ReconnectStep};
use sitepi::text::{chars_of, parse_u16_chars, trim_chars, words_of};
use sitepi::{default_base_delay, default_log_level, default_max_attempts};

const KEY_A: &str = "T9zwNAEyJtN/x9t6bsB+KPEQqKSfhK8XFM3KxxqELHc=";
const KEY_B: &str = "AAAAAAAAAAAAAAAAAAAAAAAAAAAAAAAAAAAAAAAAAAA=";

fn no_cli() -> CliOverrides {
    CliOverrides { server: None, interface: None, provision: None, route: None }
}

fn file_config() -> Config {
    Config {
        server: "https://example.net".to_string(),
        interface: "wg7".to_string(),
        provision_code: Some("CODE1".to_string()),
        auto_route: true,
        log_level: "debug".to_string(),
        reconnect_config: ReconnectConfig { max_attempts: 10, base_delay_ms: 2000 },
    }
}

fn v4(a: u8, b: u8, c: u8, d: u8) -> u32 {
    u32::from_be_bytes([a, b, c, d])
}

fn host4(a: u8, b: u8, c: u8, d: u8) -> IpNetwork {
    IpNetwork::V4(Ipv4Network { addr: v4(a, b, c, d), prefix_len: 32 })
}

fn fields(key: &str, endpoint: Option<&str>, ips: &[&str], keepalive: &str) -> PeerFields {
    PeerFields {
        key_text: key.to_string(),
        endpoint_text: endpoint.map(|s| s.to_string()),
        ip_texts: ips.iter().map(|s| s.to_string()).collect(),
        keepalive_text: keepalive.to_string(),
    }
}

#[test]
fn defaults_match_the_documented_values() {
    assert_eq!(default_max_attempts(), 5);
    assert_eq!(default_base_delay(), 1000);
    assert_eq!(default_log_level(), "info");
    let d = ReconnectConfig::default();
    assert_eq!(d, ReconnectConfig { max_attempts: 5, base_delay_ms: 1000 });
}

#[test]
fn fallback_configuration() {
    let c = fallback_config();
    assert_eq!(c.server, "https://sitepi.cn");
    assert_eq!(c.interface, "");
    assert_eq!(c.provision_code, None);
    assert!(!c.auto_route);
    assert_eq!(c.log_level, "info");
    assert_eq!(c.reconnect_config, ReconnectConfig { max_attempts: 5, base_delay_ms: 1000 });
}

#[test]
fn missing_interface_is_refused() {
    assert!(matches!(resolve_config(None, no_cli()), Err(ConfigError::MissingInterface)));
    let mut f = file_config();
    f.interface = String::new();
    assert!(matches!(resolve_config(Some(f), no_cli()), Err(ConfigError::MissingInterface)));
    let cli = CliOverrides { interface: Some(String::new()), ..no_cli() };
    assert!(matches!(resolve_config(Some(file_config()), cli), Err(ConfigError::MissingInterface)));
}

#[test]
fn command_line_interface_completes_the_fallback() {
    let cli = CliOverrides { interface: Some("wg0".to_string()), ..no_cli() };
    let c = resolve_config(None, cli).unwrap();
    assert_eq!(c.server, "https://sitepi.cn");
    assert_eq!(c.interface, "wg0");
    assert_eq!(c.provision_code, None);
    assert!(!c.auto_route);
    assert_eq!(c.log_level, "info");
    assert_eq!(c.reconnect_config.max_attempts, 5);
}

#[test]
fn file_configuration_is_kept_without_overrides() {
    let c = resolve_config(Some(file_config()), no_cli()).unwrap();
    assert_eq!(c.server, "https://example.net");
    assert_eq!(c.interface, "wg7");
    assert_eq!(c.provision_code.as_deref(), Some("CODE1"));
    assert!(c.auto_route);
    assert_eq!(c.log_level, "debug");
    assert_eq!(c.reconnect_config, ReconnectConfig { max_attempts: 10, base_delay_ms: 2000 });
}

#[test]
fn command_line_overrides_the_file() {
    let cli = CliOverrides {
        server: Some("https://other.example".to_string()),
        interface: Some("wg1".to_string()),
        provision: Some("CODE2".to_string()),
        route: Some(false),
    };
    let c = resolve_config(Some(file_config()), cli).unwrap();
    assert_eq!(c.server, "https://other.example");
    assert_eq!(c.interface, "wg1");
    assert_eq!(c.provision_code.as_deref(), Some("CODE2"));
    assert!(!c.auto_route);
    assert_eq!(c.log_level, "debug");
    assert_eq!(c.reconnect_config.base_delay_ms, 2000);
}

#[test]
fn encode_key_gives_standard_base64() {
    assert_eq!(encode_key(&[0u8; 32]), KEY_B);
    let mut k = [0u8; 32];
    k[0] = 0xff;
    k[31] = 0x01;
    assert_eq!(encode_key(&k), "/wAAAAAAAAAAAAAAAAAAAAAAAAAAAAAAAAAAAAAAAAE=");
}

#[test]
fn key_file_round_trip() {
    let mut key = [0u8; 32];
    for (i, b) in key.iter_mut().enumerate() {
        *b = (i * 7 + 3) as u8;
    }
    let text = render_key_file(&key, 51820);
    let expected =
        format!("[Interface]\nPrivateKey = {}\nListenPort = 51820\n", encode_key(&key));
    assert_eq!(text, expected);
    let read = parse_key_file(&text).unwrap();
    assert_eq!(read, StoredKeys { private_key: Some(key), listen_port: Some(51820) });
    assert_eq!(read.usable(), Some((key, 51820)));
}

#[test]
fn key_file_written_by_hand() {
    let text = format!("  [Interface]\r\n  PrivateKey = {}  \r\nListenPort=+1234\r\n", KEY_A);
    let read = parse_key_file(&text).unwrap();
    assert_eq!(read.listen_port, Some(1234));
    let key = read.private_key.unwrap();
    assert_eq!(encode_key(&key), KEY_A);
}

#[test]
fn key_file_later_lines_win() {
    let text = format!("PrivateKey = {}\nListenPort = 1\nPrivateKey = {}\nListenPort = 2\n", KEY_A, KEY_B);
    let read = parse_key_file(&text).unwrap();
    assert_eq!(read.private_key, Some([0u8; 32]));
    assert_eq!(read.listen_port, Some(2));
}

#[test]
fn key_file_missing_port_is_not_usable() {
    let text = format!("[Interface]\nPrivateKey = {}\n", KEY_A);
    let read = parse_key_file(&text).unwrap();
    assert!(read.private_key.is_some());
    assert_eq!(read.listen_port, None);
    assert_eq!(read.usable(), None);
    assert_eq!(parse_key_file("").unwrap(), StoredKeys { private_key: None, listen_port: None });
}

#[test]
fn key_file_short_key_is_ignored() {
    let read = parse_key_file("PrivateKey = AAA=\nListenPort = 9\n").unwrap();
    assert_eq!(read, StoredKeys { private_key: None, listen_port: Some(9) });
}

#[test]
fn key_file_lines_without_value_change_nothing() {
    let read = parse_key_file("PrivateKey\nListenPort\n").unwrap();
    assert_eq!(read, StoredKeys { private_key: None, listen_port: None });
}

#[test]
fn key_file_bad_values_are_refused() {
    assert_eq!(parse_key_file("PrivateKey = not*base64\n"), Err(KeyFileError::BadPrivateKey));
    assert_eq!(parse_key_file("ListenPort = 70000\n"), Err(KeyFileError::BadListenPort));
    assert_eq!(parse_key_file("ListenPort = -1\n"), Err(KeyFileError::BadListenPort));
    assert_eq!(parse_key_file("ListenPort = \n"), Err(KeyFileError::BadListenPort));
}

#[test]
fn generated_keys_are_saved_and_read_back() {
    for _ in 0..20 {
        let g = generate_keys();
        assert!(g.listen_port >= 1024 && g.listen_port < 65535);
        let read = parse_key_file(&g.file_text).unwrap();
        assert_eq!(read.usable(), Some((g.private_key, g.listen_port)));
    }
}

#[test]
fn u16_parsing_follows_the_standard_library() {
    for t in ["0", "+80", "65535", "00042", "+", "", "-1", "65536", "1 2", "x"] {
        let expected = t.parse::<u16>().ok();
        assert_eq!(parse_u16_chars(&chars_of(t)), expected, "{:?}", t);
    }
}

#[test]
fn trimming_and_words_follow_the_standard_library() {
    let t = " \t\u{3000}a b\u{a0}\n";
    let trimmed: String = trim_chars(&chars_of(t)).into_iter().collect();
    assert_eq!(trimmed, t.trim());
    let w: Vec<String> = words_of(&chars_of(t)).into_iter().map(|v| v.into_iter().collect()).collect();
    let expected: Vec<String> = t.split_whitespace().map(|s| s.to_string()).collect();
    assert_eq!(w, expected);
}

#[test]
fn peer_announcement_is_split_into_fields() {
    let m = format!("wg {} abc 1.2.3.4:51820 10.0.0.3,192.168.1.0,,x 25", KEY_A);
    match split_message(&m) {
        Message::Peer(f) => {
            assert_eq!(f.key_text, KEY_A);
            assert_eq!(f.endpoint_text.as_deref(), Some("1.2.3.4:51820"));
            assert_eq!(f.ip_texts, vec!["10.0.0.3", "192.168.1.0", "", "x"]);
            assert_eq!(f.keepalive_text, "25");
        },
        Message::Ignored => panic!("announcement ignored"),
    }
}

#[test]
fn placeholders_leave_fields_out() {
    let m = format!("  wg\t{} - x x x  ", KEY_A);
    match split_message(&m) {
        Message::Peer(f) => {
            assert_eq!(f.endpoint_text, None);
            assert!(f.ip_texts.is_empty());
            assert_eq!(f.keepalive_text, "x");
        },
        Message::Ignored => panic!("announcement ignored"),
    }
}

#[test]
fn other_lines_are_ignored() {
    for m in ["", "ping", "wg only", "wg a b c d", "wg a b c d e f", "up a b c d e", "WG a b c d e"] {
        assert!(matches!(split_message(m), Message::Ignored), "{:?}", m);
    }
}

#[test]
fn peer_is_built_from_fields() {
    let f = fields(KEY_A, Some("1.2.3.4:51820"), &["10.0.0.3", "bad", "fd00::1"], "25");
    let ips = vec![Some(IpAddress::V4(v4(10, 0, 0, 3))), None, Some(IpAddress::V6(0xfd00 << 112 | 1))];
    let p = build_peer(&f, Some(Endpoint::V4(v4(1, 2, 3, 4), 51820)), &ips).ok().unwrap();
    assert_eq!(encode_key(&p.public_key), KEY_A);
    assert_eq!(p.keep_alive, 25);
    assert_eq!(p.endpoint, Endpoint::V4(v4(1, 2, 3, 4), 51820));
    assert_eq!(
        p.allowed_ips,
        vec![host4(10, 0, 0, 3), IpNetwork::V6 { addr: 0xfd00 << 112 | 1, prefix_len: 32 }]
    );
}

#[test]
fn placeholder_endpoint_and_keepalive() {
    let f = fields(KEY_B, None, &[], "x");
    let p = build_peer(&f, None, &vec![]).ok().unwrap();
    assert_eq!(p.public_key, [0u8; 32]);
    assert_eq!(p.keep_alive, 0);
    assert_eq!(p.endpoint, Endpoint::V4(0, 0));
    assert!(p.allowed_ips.is_empty());
}

#[test]
fn refused_announcements() {
    let err = |f: PeerFields, e: Option<Endpoint>| build_peer(&f, e, &vec![]).err().unwrap();
    let ep = Some(Endpoint::V4(1, 1));
    assert_eq!(err(fields("not-base64!", Some("1.1.1.1:1"), &[], "1"), ep), MessageError::BadKeyEncoding);
    assert_eq!(err(fields("AAA=", Some("1.1.1.1:1"), &[], "1"), ep), MessageError::BadKeyLength);
    assert_eq!(err(fields(KEY_A, Some("nowhere"), &[], "1"), None), MessageError::BadEndpoint);
    assert_eq!(err(fields(KEY_A, Some("1.1.1.1:1"), &[], "70000"), ep), MessageError::BadKeepalive);
    assert_eq!(err(fields("AAA=", Some("nowhere"), &[], "zz"), None), MessageError::BadKeyLength);
}

fn announce(m: &mut PeerManager, key: &str, ips: &[u32], keepalive: &str, auto_route: bool) -> Option<Vec<IpNetwork>> {
    let texts: Vec<String> = ips.iter().map(|a| a.to_string()).collect();
    let text_refs: Vec<&str> = texts.iter().map(|s| s.as_str()).collect();
    let f = fields(key, None, &text_refs, keepalive);
    let parsed: Vec<Option<IpAddress>> = ips.iter().map(|a| Some(IpAddress::V4(*a))).collect();
    let change = m.apply_announcement(f, None, &parsed, auto_route).ok().unwrap();
    assert_eq!(change.key_text, key);
    let listed = m.get_peers();
    assert_eq!(change.peers.len(), listed.len());
    change.route_request
}

#[test]
fn announcements_add_and_replace_peers() {
    let mut m = PeerManager::new();
    assert!(m.get_peers().is_empty());
    announce(&mut m, KEY_A, &[v4(10, 0, 0, 2)], "1", false);
    announce(&mut m, KEY_B, &[v4(10, 0, 0, 3)], "2", false);
    announce(&mut m, KEY_A, &[v4(10, 0, 0, 9)], "3", false);
    let peers: Vec<Peer> = m.get_peers();
    assert_eq!(peers.len(), 2);
    assert_eq!(encode_key(&peers[0].public_key), KEY_A);
    assert_eq!(peers[0].keep_alive, 3);
    assert_eq!(peers[0].allowed_ips, vec![host4(10, 0, 0, 9)]);
    assert_eq!(encode_key(&peers[1].public_key), KEY_B);
    assert_eq!(peers[1].keep_alive, 2);
}

#[test]
fn repeated_announcement_changes_nothing_more() {
    let mut m = PeerManager::new();
    announce(&mut m, KEY_A, &[v4(10, 0, 0, 2)], "7", false);
    announce(&mut m, KEY_A, &[v4(10, 0, 0, 2)], "7", false);
    let peers = m.get_peers();
    assert_eq!(peers.len(), 1);
    assert_eq!(peers[0].keep_alive, 7);
}

#[test]
fn refused_announcement_keeps_the_peers() {
    let mut m = PeerManager::new();
    announce(&mut m, KEY_A, &[], "7", false);
    let f = fields(KEY_B, None, &[], "no");
    assert!(matches!(m.apply_announcement(f, None, &vec![], true), Err(MessageError::BadKeepalive)));
    assert_eq!(m.get_peers().len(), 1);
}

#[test]
fn routes_are_requested_only_with_auto_route_and_several_ips() {
    let mut m = PeerManager::new();
    let two = [v4(10, 0, 0, 3), v4(192, 168, 1, 0)];
    assert_eq!(announce(&mut m, KEY_A, &two, "1", true), Some(vec![host4(10, 0, 0, 3), host4(192, 168, 1, 0)]));
    assert_eq!(announce(&mut m, KEY_A, &two, "1", false), None);
    assert_eq!(announce(&mut m, KEY_A, &two[..1], "1", true), None);
}

#[test]
fn routes_are_recorded_and_cleared() {
    let mut m = PeerManager::new();
    let a = Ipv4Network { addr: v4(192, 168, 1, 0), prefix_len: 32 };
    let b = Ipv4Network { addr: v4(192, 168, 2, 0), prefix_len: 32 };
    assert_eq!(m.clear_routes(KEY_A), None);
    m.add_route(KEY_A.to_string(), a);
    m.add_route(KEY_B.to_string(), b);
    m.add_route(KEY_A.to_string(), b);
    assert_eq!(m.clear_routes(KEY_A), Some(vec![a, b]));
    assert_eq!(m.clear_routes(KEY_A), None);
    assert_eq!(m.clear_routes(KEY_B), Some(vec![b]));
}

#[test]
fn forgotten_routes_do_not_come_back() {
    let mut m = PeerManager::new();
    let a = Ipv4Network { addr: v4(192, 168, 1, 0), prefix_len: 24 };
    let b = Ipv4Network { addr: v4(192, 168, 2, 0), prefix_len: 24 };
    let c = Ipv4Network { addr: v4(192, 168, 3, 0), prefix_len: 24 };
    m.add_route(KEY_B.to_string(), c);
    m.add_route(KEY_A.to_string(), a);
    assert_eq!(m.clear_routes(KEY_A), Some(vec![a]));
    m.add_route(KEY_A.to_string(), b);
    assert_eq!(m.clear_routes(KEY_A), Some(vec![b]));
    assert_eq!(m.clear_routes(KEY_B), Some(vec![c]));
}

#[test]
fn route_plan_through_an_ipv4_gateway() {
    let mut m = PeerManager::new();
    let old = Ipv4Network { addr: v4(172, 16, 0, 0), prefix_len: 32 };
    m.add_route(KEY_A.to_string(), old);
    let allowed = vec![
        host4(10, 0, 0, 3),
        host4(192, 168, 1, 0),
        IpNetwork::V6 { addr: 1, prefix_len: 32 },
        host4(192, 168, 2, 0),
    ];
    let plan = m.plan_peer_routes(&allowed, KEY_A);
    assert_eq!(plan.stale, vec![old]);
    assert_eq!(plan.gateway, Some(v4(10, 0, 0, 3)));
    assert_eq!(
        plan.destinations,
        vec![
            Ipv4Network { addr: v4(192, 168, 1, 0), prefix_len: 32 },
            Ipv4Network { addr: v4(192, 168, 2, 0), prefix_len: 32 }
        ]
    );
    assert_eq!(plan.if_index, 0);
    assert_eq!(m.clear_routes(KEY_A), None);
}

#[test]
fn route_plan_without_ipv4_gateway_adds_nothing() {
    let mut m = PeerManager::new();
    let allowed = vec![IpNetwork::V6 { addr: 1, prefix_len: 32 }, host4(192, 168, 1, 0)];
    let plan = m.plan_peer_routes(&allowed, KEY_A);
    assert!(plan.stale.is_empty());
    assert_eq!(plan.gateway, None);
    assert!(plan.destinations.is_empty());
}

#[test]
fn route_outcomes_are_recorded() {
    let mut m = PeerManager::new();
    let a = Ipv4Network { addr: v4(192, 168, 1, 0), prefix_len: 32 };
    let b = Ipv4Network { addr: v4(192, 168, 2, 0), prefix_len: 32 };
    let c = Ipv4Network { addr: v4(192, 168, 3, 0), prefix_len: 32 };
    assert_eq!(m.record_route(KEY_A.to_string(), a, route_status(0)), RouteOutcome::Added);
    assert_eq!(m.record_route(KEY_A.to_string(), b, route_status(5010)), RouteOutcome::AlreadyExists);
    assert_eq!(m.record_route(KEY_A.to_string(), c, route_status(87)), RouteOutcome::Failed(87));
    assert_eq!(m.clear_routes(KEY_A), Some(vec![a]));
}

#[test]
fn route_status_codes() {
    assert_eq!(route_status(0), Ok(()));
    assert_eq!(route_status(5010), Err(5010));
    assert_eq!(route_status(u32::MAX), Err(-1));
    assert_eq!(interface_index(), 0);
}

#[test]
fn route_rows() {
    let dest = Ipv4Network { addr: v4(192, 168, 1, 77), prefix_len: 24 };
    let row = add_route_row(dest, v4(10, 0, 0, 3), 0);
    assert_eq!(
        row,
        RouteRow {
            dest: u32::from_le_bytes([192, 168, 1, 0]),
            mask: u32::from_le_bytes([255, 255, 255, 0]),
            next_hop: u32::from_le_bytes([10, 0, 0, 3]),
            if_index: 0,
            metric: 30,
            route_type: 4,
            protocol: 3,
        }
    );
    let del = delete_route_row(Ipv4Network { addr: v4(10, 1, 2, 3), prefix_len: 32 }, v4(10, 1, 2, 3));
    assert_eq!(del.dest, u32::from_le_bytes([10, 1, 2, 3]));
    assert_eq!(del.next_hop, u32::from_le_bytes([10, 1, 2, 3]));
    assert_eq!(del.mask, u32::MAX);
    assert_eq!(del.metric, 0);
    let all = add_route_row(Ipv4Network { addr: v4(1, 2, 3, 4), prefix_len: 0 }, 0, 5);
    assert_eq!(all.dest, 0);
    assert_eq!(all.mask, 0);
    assert_eq!(all.if_index, 5);
}

#[test]
fn ipv4_network_construction() {
    let n = Ipv4Network::new(v4(10, 0, 0, 2), 24).unwrap();
    assert_eq!(n.network(), v4(10, 0, 0, 0));
    assert_eq!(n.netmask(), v4(255, 255, 255, 0));
    assert_eq!(Ipv4Network::new(1, 33), None);
}

#[test]
fn reconnect_schedule_backs_off_and_starts_over() {
    let cfg = ReconnectConfig { max_attempts: 2, base_delay_ms: 1000 };
    let s = ReconnectState::new(&cfg);
    assert_eq!(s, ReconnectState { attempt: 0, base_delay: 1000 });
    assert_eq!(s.next_step(&cfg), ReconnectStep::Authorize);
    assert_eq!(s.delay_for_jitter(800), 800);
    assert_eq!(s.delay_for_jitter(1199), 1199);
    let s = s.after_failure();
    assert_eq!(s, ReconnectState { attempt: 1, base_delay: 2000 });
    assert_eq!(s.next_step(&cfg), ReconnectStep::Authorize);
    let s = s.after_failure();
    assert_eq!(s, ReconnectState { attempt: 2, base_delay: 4000 });
    assert_eq!(s.next_step(&cfg), ReconnectStep::StartOver);
    assert_eq!(ReconnectState::new(&cfg).base_delay, 1000);
}

#[test]
fn jittered_delay_stays_in_range() {
    let s = ReconnectState { attempt: 0, base_delay: 1000 };
    for _ in 0..200 {
        let d = s.jittered_delay().unwrap();
        assert!((800..1200).contains(&d), "{}", d);
    }
    let huge = ReconnectState { attempt: 0, base_delay: u64::MAX / 100 };
    assert_eq!(huge.jittered_delay(), None);
}

#[test]
fn connection_retries() {
    let r = ConnectRetry::new();
    assert!(r.can_retry());
    assert_eq!(r.failed_attempts(), 0);
    let w = r.wait_ms();
    assert!((1000..1200).contains(&w));
    let r = r.after_failure();
    let w = r.wait_ms();
    assert!((2000..2200).contains(&w));
    let r = r.after_failure().after_failure();
    assert_eq!(r.failed_attempts(), 3);
    assert!(!r.can_retry());
    let w = r.wait_ms();
    assert!((8000..8200).contains(&w));
}

#[test]
fn authorization_request_headers() {
    let h = authorize_headers(Some([0u8; 32]), Some(51820), &Some("CODE".to_string()));
    let pairs: Vec<(String, String)> = h.into_iter().map(|h| (h.name, h.value)).collect();
    assert_eq!(
        pairs,
        vec![
            ("User-Agent".to_string(), "sitepi/0.0.9".to_string()),
            ("PUBKEY".to_string(), KEY_B.to_string()),
            ("LISTEN-PORT".to_string(), "51820".to_string()),
            ("PROVISION-CODE".to_string(), "CODE".to_string()),
        ]
    );
    let h = authorize_headers(None, None, &None);
    assert_eq!(h.len(), 1);
    assert_eq!(h[0].name, "User-Agent");
    let h = authorize_headers(None, Some(7), &None);
    assert_eq!(h[1].value, "7");
}

#[test]
fn authorization_url_and_status() {
    assert_eq!(authorize_url(&"https://sitepi.cn".to_string()), "https://sitepi.cn/authorize");
    assert_eq!(check_authorize_status(200), Ok(()));
    assert_eq!(check_authorize_status(204), Ok(()));
    assert_eq!(check_authorize_status(403), Err(AuthorizeError::Denied));
    assert_eq!(check_authorize_status(500), Err(AuthorizeError::Rejected(500)));
    assert_eq!(check_authorize_status(301), Err(AuthorizeError::Rejected(301)));
}

#[test]
fn stream_target_and_status() {
    assert!(matches!(connect_target(None, Some("u".to_string())), Err(ConnectError::MissingSession)));
    assert!(matches!(connect_target(None, None), Err(ConnectError::MissingSession)));
    assert!(matches!(connect_target(Some("s".to_string()), None), Err(ConnectError::MissingUrl)));
    let t = connect_target(Some("s".to_string()), Some("u".to_string())).ok().unwrap();
    assert_eq!((t.session.as_str(), t.url.as_str()), ("s", "u"));
    assert_eq!(check_stream_status(200), Ok(()));
    assert_eq!(check_stream_status(502), Err(ConnectError::Refused(502)));
}

#[test]
fn stream_lines() {
    assert_eq!(stream_message("  wg a b c d e \r\n"), Some("wg a b c d e".to_string()));
    assert_eq!(stream_message(" \r\n"), None);
    assert_eq!(stream_message(""), None);
}

#[test]
fn subnet_route_through_the_peer_address() {
    // wg <key> z 1.2.3.4:51820 10.0.0.3,192.168.1.0/24 25, with automatic routing
    let line = format!("wg {} z 1.2.3.4:51820 10.0.0.3,192.168.1.0/24 25", KEY_B);
    let f = match split_message(&line) {
        Message::Peer(f) => f,
        Message::Ignored => panic!("announcement ignored"),
    };
    assert_eq!(f.ip_texts, vec!["10.0.0.3".to_string(), "192.168.1.0/24".to_string()]);
    let subnet = Ipv4Network { addr: v4(192, 168, 1, 0), prefix_len: 24 };
    // The standard library reads the first item as an address and refuses the
    // second; the second is read as a network.
    let parsed = vec![Some(IpAddress::V4(v4(10, 0, 0, 3))), None];
    let mut m = PeerManager::new();
    let change = m
        .apply_announcement(f, Some(Endpoint::V4(v4(1, 2, 3, 4), 51820)), &parsed, true)
        .ok()
        .unwrap();
    let wanted = vec![host4(10, 0, 0, 3), IpNetwork::V4(subnet)];
    assert_eq!(change.peers[0].allowed_ips, wanted);
    let request = change.route_request.unwrap();
    assert_eq!(request, wanted);
    let plan = m.plan_peer_routes(&request, KEY_B);
    assert_eq!(plan.gateway, Some(v4(10, 0, 0, 3)));
    assert_eq!(plan.destinations, vec![subnet]);
    let row = add_route_row(subnet, v4(10, 0, 0, 3), plan.if_index);
    assert_eq!(row.dest, u32::from_le_bytes([192, 168, 1, 0]));
    assert_eq!(row.mask, u32::from_le_bytes([255, 255, 255, 0]));
    assert_eq!(row.next_hop, u32::from_le_bytes([10, 0, 0, 3]));
    assert_eq!(m.record_route(KEY_B.to_string(), subnet, route_status(0)), RouteOutcome::Added);
    assert_eq!(m.clear_routes(KEY_B), Some(vec![subnet]));
}

#[test]
fn network_byte_order() {
    assert_eq!(to_wire_order(v4(192, 168, 1, 0)), u32::from_le_bytes([192, 168, 1, 0]));
    assert_eq!(to_wire_order(0x0102_0304), 0x0403_0201);
    assert_eq!(to_wire_order(0), 0);
}

#[test]
fn allowed_ip_items_are_read_as_networks_first() {
    let f = fields(KEY_A, None, &["10.0.0.3", "192.168.1.7/24", "fd00::/8", "10.0.0.9/33", "x.y"], "x");
    let addresses = vec![Some(IpAddress::V4(v4(10, 0, 0, 3))), None, None, None, None];
    let items = read_allowed_ips(&f, &addresses);
    assert_eq!(
        items,
        vec![
            Some(AllowedIp::Address(IpAddress::V4(v4(10, 0, 0, 3)))),
            Some(AllowedIp::Network(IpNetwork::V4(Ipv4Network { addr: v4(192, 168, 1, 7), prefix_len: 24 }))),
            Some(AllowedIp::Network(IpNetwork::V6 { addr: 0xfd00 << 112, prefix_len: 8 })),
            None,
            None,
        ]
    );
    let p = assemble_peer(&f, None, &items).ok().unwrap();
    assert_eq!(
        p.allowed_ips,
        vec![
            host4(10, 0, 0, 3),
            IpNetwork::V4(Ipv4Network { addr: v4(192, 168, 1, 7), prefix_len: 24 }),
            IpNetwork::V6 { addr: 0xfd00 << 112, prefix_len: 8 },
        ]
    );
}

#[test]
fn key_texts_that_are_not_an_encoding_are_refused() {
    let ep = Some(Endpoint::V4(1, 1));
    // 32 bytes whose last symbol carries stray bits, and a text without padding
    let stray = "AAAAAAAAAAAAAAAAAAAAAAAAAAAAAAAAAAAAAAAAAAB=";
    assert_eq!(build_peer(&fields(stray, Some("1.1.1.1:1"), &[], "1"), ep, &vec![]).err(), Some(MessageError::BadKeyEncoding));
    let unpadded = "AAAAAAAAAAAAAAAAAAAAAAAAAAAAAAAAAAAAAAAAAAA";
    assert_eq!(build_peer(&fields(unpadded, Some("1.1.1.1:1"), &[], "1"), ep, &vec![]).err(), Some(MessageError::BadKeyEncoding));
    assert_eq!(build_peer(&fields("QUJD", Some("1.1.1.1:1"), &[], "1"), ep, &vec![]).err(), Some(MessageError::BadKeyLength));
}
