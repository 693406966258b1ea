use drover_proxy::config::{Config, ProxyConfig};
use drover_proxy::state::SocketState;
use drover_proxy::tcp_proxy::{
    connect_target_from_captures, convert_http_to_socks5, handle_fake_http_response, make_socks5_connect_request,
    make_socks5_greeting, parse_connect_request, parse_port, ConnectTarget, HandshakeAction, HandshakeEvent,
    HandshakeStage,
};

fn tcp_state() -> SocketState {
    SocketState { is_tcp: true, is_udp: false, first_send_done: true, fake_http_proxy: false }
}

fn config_with_main(main: Option<&str>) -> Config {
    Config { proxy: ProxyConfig { main: main.map(|s| s.to_string()), fallback: None }, rules: Vec::new() }
}

const REQUEST: &[u8] = b"CONNECT gateway.discord.gg:443 HTTP/1.1\r\nHost: gateway.discord.gg:443\r\n\r\n";

#[test]
fn port_parsing() {
    assert_eq!(parse_port(b"443"), Some(443));
    assert_eq!(parse_port(b"0"), Some(0));
    assert_eq!(parse_port(b"00080"), Some(80));
    assert_eq!(parse_port(b"65535"), Some(65535));
    assert_eq!(parse_port(b"65536"), None);
    assert_eq!(parse_port(b"999999"), None);
    assert_eq!(parse_port(b"+80"), Some(80));
    assert_eq!(parse_port(b"+"), None);
    assert_eq!(parse_port(b""), None);
    assert_eq!(parse_port(b"8a"), None);
    assert_eq!(parse_port(b"-1"), None);
    for s in ["1", "22", "443", "8080", "65535", "65536", "+7", "x", "", "\u{0661}"] {
        assert_eq!(parse_port(s.as_bytes()), s.parse::<u16>().ok(), "{:?}", s);
    }
}

#[test]
fn captures_to_target() {
    let caps = Some(vec![Some(b"CONNECT a.b:80".to_vec()), Some(b"a.b".to_vec()), Some(b"80".to_vec())]);
    let t = connect_target_from_captures(caps).unwrap();
    assert_eq!(t.host, b"a.b".to_vec());
    assert_eq!(t.port, 80);
    assert!(connect_target_from_captures(None).is_none());
    assert!(connect_target_from_captures(Some(vec![Some(b"x".to_vec())])).is_none());
    let big = Some(vec![Some(b"x".to_vec()), Some(b"a".to_vec()), Some(b"70000".to_vec())]);
    assert!(connect_target_from_captures(big).is_none());
}

#[test]
fn connect_request_parsing() {
    let t = parse_connect_request(REQUEST).unwrap();
    assert_eq!(t.host, b"gateway.discord.gg".to_vec());
    assert_eq!(t.port, 443);
    let lower = parse_connect_request(b"connect Example-1.COM:8080 HTTP/1.1").unwrap();
    assert_eq!(lower.host, b"Example-1.COM".to_vec());
    assert_eq!(lower.port, 8080);
    assert!(parse_connect_request(b"CONNECT host:99999").is_none());
    assert!(parse_connect_request(b"CONNECT host_x:80").is_none());
    assert!(parse_connect_request(b"GET / HTTP/1.1").is_none());
    assert!(parse_connect_request(b" CONNECT a:1").is_none());
}

#[test]
fn socks5_messages() {
    assert_eq!(make_socks5_greeting(), vec![5, 1, 0]);
    let t = ConnectTarget { host: b"ab.c".to_vec(), port: 0x01bb };
    assert_eq!(make_socks5_connect_request(&t), vec![5, 1, 0, 3, 4, b'a', b'b', b'.', b'c', 0x01, 0xbb]);
    let long = ConnectTarget { host: vec![b'a'; 300], port: 1 };
    let req = make_socks5_connect_request(&long);
    assert_eq!(req.len(), 307);
    assert_eq!(req[4], (300 % 256) as u8);
}

#[test]
fn conversion_conditions() {
    let cfg = config_with_main(Some("socks5://127.0.0.1:1080"));
    assert!(convert_http_to_socks5(&tcp_state(), &cfg, REQUEST).is_some());
    let udp = SocketState { is_tcp: false, is_udp: true, first_send_done: true, fake_http_proxy: false };
    assert!(convert_http_to_socks5(&udp, &cfg, REQUEST).is_none());
    assert!(convert_http_to_socks5(&tcp_state(), &config_with_main(None), REQUEST).is_none());
    assert!(convert_http_to_socks5(&tcp_state(), &config_with_main(Some("http://p:1")), REQUEST).is_none());
    assert!(convert_http_to_socks5(&tcp_state(), &config_with_main(Some("")), REQUEST).is_none());
    assert!(convert_http_to_socks5(&tcp_state(), &cfg, b"connect a:1").is_none());
    assert!(convert_http_to_socks5(&tcp_state(), &cfg, b"CONNECT").is_none());
}

#[test]
fn handshake_success() {
    let cfg = config_with_main(Some("socks5://127.0.0.1:1080"));
    let mut st = tcp_state();
    let mut hs = convert_http_to_socks5(&st, &cfg, b"CONNECT ab.c:443 HTTP/1.1").unwrap();
    assert_eq!(hs.stage, HandshakeStage::Start);
    match hs.step(&mut st, HandshakeEvent::Begin) {
        HandshakeAction::Send(b) => assert_eq!(b, vec![5, 1, 0]),
        other => panic!("{:?}", other),
    }
    assert!(matches!(hs.step(&mut st, HandshakeEvent::Sent(3)), HandshakeAction::WaitReadable(10)));
    assert!(matches!(hs.step(&mut st, HandshakeEvent::Readable(1)), HandshakeAction::Receive(2)));
    let req = match hs.step(&mut st, HandshakeEvent::Received(2, [5, 0])) {
        HandshakeAction::Send(b) => b,
        other => panic!("{:?}", other),
    };
    assert_eq!(req, vec![5, 1, 0, 3, 4, b'a', b'b', b'.', b'c', 0x01, 0xbb]);
    assert!(!st.fake_http_proxy);
    assert!(matches!(hs.step(&mut st, HandshakeEvent::Sent(11)), HandshakeAction::Complete));
    assert!(st.fake_http_proxy);
    assert_eq!(hs.stage, HandshakeStage::Connected);
}

#[test]
fn handshake_failures() {
    let cfg = config_with_main(Some("socks5://h:1"));
    let cases: Vec<Vec<HandshakeEvent>> = vec![
        vec![HandshakeEvent::Begin, HandshakeEvent::Sent(2)],
        vec![HandshakeEvent::Begin, HandshakeEvent::Sent(3), HandshakeEvent::Readable(0)],
        vec![HandshakeEvent::Begin, HandshakeEvent::Sent(3), HandshakeEvent::Readable(-1)],
        vec![HandshakeEvent::Begin, HandshakeEvent::Sent(3), HandshakeEvent::Readable(1), HandshakeEvent::Received(1, [5, 0])],
        vec![HandshakeEvent::Begin, HandshakeEvent::Sent(3), HandshakeEvent::Readable(1), HandshakeEvent::Received(2, [5, 0xff])],
        vec![
            HandshakeEvent::Begin,
            HandshakeEvent::Sent(3),
            HandshakeEvent::Readable(1),
            HandshakeEvent::Received(2, [5, 0]),
            HandshakeEvent::Sent(5),
        ],
        vec![HandshakeEvent::Sent(3)],
    ];
    for events in cases {
        let mut st = tcp_state();
        let mut hs = convert_http_to_socks5(&st, &cfg, b"CONNECT ab.c:443").unwrap();
        let mut last = None;
        for ev in events {
            last = Some(hs.step(&mut st, ev));
        }
        assert!(matches!(last, Some(HandshakeAction::Abort)));
        assert_eq!(hs.stage, HandshakeStage::Failed);
        assert!(!st.fake_http_proxy);
        assert!(matches!(hs.step(&mut st, HandshakeEvent::Begin), HandshakeAction::Abort));
    }
}

#[test]
fn fake_response_given_once() {
    let mut st = SocketState { is_tcp: true, is_udp: false, first_send_done: true, fake_http_proxy: true };
    let reply = [5u8, 0, 0, 1, 127, 0, 0, 1, 0x04, 0x38];
    let out = handle_fake_http_response(&mut st, &reply, 4096, 10).unwrap();
    assert_eq!(out, b"HTTP/1.1 200 Connection Established\r\n\r\n".to_vec());
    assert_eq!(out.len(), 39);
    assert!(!st.fake_http_proxy);
    assert!(handle_fake_http_response(&mut st, &reply, 4096, 10).is_none());
}

#[test]
fn fake_response_conditions() {
    let marked = SocketState { is_tcp: true, is_udp: false, first_send_done: true, fake_http_proxy: true };
    let reply = [5u8, 0, 0, 1, 127, 0, 0, 1, 0x04, 0x38];
    let mut st = marked;
    assert!(handle_fake_http_response(&mut st, &[], 4096, 9).is_none());
    assert!(!st.fake_http_proxy);
    let mut st = marked;
    assert!(handle_fake_http_response(&mut st, &reply, 38, 10).is_none());
    assert!(!st.fake_http_proxy);
    let mut st = marked;
    assert!(handle_fake_http_response(&mut st, &reply, 39, 10).is_some());
    let mut st = marked;
    let refused = [5u8, 1, 0, 1, 0, 0, 0, 0, 0, 0];
    assert!(handle_fake_http_response(&mut st, &refused, 4096, 10).is_none());
    let mut plain = SocketState { fake_http_proxy: false, ..marked };
    assert!(handle_fake_http_response(&mut plain, &reply, 4096, 10).is_none());
}
