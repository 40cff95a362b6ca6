use loadpilot::agent::metrics_subject;
use loadpilot::broker::{subject_matches, Outcome, Session, State};
use loadpilot::nats::{
    build_connect, greeting, name_or_error, parse_url, publish_frame, server_name,
    subscribe_frame, Reader, Received,
};
use loadpilot::wire::{subject_metrics, subject_shard};

#[test]
fn parse_url_bare() {
    let (tls, host, addr) = parse_url("127.0.0.1:4222").unwrap();
    assert!(!tls);
    assert_eq!(host, "127.0.0.1");
    assert_eq!(addr, "127.0.0.1:4222");
}

#[test]
fn parse_url_nats_scheme() {
    let (tls, host, addr) = parse_url("nats://my-nats.example.com:4222").unwrap();
    assert!(!tls);
    assert_eq!(host, "my-nats.example.com");
    assert_eq!(addr, "my-nats.example.com:4222");
}

#[test]
fn parse_url_tls_scheme() {
    let (tls, host, addr) = parse_url("tls://secure-nats.example.com:4222").unwrap();
    assert!(tls);
    assert_eq!(host, "secure-nats.example.com");
    assert_eq!(addr, "secure-nats.example.com:4222");
}

#[test]
fn build_connect_no_auth() {
    let msg = build_connect(false, None);
    assert!(msg.contains("\"tls_required\":false"));
    assert!(!msg.contains("auth_token"));
    assert_eq!(
        msg,
        "CONNECT {\"verbose\":false,\"pedantic\":false,\"tls_required\":false}\r\n"
    );
}

#[test]
fn build_connect_with_token() {
    let msg = build_connect(false, Some("secret123"));
    assert!(msg.contains("\"auth_token\":\"secret123\""));
}

#[test]
fn build_connect_tls_with_token() {
    let msg = build_connect(true, Some("tok"));
    assert!(msg.contains("\"tls_required\":true"));
    assert!(msg.contains("\"auth_token\":\"tok\""));
}

#[test]
fn build_connect_escapes_quotes_in_token() {
    let msg = build_connect(false, Some("tok\"en"));
    assert!(msg.contains("\"auth_token\":\"tok\\\"en\""));
}

#[test]
fn nats_scheme_resolves_same_as_bare() {
    let (tls1, host1, addr1) = parse_url("my-nats.example.com:4222").unwrap();
    let (tls2, host2, addr2) = parse_url("nats://my-nats.example.com:4222").unwrap();
    assert_eq!(tls1, tls2);
    assert_eq!(host1, host2);
    assert_eq!(addr1, addr2);
}

#[test]
fn host_without_port_is_whole() {
    let (_, host, addr) = parse_url("localhost").unwrap();
    assert_eq!(host, "localhost");
    assert_eq!(addr, "localhost");
}

#[test]
fn greeting_ends_with_a_ping() {
    let frame = greeting(false, None);
    assert!(frame.starts_with(b"CONNECT "));
    assert!(frame.ends_with(b"}\r\nPING\r\n"));
}

#[test]
fn frames_have_their_form() {
    assert_eq!(subscribe_frame("a.b", "x"), b"SUB a.b x\r\n");
    assert_eq!(publish_frame("a.b", b"payload"), b"PUB a.b 7\r\npayload\r\n");
    assert_eq!(publish_frame("a.b", b""), b"PUB a.b 0\r\n\r\n");
}

#[test]
fn reader_puts_messages_together() {
    let mut reader = Reader::new();
    assert!(matches!(
        reader.on_bytes(b"INFO {}\r\nmsg a.b 3 5\r\n").as_slice(),
        [Received::Nothing, Received::Nothing]
    ));
    match reader.on_bytes(b"hello, world\r\n").as_slice() {
        [Received::Message { message }] => {
            assert_eq!(message.subject, "a.b");
            assert_eq!(message.payload, b"hello");
        }
        other => panic!("unexpected {other:?}"),
    }
    match reader.on_bytes(b"PING\r\n").as_slice() {
        [Received::Reply { frame }] => assert_eq!(frame, b"PONG\r\n"),
        other => panic!("unexpected {other:?}"),
    }
    assert!(matches!(
        reader.on_bytes(b"MSG a 1\r\nPONG\r\n").as_slice(),
        [Received::Nothing, Received::Nothing]
    ));
}

#[test]
fn reader_takes_the_announced_bytes() {
    let mut reader = Reader::new();
    match reader.on_bytes(b"MSG t 1 4\r\na\nb\xff\r\n").as_slice() {
        [Received::Nothing, Received::Message { message }] => {
            assert_eq!(message.payload, b"a\nb\xff")
        }
        other => panic!("unexpected {other:?}"),
    }
    assert!(reader.on_bytes(b"MSG t 1 3\r\nab").len() == 1);
    match reader.on_end() {
        Some(Received::Message { message }) => assert_eq!(message.payload, b"ab"),
        other => panic!("unexpected {other:?}"),
    }
    assert!(reader.on_end().is_none());
    assert!(matches!(
        reader.on_bytes(b"\xff\n").as_slice(),
        [Received::Close]
    ));
    assert!(reader.is_closed());
    assert!(reader.on_bytes(b"PING\r\n").is_empty());
}

/// What a reader makes of a frame that comes in byte by byte.
fn messages_in(frame: &[u8]) -> Vec<(String, Vec<u8>)> {
    let mut reader = Reader::new();
    let mut got = Vec::new();
    for byte in frame {
        for received in reader.on_bytes(&[*byte]) {
            if let Received::Message { message } = received {
                got.push((message.subject, message.payload));
            }
        }
    }
    got
}

#[test]
fn published_message_arrives_as_it_was() {
    let text = "{\"agent_id\":\"a-1\",\"note\":\"größer\"}";
    for payload in [text.as_bytes(), b"", b"\n", b"a\r\nPING\r\nb", b"\xff\x00\r"] {
        let mut state = State::new();
        let mut subscriber = Session::new(1);
        let mut publisher = Session::new(2);
        subscriber.on_bytes(&mut state, &subscribe_frame("loadpilot.*", "reg"));
        let mut frames = Vec::new();
        for outcome in
            publisher.on_bytes(&mut state, &publish_frame("loadpilot.register", payload))
        {
            if let Outcome::Publish { deliveries, .. } = outcome {
                frames.extend(deliveries.clients);
            }
        }
        assert_eq!(frames.len(), 1);
        assert_eq!(frames[0].client, 1);
        assert_eq!(
            messages_in(&frames[0].frame),
            vec![("loadpilot.register".to_string(), payload.to_vec())]
        );
    }
}

#[test]
fn subjects_reach_whom_they_are_meant_for() {
    assert!(subject_matches(subject_metrics(), &metrics_subject("eu.west.1")));
    assert!(subject_matches(&subject_shard("a"), &subject_shard("a")));
    assert!(!subject_matches(&subject_shard("a"), &subject_shard("b")));
}

#[test]
fn hosts_have_server_names() {
    let name = server_name("nats.example.com").unwrap();
    assert_eq!(name.to_str(), "nats.example.com");
    assert_eq!(server_name("127.0.0.1").unwrap().to_str(), "127.0.0.1");
    assert_eq!(
        server_name("not a host").unwrap_err(),
        "Invalid TLS server name: not a host"
    );
    assert_eq!(name_or_error(None, "x").unwrap_err(), "Invalid TLS server name: x");
}
