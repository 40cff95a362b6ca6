use loadpilot::broker::{
    hello, parse_command, subject_matches, Command, Outcome, Session, State,
};

#[test]
fn exact_match() {
    assert!(subject_matches("a.b.c", "a.b.c"));
    assert!(!subject_matches("a.b.c", "a.b.d"));
}

#[test]
fn wildcard_star() {
    assert!(subject_matches("a.*.c", "a.b.c"));
    assert!(!subject_matches("a.*.c", "a.b.d"));
    assert!(!subject_matches("a.*.c", "a.b.c.d"));
}

#[test]
fn wildcard_gt() {
    assert!(subject_matches("a.>", "a.b.c.d"));
    assert!(subject_matches("loadpilot.metrics.>", "loadpilot.metrics.run1.agent0"));
    assert!(!subject_matches("a.>", "b.c"));
}

#[test]
fn rest_wildcard_matches_nothing_left_too() {
    assert!(subject_matches("a.>", "a"));
    assert!(subject_matches(">", "anything.at.all"));
    assert!(!subject_matches("a.*", "a"));
    assert!(!subject_matches("a", "a.b"));
    assert!(subject_matches("", ""));
}

#[test]
fn commands_are_read_in_any_letter_case() {
    assert!(matches!(parse_command("connect {}"), Command::Connect));
    assert!(matches!(parse_command("  PiNg  "), Command::Ping));
    match parse_command("sub foo.* 7") {
        Command::Subscribe { subject, sid } => {
            assert_eq!(subject, "foo.*");
            assert_eq!(sid, "7");
        }
        other => panic!("unexpected {other:?}"),
    }
    match parse_command("SUB foo queue 7") {
        Command::Subscribe { subject, sid } => {
            assert_eq!(subject, "foo");
            assert_eq!(sid, "7");
        }
        other => panic!("unexpected {other:?}"),
    }
    match parse_command("UNSUB 7 10") {
        Command::Unsubscribe { sid } => assert_eq!(sid, "7"),
        other => panic!("unexpected {other:?}"),
    }
    match parse_command("pub foo 12\r") {
        Command::Publish { subject, len } => {
            assert_eq!(subject, "foo");
            assert_eq!(len, 12);
        }
        other => panic!("unexpected {other:?}"),
    }
}

#[test]
fn upper_case_reaches_beyond_ascii() {
    // The long s becomes S in upper case.
    match parse_command("\u{17f}ub foo 1") {
        Command::Subscribe { subject, sid } => {
            assert_eq!(subject, "foo");
            assert_eq!(sid, "1");
        }
        other => panic!("unexpected {other:?}"),
    }
}

#[test]
fn incomplete_commands_are_ignored() {
    for line in ["SUB foo", "UNSUB", "PUB foo", "HELLO", "", "+OK"] {
        assert!(matches!(parse_command(line), Command::Ignored), "{line}");
    }
    match parse_command("PUB foo many") {
        Command::Publish { len, .. } => assert_eq!(len, 0),
        other => panic!("unexpected {other:?}"),
    }
}

#[test]
fn banner_greets_new_clients() {
    let text = String::from_utf8(hello()).unwrap();
    assert!(text.starts_with("INFO {\"server_id\":\"LOADPILOT\""));
    assert!(text.ends_with("\"tls_required\":false}\r\n"));
}

/// What the bytes of a client lead to, without the silent outcomes.
fn send(session: &mut Session, state: &mut State, input: &[u8]) -> Vec<Outcome> {
    session
        .on_bytes(state, input)
        .into_iter()
        .filter(|o| !matches!(o, Outcome::Silent))
        .collect()
}

#[test]
fn messages_reach_matching_subscribers() {
    let mut state = State::new();
    let a = state.alloc_id();
    let b = state.alloc_id();
    assert_eq!((a, b), (1, 2));
    let mut sa = Session::new(a);
    let mut sb = Session::new(b);
    let inner = state.subscribe_internal("loadpilot.>".to_string());
    assert_eq!(inner, 0);
    assert!(send(&mut sa, &mut state, b"SUB loadpilot.metrics.* 9\r\n").is_empty());
    assert!(send(&mut sb, &mut state, b"SUB other 1\r\n").is_empty());
    assert!(send(&mut sb, &mut state, b"PUB loadpilot.metrics.x 5\r\n").is_empty());
    match send(&mut sb, &mut state, b"hello, world\r\n").as_slice() {
        [Outcome::Publish { payload, deliveries }] => {
            assert_eq!(payload, b"hello");
            assert_eq!(deliveries.clients.len(), 1);
            assert_eq!(deliveries.clients[0].client, a);
            assert_eq!(
                deliveries.clients[0].frame,
                b"MSG loadpilot.metrics.x 9 5\r\nhello\r\n"
            );
            assert_eq!(deliveries.internal, vec![0]);
        }
        other => panic!("unexpected {other:?}"),
    }
}

#[test]
fn payload_is_the_announced_bytes() {
    let mut state = State::new();
    let mut subscriber = Session::new(1);
    let mut publisher = Session::new(2);
    send(&mut subscriber, &mut state, b"SUB t 1\r\n");
    match send(&mut publisher, &mut state, b"PUB t 3\r\na\nb\r\nPING\r\n").as_slice() {
        [Outcome::Publish { payload, deliveries }, Outcome::Reply { frame }] => {
            assert_eq!(payload, b"a\nb");
            assert_eq!(deliveries.clients[0].frame, b"MSG t 1 3\r\na\nb\r\n");
            assert_eq!(frame, b"PONG\r\n");
        }
        other => panic!("unexpected {other:?}"),
    }
    match send(&mut publisher, &mut state, b"PUB t 4\r\n\xff\x00\r\n\r\n").as_slice() {
        [Outcome::Publish { payload, .. }] => assert_eq!(payload, b"\xff\x00\r\n"),
        other => panic!("unexpected {other:?}"),
    }
    match send(&mut publisher, &mut state, b"PUB t 0\r\n\r\n").as_slice() {
        [Outcome::Publish { payload, .. }] => assert_eq!(payload, b""),
        other => panic!("unexpected {other:?}"),
    }
}

#[test]
fn input_may_come_in_any_pieces() {
    let input = b"SUB t 1\r\nPUB t 3\r\na\nb\r\nPING\r\nPUB t 2\nxy\n";
    let mut frames = Vec::new();
    for size in [1, 2, 3, 5, 7, input.len()] {
        let mut state = State::new();
        let mut session = Session::new(1);
        let mut got: Vec<Vec<u8>> = Vec::new();
        for piece in input.chunks(size) {
            for outcome in session.on_bytes(&mut state, piece) {
                match outcome {
                    Outcome::Publish { deliveries, .. } => {
                        got.extend(deliveries.clients.into_iter().map(|d| d.frame));
                    }
                    Outcome::Reply { frame } => got.push(frame),
                    Outcome::Silent => {}
                    Outcome::Close => panic!("all lines are text"),
                }
            }
        }
        assert!(session.on_end(&mut state).is_none());
        frames.push(got);
    }
    assert_eq!(
        frames[0],
        vec![
            b"MSG t 1 3\r\na\nb\r\n".to_vec(),
            b"PONG\r\n".to_vec(),
            b"MSG t 1 2\r\nxy\r\n".to_vec(),
        ]
    );
    assert!(frames.iter().all(|f| *f == frames[0]));
}

#[test]
fn line_that_is_no_text_ends_the_connection() {
    let mut state = State::new();
    let mut session = Session::new(1);
    assert!(!session.is_closed());
    let outcomes = session.on_bytes(&mut state, b"SUB a 1\r\n\xff\xfe\r\nPING\r\n");
    assert!(matches!(
        outcomes.as_slice(),
        [Outcome::Silent, Outcome::Close]
    ));
    assert!(session.is_closed());
    assert!(session.on_bytes(&mut state, b"PING\r\n").is_empty());
    assert!(session.on_end(&mut state).is_none());
    assert_eq!(state.publish("a", b"x").clients.len(), 1);
    session.on_close(&mut state);
    assert_eq!(state.publish("a", b"x").clients.len(), 0);
}

#[test]
fn commands_hold_any_text() {
    let mut state = State::new();
    let mut session = Session::new(1);
    send(&mut session, &mut state, "SUB gr\u{f6}\u{df}e 1\r\n".as_bytes());
    assert_eq!(state.client_subs[0].pattern, "gr\u{f6}\u{df}e");
}

#[test]
fn last_line_needs_no_end() {
    let mut state = State::new();
    let mut session = Session::new(1);
    assert!(session.on_bytes(&mut state, b"PING").is_empty());
    match session.on_end(&mut state) {
        Some(Outcome::Reply { frame }) => assert_eq!(frame, b"PONG\r\n"),
        other => panic!("unexpected {other:?}"),
    }
    let mut session = Session::new(2);
    send(&mut session, &mut state, b"PUB a 3\r\nabcd");
    match session.on_end(&mut state) {
        Some(Outcome::Publish { payload, .. }) => assert_eq!(payload, b"abc"),
        other => panic!("unexpected {other:?}"),
    }
    let mut session = Session::new(3);
    send(&mut session, &mut state, b"PUB a 9\r\nabcd");
    match session.on_end(&mut state) {
        Some(Outcome::Publish { payload, .. }) => assert_eq!(payload, b"abcd"),
        other => panic!("unexpected {other:?}"),
    }
    assert!(session.on_end(&mut state).is_none());
}

#[test]
fn pings_are_answered() {
    let mut state = State::new();
    let mut s = Session::new(1);
    match send(&mut s, &mut state, b"PING\r\n").as_slice() {
        [Outcome::Reply { frame }] => assert_eq!(frame, b"PONG\r\n"),
        other => panic!("unexpected {other:?}"),
    }
}

#[test]
fn subscriptions_end() {
    let mut state = State::new();
    let mut s1 = Session::new(1);
    let mut s2 = Session::new(2);
    send(&mut s1, &mut state, b"SUB a 1\r\nSUB a 2\r\n");
    send(&mut s2, &mut state, b"SUB a 1\r\n");
    send(&mut s1, &mut state, b"UNSUB 1\r\n");
    let d = state.publish("a", b"x");
    let clients: Vec<u64> = d.clients.iter().map(|d| d.client).collect();
    assert_eq!(clients, vec![1, 2]);
    s1.on_close(&mut state);
    let d = state.publish("a", b"x");
    let clients: Vec<u64> = d.clients.iter().map(|d| d.client).collect();
    assert_eq!(clients, vec![2]);
}

#[test]
fn payload_may_look_like_a_command() {
    let mut state = State::new();
    let mut s = Session::new(1);
    match send(&mut s, &mut state, b"PUB a 4\r\nPING\r\n").as_slice() {
        [Outcome::Publish { payload, .. }] => assert_eq!(payload, b"PING"),
        other => panic!("unexpected {other:?}"),
    }
}
