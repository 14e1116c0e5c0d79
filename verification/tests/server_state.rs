use yewchat::server::{
    classify_client_message, data_message, now_ms, users_message, ChatMessage, ChatState,
    ClientMessage, ClientRequest, PeerAddr, ReactionPayload, ReactionTally, User,
};

fn v4(ip: u32, port: u16) -> PeerAddr {
    PeerAddr { ipv6: false, ip: ip as u128, port, flowinfo: 0, scope_id: 0 }
}

fn nicks(state: &ChatState) -> Vec<String> {
    state.users.iter().map(|u| u.nick.clone()).collect()
}

fn payload(id: &str, emoji: &str) -> ReactionPayload {
    ReactionPayload { message_id: id.to_string(), emoji: emoji.to_string() }
}

fn room_with_message() -> (ChatState, PeerAddr, PeerAddr, PeerAddr) {
    let ann = v4(1, 5000);
    let bob = v4(2, 5001);
    let cid = v4(3, 5002);
    let mut state = ChatState::new();
    state.register_user(ann, "ann".to_string());
    state.register_user(bob, "bob".to_string());
    state.register_user(cid, "cid".to_string());
    state.post_chat_message(ann, "hello".to_string(), 1700, 1701).unwrap();
    (state, ann, bob, cid)
}

#[test]
fn register_lists_players_in_order() {
    let mut state = ChatState::new();
    let first = state.register_user(v4(1, 1), "ann".to_string());
    assert_eq!(first, r#"{"messageType":"users","dataArray":["ann"],"data":null}"#);
    let second = state.register_user(v4(2, 2), "bob".to_string());
    assert_eq!(second, r#"{"messageType":"users","dataArray":["ann","bob"],"data":null}"#);
    assert_eq!(state.users_frame(), second);
}

#[test]
fn register_takes_over_a_nickname() {
    let mut state = ChatState::new();
    state.register_user(v4(1, 1), "ann".to_string());
    state.register_user(v4(2, 2), "bob".to_string());
    state.register_user(v4(3, 3), "ann".to_string());
    assert_eq!(nicks(&state), vec!["bob".to_string(), "ann".to_string()]);
    assert_eq!(state.users[1].id, v4(3, 3));
}

#[test]
fn register_again_renames_the_connection() {
    let mut state = ChatState::new();
    state.register_user(v4(1, 1), "ann".to_string());
    state.register_user(v4(2, 2), "bob".to_string());
    let frame = state.register_user(v4(1, 1), "anna".to_string());
    assert_eq!(nicks(&state), vec!["bob".to_string(), "anna".to_string()]);
    assert_eq!(frame, r#"{"messageType":"users","dataArray":["bob","anna"],"data":null}"#);
}

#[test]
fn addresses_differ_by_family_and_port() {
    let mut state = ChatState::new();
    state.register_user(v4(1, 1), "ann".to_string());
    let six = PeerAddr { ipv6: true, ip: 1, port: 1, flowinfo: 0, scope_id: 0 };
    state.register_user(six, "bob".to_string());
    state.register_user(v4(1, 2), "cid".to_string());
    assert_eq!(state.users.len(), 3);
}

#[test]
fn remove_user_leaves_the_others() {
    let mut state = ChatState::new();
    state.register_user(v4(1, 1), "ann".to_string());
    state.register_user(v4(2, 2), "bob".to_string());
    state.remove_user(v4(1, 1));
    assert_eq!(nicks(&state), vec!["bob".to_string()]);
    assert_eq!(state.users_frame(), r#"{"messageType":"users","dataArray":["bob"],"data":null}"#);
    state.remove_user(v4(9, 9));
    assert_eq!(state.users.len(), 1);
    state.remove_user(v4(2, 2));
    assert_eq!(state.users_frame(), r#"{"messageType":"users","dataArray":[],"data":null}"#);
}

#[test]
fn unregistered_client_cannot_post() {
    let mut state = ChatState::new();
    assert_eq!(state.post_chat_message(v4(1, 1), "hi".to_string(), 1, 2), None);
    assert!(state.messages.is_empty());
}

#[test]
fn posted_message_frame() {
    let mut state = ChatState::new();
    state.register_user(v4(1, 5), "ann".to_string());
    let frame = state.post_chat_message(v4(1, 5), "hi".to_string(), 7, 8).unwrap();
    assert_eq!(
        frame,
        r#"{"messageType":"message","dataArray":null,"data":"{\"id\":\"7-5\",\"from\":\"ann\",\"message\":\"hi\",\"time\":8,\"reactions\":{},\"reactedBy\":{}}"}"#
    );
    let posted: &ChatMessage = &state.messages[0];
    assert_eq!(posted.id, "7-5");
    assert_eq!(posted.from, "ann");
    assert_eq!(posted.time, 8);
    assert!(posted.reactions.is_empty());
}

#[test]
fn posted_message_escapes_text() {
    let mut state = ChatState::new();
    state.register_user(v4(1, 80), "a\"b".to_string());
    let frame = state
        .post_chat_message(v4(1, 80), "line\nnext".to_string(), 1700000000000, 1700000000001)
        .unwrap();
    let inner = r#"{"id":"1700000000000-80","from":"a\"b","message":"line\nnext","time":1700000000001,"reactions":{},"reactedBy":{}}"#;
    let expected = format!(
        "{{\"messageType\":\"message\",\"dataArray\":null,\"data\":{}}}",
        quote(inner)
    );
    assert_eq!(frame, expected);
}

fn quote(s: &str) -> String {
    let mut out = String::from("\"");
    for c in s.chars() {
        match c {
            '"' => out.push_str("\\\""),
            '\\' => out.push_str("\\\\"),
            '\n' => out.push_str("\\n"),
            _ => out.push(c),
        }
    }
    out.push('"');
    out
}

#[test]
fn broadcast_chat_message_stamps_with_the_clock() {
    let mut state = ChatState::new();
    state.register_user(v4(1, 42), "ann".to_string());
    let before = now_ms();
    let frame = state.broadcast_chat_message(v4(1, 42), "hi".to_string());
    let after = now_ms();
    assert!(frame.is_some());
    let posted = &state.messages[0];
    assert!(before <= posted.time && posted.time <= after);
    assert!(posted.id.ends_with("-42"));
    assert!(state.broadcast_chat_message(v4(2, 1), "hi".to_string()).is_none());
}

#[test]
fn now_ms_is_after_2020() {
    assert!(now_ms() > 1_577_836_800_000);
}

#[test]
fn reaction_is_counted_and_announced() {
    let (mut state, _ann, bob, cid) = room_with_message();
    let frame = state.broadcast_reaction(bob, payload("1700-5000", "\u{1f525}")).unwrap();
    assert_eq!(
        frame,
        "{\"messageType\":\"reaction\",\"dataArray\":null,\"data\":\"{\\\"count\\\":1,\\\"emoji\\\":\\\"\u{1f525}\\\",\\\"messageId\\\":\\\"1700-5000\\\"}\"}"
    );
    let frame = state.broadcast_reaction(cid, payload("1700-5000", "\u{1f525}")).unwrap();
    assert!(frame.contains("\\\"count\\\":2"));
    let tally: &ReactionTally = &state.messages[0].reactions[0];
    assert_eq!(tally.count, 2);
    assert_eq!(tally.reacted_by, vec!["bob".to_string(), "cid".to_string()]);
}

#[test]
fn reaction_on_own_message_is_refused() {
    let (mut state, ann, _bob, _cid) = room_with_message();
    assert_eq!(state.broadcast_reaction(ann, payload("1700-5000", "\u{2728}")), None);
    assert!(state.messages[0].reactions.is_empty());
}

#[test]
fn repeated_reaction_is_refused() {
    let (mut state, _ann, bob, _cid) = room_with_message();
    assert!(state.broadcast_reaction(bob, payload("1700-5000", "\u{2728}")).is_some());
    assert_eq!(state.broadcast_reaction(bob, payload("1700-5000", "\u{2728}")), None);
    assert_eq!(state.messages[0].reactions.len(), 1);
    assert_eq!(state.messages[0].reactions[0].count, 1);
    assert!(state.broadcast_reaction(bob, payload("1700-5000", "\u{1f525}")).is_some());
    assert_eq!(state.messages[0].reactions.len(), 2);
}

#[test]
fn reaction_to_unknown_message_or_from_stranger_is_refused() {
    let (mut state, _ann, bob, _cid) = room_with_message();
    assert_eq!(state.broadcast_reaction(bob, payload("nope", "\u{2728}")), None);
    assert_eq!(state.broadcast_reaction(v4(8, 8), payload("1700-5000", "\u{2728}")), None);
    assert!(state.messages[0].reactions.is_empty());
}

#[test]
fn renamed_author_can_be_reacted_to_by_new_holder_of_name() {
    let (mut state, _ann, bob, _cid) = room_with_message();
    // bob takes the nickname of the author: the message is now "his own"
    state.register_user(bob, "ann".to_string());
    assert_eq!(state.broadcast_reaction(bob, payload("1700-5000", "\u{2728}")), None);
}

#[test]
fn overflow_is_detected() {
    let (mut state, _ann, bob, _cid) = room_with_message();
    assert!(!state.reaction_would_overflow(bob, &payload("1700-5000", "\u{2728}")));
    state.messages[0].reactions.push(ReactionTally {
        emoji: "\u{2728}".to_string(),
        count: u32::MAX,
        reacted_by: vec!["zed".to_string()],
    });
    assert!(state.reaction_would_overflow(bob, &payload("1700-5000", "\u{2728}")));
    assert!(!state.reaction_would_overflow(bob, &payload("1700-5000", "\u{1f525}")));
}

#[test]
fn classify_frames() {
    let msg = |t: &str, d: Option<&str>| ClientMessage {
        message_type: t.to_string(),
        data: d.map(|s| s.to_string()),
    };
    assert!(matches!(classify_client_message(msg("register", Some("ann"))), ClientRequest::Register(n) if n == "ann"));
    assert!(matches!(classify_client_message(msg("register", None)), ClientRequest::Ignored));
    assert!(matches!(classify_client_message(msg("message", Some(" hi "))), ClientRequest::Chat(m) if m == " hi "));
    assert!(matches!(classify_client_message(msg("message", Some(" \t\n\u{3000}"))), ClientRequest::Ignored));
    assert!(matches!(classify_client_message(msg("message", Some(""))), ClientRequest::Ignored));
    assert!(matches!(classify_client_message(msg("reaction", Some("{}"))), ClientRequest::React(d) if d == "{}"));
    assert!(matches!(classify_client_message(msg("users", Some("x"))), ClientRequest::Ignored));
    assert!(matches!(classify_client_message(msg("Register", Some("x"))), ClientRequest::Ignored));
}

#[test]
fn data_and_users_messages() {
    assert_eq!(
        data_message("message", "x\"y".to_string()),
        r#"{"messageType":"message","dataArray":null,"data":"x\"y"}"#
    );
    let users = vec![
        User { id: v4(1, 1), nick: "a".to_string() },
        User { id: v4(2, 2), nick: "b\\c".to_string() },
    ];
    assert_eq!(
        users_message(&users),
        r#"{"messageType":"users","dataArray":["a","b\\c"],"data":null}"#
    );
}
