use yewchat::client::{
    avatar_url, can_enter_lobby, reaction_emojis, Chat, Incoming, MessageData, MsgTypes,
    ReactionCount, ReactionUpdate,
};

fn message(id: &str, from: &str, text: &str, time: u64) -> MessageData {
    MessageData {
        id: id.to_string(),
        from: from.to_string(),
        message: text.to_string(),
        time,
        reactions: Vec::new(),
    }
}

#[test]
fn create_registers_the_player() {
    let (chat, frame) = Chat::create("ann".to_string());
    assert_eq!(frame, r#"{"messageType":"register","dataArray":null,"data":"ann"}"#);
    assert_eq!(chat.current_user, "ann");
    assert!(chat.users.is_empty() && chat.messages.is_empty());
}

#[test]
fn submit_blank_is_dropped() {
    assert_eq!(Chat::submit_message("   "), None);
    assert_eq!(Chat::submit_message(""), None);
    assert_eq!(Chat::submit_message("\u{a0}\u{2003}"), None);
    assert_eq!(
        Chat::submit_message(" gg "),
        Some(r#"{"messageType":"message","dataArray":null,"data":" gg "}"#.to_string())
    );
    assert_eq!(
        Chat::submit_message("\u{200b}"),
        Some("{\"messageType\":\"message\",\"dataArray\":null,\"data\":\"\u{200b}\"}".to_string())
    );
}

#[test]
fn reaction_request_frame() {
    assert_eq!(
        Chat::reaction_request("7-5", "\u{2728}"),
        "{\"messageType\":\"reaction\",\"dataArray\":null,\"data\":\"{\\\"emoji\\\":\\\"\u{2728}\\\",\\\"messageId\\\":\\\"7-5\\\"}\"}"
    );
}

#[test]
fn users_frame_replaces_players() {
    let (mut chat, _) = Chat::create("ann".to_string());
    assert!(chat.update(Incoming::Users(Some(vec!["ann".to_string(), "bob".to_string()]))));
    assert_eq!(chat.users.len(), 2);
    assert_eq!(chat.users[1].name, "bob");
    assert_eq!(chat.users[1].avatar, "https://api.dicebear.com/7.x/adventurer-neutral/svg?seed=bob");
    assert!(chat.update(Incoming::Users(None)));
    assert!(chat.users.is_empty());
    assert_eq!(chat.players_label(), "0 players");
}

#[test]
fn messages_and_reactions() {
    let (mut chat, _) = Chat::create("ann".to_string());
    assert!(chat.update(Incoming::Message(message("1-2", "bob", "hi", 5))));
    assert!(chat.update(Incoming::Message(message("3-4", "ann", "yo", 6))));
    assert_eq!(chat.messages.len(), 2);
    let upd = |id: &str, e: &str, c: u32| ReactionUpdate {
        message_id: id.to_string(),
        emoji: e.to_string(),
        count: c,
    };
    assert!(chat.update(Incoming::Reaction(upd("1-2", "\u{1f525}", 1))));
    assert!(chat.update(Incoming::Reaction(upd("1-2", "\u{1f525}", 3))));
    assert!(chat.update(Incoming::Reaction(upd("1-2", "\u{2728}", 2))));
    assert_eq!(chat.messages[0].reactions.len(), 2);
    assert_eq!(chat.messages[0].reactions[0].count, 3);
    assert!(!chat.update(Incoming::Reaction(upd("nope", "\u{2728}", 2))));
    assert!(!chat.update(Incoming::Register));
    assert!(chat.messages[1].reactions.is_empty());
}

#[test]
fn message_view_of_others_message() {
    let (mut chat, _) = Chat::create("ann".to_string());
    chat.update(Incoming::Users(Some(vec!["bob".to_string()])));
    let mut m = message("1-2", "bob", "https://x/cat.gif", 1234567);
    m.reactions.push(ReactionCount { emoji: "\u{1f525}".to_string(), count: 4 });
    m.reactions.push(ReactionCount { emoji: "\u{2694}\u{fe0f}".to_string(), count: 1 });
    m.reactions.push(ReactionCount { emoji: "x".to_string(), count: 9 });
    chat.update(Incoming::Message(m));
    let view = chat.message_view(0);
    assert_eq!(view.avatar, chat.users[0].avatar);
    assert!(!view.is_me);
    assert!(view.can_react);
    assert!(view.is_gif);
    assert_eq!(view.time_tag, 34567);
    let badges: Vec<(String, u32)> = view.badges.iter().map(|b| (b.emoji.clone(), b.count)).collect();
    assert_eq!(
        badges,
        vec![("\u{2694}\u{fe0f}".to_string(), 1), ("\u{1f525}".to_string(), 4)]
    );
}

#[test]
fn message_view_of_own_or_unknown_author() {
    let (mut chat, _) = Chat::create("ann".to_string());
    chat.update(Incoming::Message(message("1-2", "ann", "gif", 5)));
    chat.update(Incoming::Message(message("", "zed", "a.GIF", 5)));
    let own = chat.message_view(0);
    assert!(own.is_me && !own.can_react && !own.is_gif);
    assert_eq!(own.avatar, avatar_url("ann"));
    let other = chat.message_view(1);
    assert!(!other.is_me && !other.can_react && !other.is_gif);
    assert!(other.badges.is_empty());
}

#[test]
fn labels_and_names() {
    let (mut chat, _) = Chat::create("ann".to_string());
    chat.update(Incoming::Users(Some(vec!["a".to_string(); 12])));
    assert_eq!(chat.players_label(), "12 players");
    assert_eq!(MsgTypes::Users.name(), "users");
    assert_eq!(MsgTypes::Register.name(), "register");
    assert_eq!(MsgTypes::Message.name(), "message");
    assert_eq!(MsgTypes::Reaction.name(), "reaction");
    assert_eq!(reaction_emojis(), vec!["\u{2694}\u{fe0f}".to_string(), "\u{2728}".to_string(), "\u{1f525}".to_string()]);
    assert!(can_enter_lobby("a"));
    assert!(!can_enter_lobby(""));
}
