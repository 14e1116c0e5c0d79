//! The browser side of the chat: the room as the player sees it (players, messages,
//! reaction counts), how it follows the server's frames, the frames the player sends,
//! and what each message shows on screen.

use vstd::prelude::*;
use vstd::string::*;
use crate::frame::{serialize_socket_message, socket_message, texts};
use crate::server::{request_of, RequestKind};
use crate::search::{find_first, lemma_find_first, lemma_find_first_agree, lemma_find_first_spec};
use crate::text::{decimal, ends_with, is_blank, push_decimal, push_quoted, quoted, trims_to_empty};

verus! {

/// What the chat component reacts to: a frame from the server, the send button, or a
/// reaction button on a message.
#[derive(Debug)]
pub enum Msg {
    HandleMsg(String),
    SubmitMessage,
    React { message_id: String, emoji: String },
}

/// The kinds of frame, written in lower case on the wire.
#[derive(Debug, Clone, Copy, PartialEq, Eq, Structural)]
pub enum MsgTypes {
    Users,
    Register,
    Message,
    Reaction,
}

/// The wire name of a frame kind.
pub open spec fn msg_type_name(t: MsgTypes) -> Seq<char> {
    match t {
        MsgTypes::Users => "users"@,
        MsgTypes::Register => "register"@,
        MsgTypes::Message => "message"@,
        MsgTypes::Reaction => "reaction"@,
    }
}

impl MsgTypes {
    /// The wire name of this kind, as `serde` writes it in lower case.
    pub fn name(&self) -> (r: &'static str)
        ensures
            r@ == msg_type_name(*self),
    {
        match self {
            MsgTypes::Users => "users",
            MsgTypes::Register => "register",
            MsgTypes::Message => "message",
            MsgTypes::Reaction => "reaction",
        }
    }
}

/// A player in the side bar: the name and the avatar picture's address.
#[derive(Debug)]
pub struct UserProfile {
    pub name: String,
    pub avatar: String,
}

/// The count shown for one emoji on a message.
#[derive(Debug)]
pub struct ReactionCount {
    pub emoji: String,
    pub count: u32,
}

/// A chat message as the client keeps it.
#[derive(Debug)]
pub struct MessageData {
    pub id: String,
    pub from: String,
    pub message: String,
    pub time: u64,
    pub reactions: Vec<ReactionCount>,
}

/// A new count for one emoji on one message.
#[derive(Debug)]
pub struct ReactionUpdate {
    pub message_id: String,
    pub emoji: String,
    pub count: u32,
}

/// A frame from the server with its payload parsed according to its kind.
#[derive(Debug)]
pub enum Incoming {
    /// The list of players, when the frame carries one.
    Users(Option<Vec<String>>),
    /// A frame of kind `register`, which the client does not act on.
    Register,
    /// A posted message.
    Message(MessageData),
    /// A new reaction count.
    Reaction(ReactionUpdate),
}

/// The room as this player sees it.
#[derive(Debug)]
pub struct Chat {
    pub users: Vec<UserProfile>,
    pub messages: Vec<MessageData>,
    pub current_user: String,
}

/// What one message shows: the avatar next to it, whether it is the player's own,
/// whether the reaction buttons appear, whether the text is shown as a picture, the
/// short time tag, and the reaction counts to display.
#[derive(Debug)]
pub struct MessageView {
    pub avatar: String,
    pub is_me: bool,
    pub can_react: bool,
    pub is_gif: bool,
    pub time_tag: u64,
    pub badges: Vec<ReactionCount>,
}

/// The avatar address of a player with the given name.
pub open spec fn avatar_of(name: Seq<char>) -> Seq<char> {
    "https://api.dicebear.com/7.x/adventurer-neutral/svg?seed="@ + name
}

/// The avatar address of a player with the given name.
pub fn avatar_url(name: &str) -> (r: String)
    ensures
        r@ == avatar_of(name@),
{
    let mut r = String::from_str("https://api.dicebear.com/7.x/adventurer-neutral/svg?seed=");
    r.append(name);
    r
}

/// The message with the given id.
pub open spec fn data_with_id(id: Seq<char>) -> spec_fn(MessageData) -> bool {
    |m: MessageData| m.id@ == id
}

/// The count entry of the given emoji.
pub open spec fn count_for(emoji: Seq<char>) -> spec_fn(ReactionCount) -> bool {
    |c: ReactionCount| c.emoji@ == emoji
}

/// The player with the given name.
pub open spec fn profile_named(name: Seq<char>) -> spec_fn(UserProfile) -> bool {
    |u: UserProfile| u.name@ == name
}

/// The count shown for `emoji`, if the message has one.
pub open spec fn count_of(counts: Seq<ReactionCount>, emoji: Seq<char>) -> Option<u32> {
    match find_first(counts, count_for(emoji)) {
        Some(i) => Some(counts[i].count),
        None => None,
    }
}

/// `new_c` is `old_c` with the count of `emoji` set to `count`, as a map insert: the
/// entry of that emoji is overwritten in place, or a new entry is added at the end.
pub open spec fn count_set(old_c: Seq<ReactionCount>, new_c: Seq<ReactionCount>, emoji: Seq<char>, count: u32) -> bool {
    match find_first(old_c, count_for(emoji)) {
        Some(i) => {
            &&& new_c.len() == old_c.len()
            &&& forall|k: int| 0 <= k < old_c.len() && k != i ==> #[trigger] new_c[k] == old_c[k]
            &&& new_c[i].emoji == old_c[i].emoji
            &&& new_c[i].count == count
        },
        None => {
            &&& new_c.len() == old_c.len() + 1
            &&& new_c.drop_last() == old_c
            &&& new_c.last().emoji@ == emoji
            &&& new_c.last().count == count
        },
    }
}

/// The three emojis a player can react with, in the order they are shown: crossed
/// swords, sparkles, fire.
pub open spec fn reaction_emoji_texts() -> Seq<Seq<char>> {
    seq!["\u{2694}\u{fe0f}"@, "\u{2728}"@, "\u{1f525}"@]
}

/// The three reaction emojis, in display order.
pub fn reaction_emojis() -> (r: Vec<String>)
    ensures
        texts(r@) == reaction_emoji_texts(),
{
    let mut r: Vec<String> = Vec::new();
    r.push(String::from_str("\u{2694}\u{fe0f}"));
    r.push(String::from_str("\u{2728}"));
    r.push(String::from_str("\u{1f525}"));
    proof {
        assert(texts(r@) =~= reaction_emoji_texts());
    }
    r
}

/// The payload of a reaction request: `emoji` and `messageId`, keys in sorted order as
/// a `serde_json` object map keeps them.
pub open spec fn reaction_request_json(message_id: Seq<char>, emoji: Seq<char>) -> Seq<char> {
    "{\"emoji\":"@ + quoted(emoji) + ",\"messageId\":"@ + quoted(message_id) + "}"@
}

/// Whether the lobby button is enabled: the player has typed a name.
pub fn can_enter_lobby(username: &str) -> (r: bool)
    ensures
        r == (username@.len() > 0),
{
    username.unicode_len() > 0
}

impl Chat {
    /// A fresh room for the player `username`, and the frame that registers the player.
    pub fn create(username: String) -> (r: (Chat, String))
        ensures
            r.0.users@.len() == 0,
            r.0.messages@.len() == 0,
            r.0.current_user == username,
            r.1@ == socket_message("register"@, None, Some(username@)),
    {
        let frame = serialize_socket_message(MsgTypes::Register.name(), None, Some(username.as_str()));
        (Chat { users: Vec::new(), messages: Vec::new(), current_user: username }, frame)
    }

    /// The frame that posts `value`, or nothing when the text is blank once trimmed.
    pub fn submit_message(value: &str) -> (r: Option<String>)
        ensures
            match r {
                None => is_blank(value@),
                Some(f) => !is_blank(value@) && f@ == socket_message("message"@, None, Some(value@)),
            },
    {
        if trims_to_empty(value) {
            None
        } else {
            Some(serialize_socket_message(MsgTypes::Message.name(), None, Some(value)))
        }
    }

    /// The frame that asks the server to add `emoji` to the message with the given id.
    pub fn reaction_request(message_id: &str, emoji: &str) -> (r: String)
        ensures
            r@ == socket_message("reaction"@, None, Some(reaction_request_json(message_id@, emoji@))),
    {
        let mut payload = String::from_str("{\"emoji\":");
        push_quoted(&mut payload, emoji);
        payload.append(",\"messageId\":");
        push_quoted(&mut payload, message_id);
        payload.append("}");
        serialize_socket_message(MsgTypes::Reaction.name(), None, Some(payload.as_str()))
    }

    /// Follows a frame from the server; returns whether the screen must be redrawn.
    /// A player list replaces the side bar (no list means an empty one); a message
    /// joins the end of the list; a reaction count is set on the first message with
    /// its id, and is dropped when there is none; a `register` frame is ignored.
    pub fn update(&mut self, incoming: Incoming) -> (r: bool)
        ensures
            final(self).current_user == old(self).current_user,
            match incoming {
                Incoming::Users(names) => {
                    let names = match names {
                        Some(v) => texts(v@),
                        None => Seq::empty(),
                    };
                    &&& r
                    &&& final(self).messages@ == old(self).messages@
                    &&& final(self).users@.len() == names.len()
                    &&& forall|i: int| 0 <= i < names.len() ==> {
                        &&& #[trigger] final(self).users@[i].name@ == names[i]
                        &&& final(self).users@[i].avatar@ == avatar_of(names[i])
                    }
                },
                Incoming::Register => {
                    &&& !r
                    &&& final(self).users@ == old(self).users@
                    &&& final(self).messages@ == old(self).messages@
                },
                Incoming::Message(m) => {
                    &&& r
                    &&& final(self).users@ == old(self).users@
                    &&& final(self).messages@ == old(self).messages@.push(m)
                },
                Incoming::Reaction(u) => {
                    &&& final(self).users@ == old(self).users@
                    &&& match find_first(old(self).messages@, data_with_id(u.message_id@)) {
                        None => !r && final(self).messages@ == old(self).messages@,
                        Some(i) => {
                            let om = old(self).messages@[i];
                            let nm = final(self).messages@[i];
                            &&& r
                            &&& final(self).messages@.len() == old(self).messages@.len()
                            &&& forall|k: int| 0 <= k < old(self).messages@.len() && k != i ==> #[trigger] final(self).messages@[k] == old(self).messages@[k]
                            &&& nm.id == om.id
                            &&& nm.from == om.from
                            &&& nm.message == om.message
                            &&& nm.time == om.time
                            &&& count_set(om.reactions@, nm.reactions@, u.emoji@, u.count)
                            &&& count_of(nm.reactions@, u.emoji@) == Some(u.count)
                            &&& forall|e: Seq<char>| e != u.emoji@ ==> #[trigger] count_of(nm.reactions@, e) == count_of(om.reactions@, e)
                        },
                    }
                },
            },
    {
        match incoming {
            Incoming::Users(names) => {
                let ghost expect: Seq<Seq<char>> = match &names {
                    Some(v) => texts(v@),
                    None => Seq::empty(),
                };
                let names = match names {
                    Some(v) => v,
                    None => Vec::new(),
                };
                assert(texts(names@) =~= expect);
                let mut users: Vec<UserProfile> = Vec::new();
                let n = names.len();
                let mut i: usize = 0;
                while i < n
                    invariant
                        n == names@.len(),
                        i <= n,
                        self.current_user == old(self).current_user,
                        self.messages@ == old(self).messages@,
                        texts(names@) == expect,
                        users@.len() == i,
                        forall|j: int| 0 <= j < i ==> {
                            &&& #[trigger] users@[j].name@ == names@[j]@
                            &&& users@[j].avatar@ == avatar_of(names@[j]@)
                        },
                    decreases n - i,
                {
                    let name = names[i].clone();
                    let avatar = avatar_url(name.as_str());
                    users.push(UserProfile { name, avatar });
                    i = i + 1;
                }
                self.users = users;
                proof {
                    assert forall|j: int| 0 <= j < expect.len() implies #[trigger] self.users@[j].name@ == expect[j] by {
                        assert(expect[j] == names@[j]@);
                    }
                    assert forall|j: int| 0 <= j < expect.len() implies #[trigger] self.users@[j].avatar@ == avatar_of(expect[j]) by {
                        assert(expect[j] == names@[j]@);
                        assert(self.users@[j].name@ == names@[j]@);
                    }
                    assert(self.users@.len() == expect.len());
                    assert(forall|j: int| 0 <= j < expect.len() ==> #[trigger] self.users@[j].avatar@ == avatar_of(expect[j]));
                    assert(self.messages@ == old(self).messages@);
                }
                true
            },
            Incoming::Register => false,
            Incoming::Message(m) => {
                self.messages.push(m);
                true
            },
            Incoming::Reaction(u) => {
                match find_data(&self.messages, &u.message_id) {
                    None => false,
                    Some(i) => {
                        let ghost old_messages = self.messages@;
                        let mut m = self.messages.remove(i);
                        let ghost old_m = m;
                        set_count(&mut m.reactions, u.emoji, u.count);
                        assert(count_set(old_m.reactions@, m.reactions@, u.emoji@, u.count));
                        self.messages.insert(i, m);
                        proof {
                            assert(self.messages@ =~= old_messages.update(i as int, m));
                        }
                        true
                    },
                }
            },
        }
    }

    /// The label over the message list: how many players are online.
    pub fn players_label(&self) -> (r: String)
        ensures
            r@ == decimal(self.users@.len()) + " players"@,
    {
        let mut r = String::new();
        push_decimal(&mut r, self.users.len() as u128);
        r.append(" players");
        r
    }

    /// What message `i` shows. Its avatar is that of the first player with the
    /// author's name, or the one made from the name; it is the player's own when the
    /// author is the current player; reaction buttons appear on others' messages that
    /// have an id; text ending in `.gif` is shown as a picture; the time tag is the
    /// time modulo 100000; the badges are the counts the message has for the three
    /// reaction emojis, in their display order.
    pub fn message_view(&self, i: usize) -> (r: MessageView)
        requires
            i < self.messages@.len(),
        ensures
            ({
                let m = self.messages@[i as int];
                &&& r.avatar@ == match find_first(self.users@, profile_named(m.from@)) {
                    Some(k) => self.users@[k].avatar@,
                    None => avatar_of(m.from@),
                }
                &&& r.is_me == (m.from@ == self.current_user@)
                &&& r.can_react == (!r.is_me && m.id@.len() > 0)
                &&& r.is_gif == (".gif"@.len() <= m.message@.len() && m.message@.subrange(
                    m.message@.len() - ".gif"@.len(),
                    m.message@.len() as int,
                ) == ".gif"@)
                &&& r.time_tag == m.time % 100000
                &&& r.badges@.map_values(|c: ReactionCount| (c.emoji@, c.count))
                    == badges_of(m.reactions@, reaction_emoji_texts())
            }),
            forall|k: int| 0 <= k < r.badges@.len() ==> {
                &&& reaction_emoji_texts().contains(#[trigger] r.badges@[k].emoji@)
                &&& count_of(self.messages@[i as int].reactions@, r.badges@[k].emoji@) == Some(r.badges@[k].count)
            },
            forall|j: int| 0 <= j < 3 && (#[trigger] count_of(self.messages@[i as int].reactions@, reaction_emoji_texts()[j])) is Some ==> exists|k: int|
                0 <= k < r.badges@.len() && #[trigger] r.badges@[k].emoji@ == reaction_emoji_texts()[j] && r.badges@[k].count
                    == count_of(self.messages@[i as int].reactions@, reaction_emoji_texts()[j]).unwrap(),
            forall|k1: int, k2: int| 0 <= k1 < k2 < r.badges@.len() ==> #[trigger] r.badges@[k1].emoji@ != #[trigger] r.badges@[k2].emoji@,
    {
        let m = &self.messages[i];
        let avatar = match find_profile(&self.users, &m.from) {
            Some(k) => self.users[k].avatar.clone(),
            None => avatar_url(m.from.as_str()),
        };
        let is_me = m.from == self.current_user;
        let can_react = !is_me && m.id.unicode_len() > 0;
        let is_gif = ends_with(m.message.as_str(), ".gif");
        let emojis = reaction_emojis();
        assert(texts(emojis@).len() == 3);
        let mut badges: Vec<ReactionCount> = Vec::new();
        let mut e: usize = 0;
        while e < 3
            invariant
                texts(emojis@) == reaction_emoji_texts(),
                emojis@.len() == 3,
                e <= 3,
                badges@.map_values(|c: ReactionCount| (c.emoji@, c.count)) == badges_of(
                    m.reactions@,
                    reaction_emoji_texts().take(e as int),
                ),
            decreases 3 - e,
        {
            let emoji = &emojis[e];
            proof {
                assert(reaction_emoji_texts().take(e + 1).drop_last() =~= reaction_emoji_texts().take(e as int));
                assert(emoji@ == reaction_emoji_texts()[e as int]);
            }
            match get_count(&m.reactions, emoji) {
                Some(c) => {
                    badges.push(ReactionCount { emoji: emoji.clone(), count: c });
                },
                None => {},
            }
            proof {
                assert(badges@.map_values(|c: ReactionCount| (c.emoji@, c.count)) =~= badges_of(
                    m.reactions@,
                    reaction_emoji_texts().take(e + 1),
                ));
            }
            e = e + 1;
        }
        proof {
            assert(reaction_emoji_texts().take(3) =~= reaction_emoji_texts());
            let es = reaction_emoji_texts();
            let bv = badges@.map_values(|c: ReactionCount| (c.emoji@, c.count));
            let pos = lemma_badges_shown(m.reactions@, es);
            let bs = badges_of(m.reactions@, es);
            assert(bs == bv);
            assert(bv.len() == badges@.len());
            assert forall|k: int| 0 <= k < badges@.len() implies {
                &&& es.contains(#[trigger] badges@[k].emoji@)
                &&& count_of(m.reactions@, badges@[k].emoji@) == Some(badges@[k].count)
            } by {
                assert(bv[k] == (badges@[k].emoji@, badges@[k].count));
                assert(bs[k].0 == es[pos[k]]);
                assert(es[pos[k]] == badges@[k].emoji@);
            }
            assert forall|j: int| 0 <= j < 3 && (#[trigger] count_of(m.reactions@, es[j])) is Some implies exists|k: int|
                0 <= k < badges@.len() && #[trigger] badges@[k].emoji@ == es[j] && badges@[k].count == count_of(m.reactions@, es[j]).unwrap() by {
                let k = choose|k: int| 0 <= k < pos.len() && pos[k] == j;
                assert(bv[k] == (badges@[k].emoji@, badges@[k].count));
                assert(bs[k].0 == es[pos[k]]);
            }
            reveal_strlit("\u{2694}\u{fe0f}");
            reveal_strlit("\u{2728}");
            reveal_strlit("\u{1f525}");
            assert(es[0] != es[1] && es[0] != es[2] && es[1] != es[2]) by {
                assert(es[0][0] != es[1][0]);
                assert(es[0][0] != es[2][0]);
                assert(es[1][0] != es[2][0]);
            }
            assert forall|k1: int, k2: int| 0 <= k1 < k2 < badges@.len() implies #[trigger] badges@[k1].emoji@ != #[trigger] badges@[k2].emoji@ by {
                assert(bv[k1] == (badges@[k1].emoji@, badges@[k1].count));
                assert(bv[k2] == (badges@[k2].emoji@, badges@[k2].count));
                assert(pos[k1] < pos[k2]);
                assert(bs[k1].0 == es[pos[k1]]);
                assert(bs[k2].0 == es[pos[k2]]);
                assert(es[pos[k1]] == badges@[k1].emoji@);
                assert(es[pos[k2]] == badges@[k2].emoji@);
            }
        }
        MessageView { avatar, is_me, can_react, is_gif, time_tag: m.time % 100000, badges }
    }
}

/// The badges a message shows for the given emojis: each emoji it has a count for,
/// with that count, in the order of `emojis`.
pub open spec fn badges_of(counts: Seq<ReactionCount>, emojis: Seq<Seq<char>>) -> Seq<(Seq<char>, u32)>
    decreases emojis.len(),
{
    if emojis.len() == 0 {
        seq![]
    } else {
        let before = badges_of(counts, emojis.drop_last());
        match count_of(counts, emojis.last()) {
            Some(c) => before.push((emojis.last(), c)),
            None => before,
        }
    }
}

/// The count shown for `emoji`, if any.
fn get_count(counts: &Vec<ReactionCount>, emoji: &String) -> (r: Option<u32>)
    ensures
        r == count_of(counts@, emoji@),
{
    match find_count(counts, emoji) {
        Some(i) => Some(counts[i].count),
        None => None,
    }
}

/// Finds the first message with the given id.
fn find_data(messages: &Vec<MessageData>, id: &String) -> (r: Option<usize>)
    ensures
        match r {
            Some(i) => i < messages@.len() && find_first(messages@, data_with_id(id@)) == Some(i as int),
            None => find_first(messages@, data_with_id(id@)) is None,
        },
{
    let n = messages.len();
    let mut i: usize = 0;
    while i < n
        invariant
            n == messages@.len(),
            i <= n,
            forall|j: int| 0 <= j < i ==> !(data_with_id(id@))(#[trigger] messages@[j]),
        decreases n - i,
    {
        if messages[i].id == *id {
            proof {
                lemma_find_first(messages@, data_with_id(id@), i as int);
            }
            return Some(i);
        }
        i = i + 1;
    }
    proof {
        lemma_find_first(messages@, data_with_id(id@), i as int);
    }
    None
}

/// Finds the first player with the given name.
fn find_profile(users: &Vec<UserProfile>, name: &String) -> (r: Option<usize>)
    ensures
        match r {
            Some(i) => i < users@.len() && find_first(users@, profile_named(name@)) == Some(i as int),
            None => find_first(users@, profile_named(name@)) is None,
        },
{
    let n = users.len();
    let mut i: usize = 0;
    while i < n
        invariant
            n == users@.len(),
            i <= n,
            forall|j: int| 0 <= j < i ==> !(profile_named(name@))(#[trigger] users@[j]),
        decreases n - i,
    {
        if users[i].name == *name {
            proof {
                lemma_find_first(users@, profile_named(name@), i as int);
            }
            return Some(i);
        }
        i = i + 1;
    }
    proof {
        lemma_find_first(users@, profile_named(name@), i as int);
    }
    None
}

/// Finds the entry of `emoji`.
fn find_count(counts: &Vec<ReactionCount>, emoji: &String) -> (r: Option<usize>)
    ensures
        match r {
            Some(i) => i < counts@.len() && find_first(counts@, count_for(emoji@)) == Some(i as int),
            None => find_first(counts@, count_for(emoji@)) is None,
        },
{
    let n = counts.len();
    let mut i: usize = 0;
    while i < n
        invariant
            n == counts@.len(),
            i <= n,
            forall|j: int| 0 <= j < i ==> !(count_for(emoji@))(#[trigger] counts@[j]),
        decreases n - i,
    {
        if counts[i].emoji == *emoji {
            proof {
                lemma_find_first(counts@, count_for(emoji@), i as int);
            }
            return Some(i);
        }
        i = i + 1;
    }
    proof {
        lemma_find_first(counts@, count_for(emoji@), i as int);
    }
    None
}

/// Sets the count of `emoji`, as `HashMap::insert` does on the emoji-to-count map.
fn set_count(counts: &mut Vec<ReactionCount>, emoji: String, count: u32)
    ensures
        count_set(old(counts)@, final(counts)@, emoji@, count),
        count_of(final(counts)@, emoji@) == Some(count),
        forall|e: Seq<char>| e != emoji@ ==> #[trigger] count_of(final(counts)@, e) == count_of(old(counts)@, e),
{
    let ghost emoji_text = emoji@;
    match find_count(counts, &emoji) {
        Some(i) => {
            let ghost before = counts@;
            let mut c = counts.remove(i);
            c.count = count;
            counts.insert(i, c);
            proof {
                assert(counts@ =~= before.update(i as int, c));
            }
        },
        None => {
            let ghost before = counts@;
            counts.push(ReactionCount { emoji, count });
            proof {
                assert(counts@.drop_last() =~= before);
            }
        },
    }
    proof {
        lemma_count_set_shown(old(counts)@, counts@, emoji_text, count);
        lemma_count_set_others(old(counts)@, counts@, emoji_text, count);
    }
}

/// A reaction count the client sets is the one it then shows for that emoji.
pub proof fn lemma_count_set_shown(old_c: Seq<ReactionCount>, new_c: Seq<ReactionCount>, emoji: Seq<char>, count: u32)
    requires
        count_set(old_c, new_c, emoji, count),
    ensures
        count_of(new_c, emoji) == Some(count),
{
    lemma_find_first_spec(old_c, count_for(emoji));
    match find_first(old_c, count_for(emoji)) {
        Some(i) => {
            assert forall|k: int| 0 <= k < i implies !(count_for(emoji))(#[trigger] new_c[k]) by {
                assert(new_c[k] == old_c[k]);
            }
            lemma_find_first(new_c, count_for(emoji), i);
        },
        None => {
            let n = old_c.len() as int;
            assert forall|k: int| 0 <= k < n implies !(count_for(emoji))(#[trigger] new_c[k]) by {
                assert(new_c.drop_last()[k] == new_c[k]);
            }
            lemma_find_first(new_c, count_for(emoji), n);
        },
    }
}

/// What the send button sends, the server takes as a chat message: text the client
/// does not drop as blank is classified by the server as a message to post, with the
/// same text.
pub proof fn lemma_submitted_text_is_posted(value: Seq<char>)
    requires
        !is_blank(value),
    ensures
        request_of("message"@, Some(value)) == Some((RequestKind::Chat, value)),
{
    reveal_strlit("message");
    reveal_strlit("register");
    assert("message"@ != "register"@) by {
        assert("message"@[0] != "register"@[0]);
    }
}

/// Setting the count of one emoji leaves the count shown for every other emoji as it was.
pub proof fn lemma_count_set_others(
    old_c: Seq<ReactionCount>,
    new_c: Seq<ReactionCount>,
    emoji: Seq<char>,
    count: u32,
)
    requires
        count_set(old_c, new_c, emoji, count),
    ensures
        forall|e: Seq<char>| e != emoji ==> #[trigger] count_of(new_c, e) == count_of(old_c, e),
{
    lemma_find_first_spec(old_c, count_for(emoji));
    assert forall|e: Seq<char>| e != emoji implies #[trigger] count_of(new_c, e) == count_of(old_c, e) by {
        match find_first(old_c, count_for(emoji)) {
            Some(i) => {
                assert forall|k: int| 0 <= k < old_c.len() implies (count_for(e))(#[trigger] old_c[k])
                    == (count_for(e))(new_c[k]) by {
                    if k != i {
                        assert(new_c[k] == old_c[k]);
                    }
                }
                lemma_find_first_agree(old_c, new_c, count_for(e));
                lemma_find_first_spec(old_c, count_for(e));
                match find_first(old_c, count_for(e)) {
                    Some(j) => {
                        assert(j != i);
                        assert(new_c[j] == old_c[j]);
                    },
                    None => {},
                }
            },
            None => {
                let n = old_c.len() as int;
                assert forall|k: int| 0 <= k < n implies #[trigger] new_c[k] == old_c[k] by {
                    assert(new_c.drop_last()[k] == new_c[k]);
                }
                lemma_find_first_spec(old_c, count_for(e));
                match find_first(old_c, count_for(e)) {
                    Some(j) => {
                        assert forall|k: int| 0 <= k < j implies !(count_for(e))(#[trigger] new_c[k]) by {
                            assert(new_c[k] == old_c[k]);
                        }
                        assert(new_c[j] == old_c[j]);
                        lemma_find_first(new_c, count_for(e), j);
                    },
                    None => {
                        assert forall|k: int| 0 <= k < new_c.len() implies !(count_for(e))(#[trigger] new_c[k]) by {
                            if k < n {
                                assert(new_c[k] == old_c[k]);
                            }
                        }
                        lemma_find_first(new_c, count_for(e), new_c.len() as int);
                    },
                }
            },
        }
    }
}

/// The badges shown for a list of emojis are exactly the emojis the message has a count
/// for, each with that count, in the order of the list. The returned positions say where
/// in `emojis` each badge comes from: they increase, every emoji with a count has its
/// badge, and nothing else has one.
pub proof fn lemma_badges_shown(counts: Seq<ReactionCount>, emojis: Seq<Seq<char>>) -> (pos: Seq<int>)
    ensures
        pos.len() == badges_of(counts, emojis).len(),
        forall|k: int| 0 <= k < pos.len() ==> 0 <= #[trigger] pos[k] < emojis.len(),
        forall|k1: int, k2: int| 0 <= k1 < k2 < pos.len() ==> #[trigger] pos[k1] < #[trigger] pos[k2],
        forall|k: int| 0 <= k < pos.len() ==> {
            &&& #[trigger] badges_of(counts, emojis)[k].0 == emojis[pos[k]]
            &&& count_of(counts, emojis[pos[k]]) == Some(badges_of(counts, emojis)[k].1)
        },
        forall|j: int| 0 <= j < emojis.len() && (#[trigger] count_of(counts, emojis[j])) is Some ==> pos.contains(j),
    decreases emojis.len(),
{
    if emojis.len() == 0 {
        Seq::empty()
    } else {
        let rest = emojis.drop_last();
        let p = lemma_badges_shown(counts, rest);
        let before = badges_of(counts, rest);
        let last = emojis.len() - 1;
        assert forall|k: int| 0 <= k < p.len() implies #[trigger] before[k].0 == emojis[p[k]] by {
            assert(rest[p[k]] == emojis[p[k]]);
        }
        match count_of(counts, emojis.last()) {
            Some(c) => {
                let q = p.push(last);
                assert(badges_of(counts, emojis) == before.push((emojis.last(), c)));
                assert forall|k: int| 0 <= k < q.len() implies {
                    &&& #[trigger] badges_of(counts, emojis)[k].0 == emojis[q[k]]
                    &&& count_of(counts, emojis[q[k]]) == Some(badges_of(counts, emojis)[k].1)
                } by {
                    if k < p.len() {
                        assert(rest[p[k]] == emojis[p[k]]);
                    }
                }
                assert forall|j: int| 0 <= j < emojis.len() && (#[trigger] count_of(counts, emojis[j])) is Some implies q.contains(j) by {
                    if j < last {
                        assert(rest[j] == emojis[j]);
                        assert(p.contains(j));
                        let k = choose|k: int| 0 <= k < p.len() && p[k] == j;
                        assert(q[k] == j);
                    } else {
                        assert(q[p.len() as int] == j);
                    }
                }
                q
            },
            None => {
                assert(badges_of(counts, emojis) == before);
                assert forall|k: int| 0 <= k < p.len() implies {
                    &&& #[trigger] badges_of(counts, emojis)[k].0 == emojis[p[k]]
                    &&& count_of(counts, emojis[p[k]]) == Some(badges_of(counts, emojis)[k].1)
                } by {
                    assert(rest[p[k]] == emojis[p[k]]);
                }
                assert forall|j: int| 0 <= j < emojis.len() && (#[trigger] count_of(counts, emojis[j])) is Some implies p.contains(j) by {
                    if j < last {
                        assert(rest[j] == emojis[j]);
                    }
                }
                p
            },
        }
    }
}

} // verus!
