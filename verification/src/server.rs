//! The chat server's room: who is connected under which nickname, the messages
//! posted so far and the reactions on them, and the frames it broadcasts to every
//! client after each change.

use vstd::prelude::*;
use vstd::string::*;
use crate::frame::{serialize_socket_message, socket_message, texts};
use crate::search::{find_first, lemma_find_first, lemma_find_first_agree, lemma_find_first_spec};
use crate::text::{decimal, lemma_decimal_injective, push_decimal, push_quoted, quoted, is_blank, trims_to_empty};

verus! {

/// The socket address of a connected client, as plain values: the IP family, the
/// address (an IPv4 address in the low 32 bits), the port, and for IPv6 the flow
/// information and scope id. Two addresses are equal exactly when
/// `std::net::SocketAddr` considers them equal.
#[derive(Clone, Copy, Debug, PartialEq, Eq, Structural)]
pub struct PeerAddr {
    pub ipv6: bool,
    pub ip: u128,
    pub port: u16,
    pub flowinfo: u32,
    pub scope_id: u32,
}

/// A registered player: the connection it speaks from and its nickname.
#[derive(Debug)]
pub struct User {
    pub id: PeerAddr,
    pub nick: String,
}

/// The reactions of one kind on a message: the emoji, how many players gave it,
/// and their nicknames in the order they reacted.
#[derive(Debug)]
pub struct ReactionTally {
    pub emoji: String,
    pub count: u32,
    pub reacted_by: Vec<String>,
}

/// A posted chat message.
#[derive(Debug)]
pub struct ChatMessage {
    pub id: String,
    pub from: String,
    pub message: String,
    pub time: u128,
    pub reactions: Vec<ReactionTally>,
}

/// A parsed client frame: its message type and optional string payload.
#[derive(Debug)]
pub struct ClientMessage {
    pub message_type: String,
    pub data: Option<String>,
}

/// A parsed reaction request: the id of the message and the emoji.
#[derive(Debug)]
pub struct ReactionPayload {
    pub message_id: String,
    pub emoji: String,
}

/// What a client frame asks of the room.
#[derive(Debug)]
pub enum ClientRequest {
    /// Register (or re-register) the sender under a nickname.
    Register(String),
    /// Post a chat message.
    Chat(String),
    /// React to a message; the payload is a JSON `{"messageId":..,"emoji":..}` still to parse.
    React(String),
    /// Nothing to do.
    Ignored,
}

/// The kind of a `ClientRequest`, for stating what a frame asks for.
#[derive(Debug, Clone, Copy, PartialEq, Eq, Structural)]
pub enum RequestKind {
    Register,
    Chat,
    React,
}

/// The state of the room.
#[derive(Debug)]
pub struct ChatState {
    pub users: Vec<User>,
    pub messages: Vec<ChatMessage>,
}

/// The user registered from `addr`.
pub open spec fn user_at(addr: PeerAddr) -> spec_fn(User) -> bool {
    |u: User| u.id == addr
}

/// The users that stay when someone registers `nick` from `addr`: every user with
/// another address and another nickname.
pub open spec fn kept_on_register(addr: PeerAddr, nick: Seq<char>) -> spec_fn(User) -> bool {
    |u: User| u.id != addr && u.nick@ != nick
}

/// The users that stay when `addr` disconnects.
pub open spec fn kept_on_leave(addr: PeerAddr) -> spec_fn(User) -> bool {
    |u: User| u.id != addr
}

/// The nicknames of `users`, in order.
pub open spec fn nicks(users: Seq<User>) -> Seq<Seq<char>> {
    users.map_values(|u: User| u.nick@)
}

/// The frame that lists the players: `messageType` `users`, the nicknames as `dataArray`.
pub open spec fn users_frame(users: Seq<User>) -> Seq<char> {
    socket_message("users"@, Some(nicks(users)), None)
}

/// A frame of the given type that carries `data`.
pub open spec fn data_frame(message_type: Seq<char>, data: Seq<char>) -> Seq<char> {
    socket_message(message_type, None, Some(data))
}

/// The request a client frame makes. A chat message that is blank once trimmed asks
/// for nothing, as do frames of other types and frames without data.
pub open spec fn request_of(message_type: Seq<char>, data: Option<Seq<char>>) -> Option<(RequestKind, Seq<char>)> {
    match data {
        None => None,
        Some(d) => if message_type == "register"@ {
            Some((RequestKind::Register, d))
        } else if message_type == "message"@ {
            if is_blank(d) { None } else { Some((RequestKind::Chat, d)) }
        } else if message_type == "reaction"@ {
            Some((RequestKind::React, d))
        } else {
            None
        },
    }
}

/// How a `ClientRequest` reads as a kind and a payload.
pub open spec fn request_view(r: ClientRequest) -> Option<(RequestKind, Seq<char>)> {
    match r {
        ClientRequest::Register(n) => Some((RequestKind::Register, n@)),
        ClientRequest::Chat(m) => Some((RequestKind::Chat, m@)),
        ClientRequest::React(d) => Some((RequestKind::React, d@)),
        ClientRequest::Ignored => None,
    }
}

/// Decides what a client frame asks for: `register` with a nickname, `message` with
/// text that is not blank, `reaction` with a payload; anything else is ignored.
pub fn classify_client_message(msg: ClientMessage) -> (r: ClientRequest)
    ensures
        request_view(r) == request_of(
            msg.message_type@,
            match msg.data {
                Some(d) => Some(d@),
                None => None,
            },
        ),
{
    let register = String::from_str("register");
    let message = String::from_str("message");
    let reaction = String::from_str("reaction");
    match msg.data {
        None => ClientRequest::Ignored,
        Some(d) => {
            if msg.message_type == register {
                ClientRequest::Register(d)
            } else if msg.message_type == message {
                if trims_to_empty(d.as_str()) {
                    ClientRequest::Ignored
                } else {
                    ClientRequest::Chat(d)
                }
            } else if msg.message_type == reaction {
                ClientRequest::React(d)
            } else {
                ClientRequest::Ignored
            }
        },
    }
}

/// The current time in milliseconds since the Unix epoch, or 0 if the clock reads
/// earlier than the epoch.
///
/// Trusted: reads `std::time::SystemTime::now()`; nothing is promised of the value.
#[verifier::external_body]
pub fn now_ms() -> u128 {
    std::time::SystemTime::now().duration_since(std::time::UNIX_EPOCH).unwrap_or_default().as_millis()
}

/// Reads `clock` once; the reading is one the clock can give.
fn read_clock<F: Fn() -> u128>(clock: F) -> (r: u128)
    requires
        call_requires(clock, ()),
    ensures
        call_ensures(clock, (), r),
{
    clock()
}

/// A frame of type `message_type` whose `data` is the given text.
pub fn data_message(message_type: &str, data: String) -> (r: String)
    ensures
        r@ == data_frame(message_type@, data@),
{
    serialize_socket_message(message_type, None, Some(data.as_str()))
}

/// The frame that lists the nicknames of `users` in order.
pub fn users_message(users: &Vec<User>) -> (r: String)
    ensures
        r@ == users_frame(users@),
{
    let mut names: Vec<String> = Vec::new();
    let n = users.len();
    let mut i: usize = 0;
    while i < n
        invariant
            n == users@.len(),
            i <= n,
            names@.len() == i,
            forall|j: int| 0 <= j < i ==> #[trigger] names@[j]@ == users@[j].nick@,
        decreases n - i,
    {
        names.push(users[i].nick.clone());
        i = i + 1;
    }
    let r = serialize_socket_message("users", Some(&names), None);
    proof {
        assert(names@.map_values(|s: String| s@) =~= nicks(users@));
    }
    r
}

/// Copies, in order, the users that stay: with a nickname, those that `kept_on_register`
/// keeps; without one, those that `kept_on_leave` keeps.
fn retain_users(users: &Vec<User>, addr: PeerAddr, nick: Option<&String>) -> (r: Vec<User>)
    ensures
        r@ == users@.filter(
            match nick {
                Some(n) => kept_on_register(addr, n@),
                None => kept_on_leave(addr),
            },
        ),
{
    let ghost p = match nick {
        Some(n) => kept_on_register(addr, n@),
        None => kept_on_leave(addr),
    };
    let mut out: Vec<User> = Vec::new();
    let n = users.len();
    let mut i: usize = 0;
    while i < n
        invariant
            n == users@.len(),
            i <= n,
            p == (match nick {
                Some(n) => kept_on_register(addr, n@),
                None => kept_on_leave(addr),
            }),
            out@ == users@.take(i as int).filter(p),
        decreases n - i,
    {
        let u = &users[i];
        let keep = match nick {
            Some(nk) => u.id != addr && u.nick != *nk,
            None => u.id != addr,
        };
        proof {
            assert(users@.take(i + 1).drop_last() =~= users@.take(i as int));
            reveal_with_fuel(Seq::filter, 1);
        }
        if keep {
            out.push(User { id: u.id, nick: u.nick.clone() });
        }
        i = i + 1;
    }
    assert(users@.take(n as int) =~= users@);
    out
}

/// The message with the given id.
pub open spec fn message_with_id(id: Seq<char>) -> spec_fn(ChatMessage) -> bool {
    |m: ChatMessage| m.id@ == id
}

/// The tally of the given emoji.
pub open spec fn tally_for(emoji: Seq<char>) -> spec_fn(ReactionTally) -> bool {
    |t: ReactionTally| t.emoji@ == emoji
}

/// The id of a message posted at `id_ms` by the client on `port`: `<ms>-<port>`.
pub open spec fn message_id(id_ms: u128, port: u16) -> Seq<char> {
    decimal(id_ms as nat) + "-"@ + decimal(port as nat)
}

/// The JSON of a freshly posted message: its fields in declaration order, with empty
/// reaction maps.
pub open spec fn chat_message_json(id: Seq<char>, from: Seq<char>, text: Seq<char>, time: u128) -> Seq<char> {
    "{\"id\":"@ + quoted(id) + ",\"from\":"@ + quoted(from) + ",\"message\":"@ + quoted(text)
        + ",\"time\":"@ + decimal(time as nat) + ",\"reactions\":{},\"reactedBy\":{}}"@
}

/// The JSON that announces a reaction count: `count`, `emoji`, `messageId`, keys in
/// sorted order as a `serde_json` object map keeps them.
pub open spec fn reaction_json(message_id: Seq<char>, emoji: Seq<char>, count: u32) -> Seq<char> {
    "{\"count\":"@ + decimal(count as nat) + ",\"emoji\":"@ + quoted(emoji) + ",\"messageId\":"@
        + quoted(message_id) + "}"@
}

/// How the tallies of a message change when `nick` gives `emoji`: the existing tally of
/// that emoji counts one more and lists `nick` last, or a new tally with just `nick`
/// is added at the end.
pub open spec fn tally_added(old_t: Seq<ReactionTally>, new_t: Seq<ReactionTally>, emoji: Seq<char>, nick: String) -> bool {
    match find_first(old_t, tally_for(emoji)) {
        Some(t) => {
            &&& new_t.len() == old_t.len()
            &&& forall|k: int| 0 <= k < old_t.len() && k != t ==> #[trigger] new_t[k] == old_t[k]
            &&& new_t[t].emoji == old_t[t].emoji
            &&& new_t[t].count == old_t[t].count + 1
            &&& new_t[t].reacted_by@ == old_t[t].reacted_by@.push(nick)
        },
        None => {
            &&& new_t.len() == old_t.len() + 1
            &&& new_t.drop_last() == old_t
            &&& new_t.last().emoji@ == emoji
            &&& new_t.last().count == 1
            &&& new_t.last().reacted_by@ == seq![nick]
        },
    }
}

/// No two users share an address or a nickname.
pub open spec fn users_distinct(users: Seq<User>) -> bool {
    forall|i: int, j: int|
        0 <= i < j < users.len() ==> #[trigger] users[i].id != #[trigger] users[j].id && users[i].nick@
            != users[j].nick@
}

/// The tallies of a message by `from` are consistent: one tally per emoji, each count
/// is the number of players listed, no player is listed twice, and the author is never
/// listed.
pub open spec fn tallies_wf(from: Seq<char>, tallies: Seq<ReactionTally>) -> bool {
    &&& forall|i: int, j: int|
        0 <= i < j < tallies.len() ==> #[trigger] tallies[i].emoji@ != #[trigger] tallies[j].emoji@
    &&& forall|i: int| 0 <= i < tallies.len() ==> #[trigger] tallies[i].count == tallies[i].reacted_by@.len()
    &&& forall|i: int| 0 <= i < tallies.len() ==> texts(#[trigger] tallies[i].reacted_by@).no_duplicates()
    &&& forall|i: int| 0 <= i < tallies.len() ==> !texts(#[trigger] tallies[i].reacted_by@).contains(from)
}

impl ChatState {
    /// The invariant of the room: users are unique by address and by nickname, and
    /// every message's reactions are consistent.
    pub open spec fn wf(self) -> bool {
        &&& users_distinct(self.users@)
        &&& forall|m: int| 0 <= m < self.messages@.len() ==> tallies_wf(#[trigger] self.messages@[m].from@, self.messages@[m].reactions@)
    }

    /// The index of the user registered from `addr`.
    pub open spec fn sender_index(self, addr: PeerAddr) -> Option<int> {
        find_first(self.users@, user_at(addr))
    }

    /// The index of the message with the given id.
    pub open spec fn message_index(self, message_id: Seq<char>) -> Option<int> {
        find_first(self.messages@, message_with_id(message_id))
    }

    /// A reaction the room accepts: the sender is registered, the message exists, it is
    /// not the sender's own message, and the sender has not given this emoji to it yet.
    pub open spec fn reaction_accepted(self, addr: PeerAddr, message_id: Seq<char>, emoji: Seq<char>) -> bool {
        match (self.sender_index(addr), self.message_index(message_id)) {
            (Some(u), Some(m)) => {
                let nick = self.users@[u].nick@;
                let msg = self.messages@[m];
                &&& msg.from@ != nick
                &&& match find_first(msg.reactions@, tally_for(emoji)) {
                    Some(t) => !texts(msg.reactions@[t].reacted_by@).contains(nick),
                    None => true,
                }
            },
            _ => false,
        }
    }

    /// An accepted reaction whose tally already counts `u32::MAX`, so that one more
    /// would overflow the count.
    pub open spec fn reaction_overflows(self, addr: PeerAddr, message_id: Seq<char>, emoji: Seq<char>) -> bool {
        &&& self.reaction_accepted(addr, message_id, emoji)
        &&& match find_first(
            self.messages@[self.message_index(message_id).unwrap()].reactions@,
            tally_for(emoji),
        ) {
            Some(t) => self.messages@[self.message_index(message_id).unwrap()].reactions@[t].count
                == u32::MAX,
            None => false,
        }
    }

    /// `post` is `self` after an accepted reaction: only the reacted message's tallies
    /// change, as `tally_added` says.
    pub open spec fn reaction_applied(self, post: ChatState, addr: PeerAddr, message_id: Seq<char>, emoji: Seq<char>) -> bool {
        let u = self.sender_index(addr).unwrap();
        let m = self.message_index(message_id).unwrap();
        let om = self.messages@[m];
        let nm = post.messages@[m];
        &&& post.users@ == self.users@
        &&& post.messages@.len() == self.messages@.len()
        &&& forall|k: int| 0 <= k < self.messages@.len() && k != m ==> #[trigger] post.messages@[k] == self.messages@[k]
        &&& nm.id == om.id
        &&& nm.from == om.from
        &&& nm.message == om.message
        &&& nm.time == om.time
        &&& tally_added(om.reactions@, nm.reactions@, emoji, self.users@[u].nick)
    }

    /// `post` and `r` are `self` and the frame after `message` was posted from `addr`
    /// with the id time `id_ms` and the timestamp `time_ms`: nothing changes for a client
    /// that has not registered; otherwise the message, signed with the sender's
    /// nickname and without reactions, joins the end of the list, and the frame
    /// announcing it is returned.
    pub open spec fn chat_posted(
        self,
        post: ChatState,
        addr: PeerAddr,
        message: String,
        id_ms: u128,
        time_ms: u128,
        r: Option<String>,
    ) -> bool {
        &&& post.users@ == self.users@
        &&& match self.sender_index(addr) {
            None => r is None && post.messages@ == self.messages@,
            Some(u) => {
                let from = self.users@[u].nick;
                let posted = post.messages@.last();
                &&& post.messages@.len() == self.messages@.len() + 1
                &&& post.messages@.drop_last() == self.messages@
                &&& posted.id@ == message_id(id_ms, addr.port)
                &&& posted.from == from
                &&& posted.message == message
                &&& posted.time == time_ms
                &&& posted.reactions@.len() == 0
                &&& r matches Some(frame) && frame@ == data_frame(
                    "message"@,
                    chat_message_json(message_id(id_ms, addr.port), from@, message@, time_ms),
                )
            },
        }
    }

    /// The count the emoji's tally reaches when an accepted reaction is added: one more
    /// than before, or 1 for a new tally.
    pub open spec fn count_after_reaction(self, message_id: Seq<char>, emoji: Seq<char>) -> int {
        let reactions = self.messages@[self.message_index(message_id).unwrap()].reactions@;
        match find_first(reactions, tally_for(emoji)) {
            Some(t) => reactions[t].count + 1,
            None => 1,
        }
    }

    /// An empty room.
    pub fn new() -> (r: ChatState)
        ensures
            r.users@.len() == 0,
            r.messages@.len() == 0,
            r.wf(),
    {
        ChatState { users: Vec::new(), messages: Vec::new() }
    }

    /// The frame that lists the nicknames of the players in the room.
    pub fn users_frame(&self) -> (r: String)
        ensures
            r@ == users_frame(self.users@),
    {
        users_message(&self.users)
    }

    /// Registers `nick` for the client at `addr`: any user at that address and any user
    /// with that nickname leave the list, and the new user joins at its end. Returns the
    /// frame listing the players, for every client.
    pub fn register_user(&mut self, addr: PeerAddr, nick: String) -> (r: String)
        ensures
            final(self).users@ == old(self).users@.filter(kept_on_register(addr, nick@)).push(
                User { id: addr, nick },
            ),
            final(self).messages@ == old(self).messages@,
            r@ == users_frame(final(self).users@),
            final(self).users@.drop_last() == old(self).users@.filter(|u: User| u.id != addr && u.nick@ != nick@),
            forall|u: User| #[trigger] final(self).users@.drop_last().contains(u) <==> (old(self).users@.contains(u)
                && u.id != addr && u.nick@ != nick@),
            final(self).users@.last().id == addr,
            final(self).users@.last().nick == nick,
            old(self).wf() ==> final(self).wf(),
    {
        let mut kept = retain_users(&self.users, addr, Some(&nick));
        proof {
            lemma_register_keeps_others(self.users@, kept@, addr, nick@);
            if self.wf() {
                lemma_filter_users_distinct(self.users@, kept_on_register(addr, nick@));
            }
        }
        let ghost filtered = kept@;
        kept.push(User { id: addr, nick });
        proof {
            assert(kept@.drop_last() =~= filtered);
            if self.wf() {
                assert forall|i: int| 0 <= i < filtered.len() implies #[trigger] filtered[i].id != addr
                    && filtered[i].nick@ != kept@.last().nick@ by {
                    self.users@.lemma_filter_pred(kept_on_register(addr, kept@.last().nick@), i);
                }
                assert(users_distinct(kept@));
            }
        }
        self.users = kept;
        users_message(&self.users)
    }

    /// Removes the user at `addr`, when its connection closes.
    pub fn remove_user(&mut self, addr: PeerAddr)
        ensures
            final(self).users@ == old(self).users@.filter(kept_on_leave(addr)),
            final(self).users@ == old(self).users@.filter(|u: User| u.id != addr),
            forall|u: User| #[trigger] final(self).users@.contains(u) <==> (old(self).users@.contains(u) && u.id != addr),
            final(self).messages@ == old(self).messages@,
            old(self).wf() ==> final(self).wf(),
    {
        let kept = retain_users(&self.users, addr, None);
        proof {
            if self.wf() {
                lemma_filter_users_distinct(self.users@, kept_on_leave(addr));
            }
            lemma_leave_keeps_others(self.users@, kept@, addr);
        }
        self.users = kept;
    }

    /// Finds the user registered from `addr`.
    fn find_sender(&self, addr: PeerAddr) -> (r: Option<usize>)
        ensures
            match r {
                Some(i) => i < self.users@.len() && self.sender_index(addr) == Some(i as int),
                None => self.sender_index(addr) is None,
            },
    {
        let n = self.users.len();
        let mut i: usize = 0;
        while i < n
            invariant
                n == self.users@.len(),
                i <= n,
                forall|j: int| 0 <= j < i ==> !(user_at(addr))(#[trigger] self.users@[j]),
            decreases n - i,
        {
            if self.users[i].id == addr {
                proof {
                    lemma_find_first(self.users@, user_at(addr), i as int);
                }
                return Some(i);
            }
            i = i + 1;
        }
        proof {
            lemma_find_first(self.users@, user_at(addr), i as int);
        }
        None
    }

    /// Finds the message with the given id.
    fn find_message(&self, message_id: &String) -> (r: Option<usize>)
        ensures
            match r {
                Some(i) => i < self.messages@.len() && self.message_index(message_id@) == Some(i as int),
                None => self.message_index(message_id@) is None,
            },
    {
        let n = self.messages.len();
        let mut i: usize = 0;
        while i < n
            invariant
                n == self.messages@.len(),
                i <= n,
                forall|j: int| 0 <= j < i ==> !(message_with_id(message_id@))(#[trigger] self.messages@[j]),
            decreases n - i,
        {
            if self.messages[i].id == *message_id {
                proof {
                    lemma_find_first(self.messages@, message_with_id(message_id@), i as int);
                }
                return Some(i);
            }
            i = i + 1;
        }
        proof {
            lemma_find_first(self.messages@, message_with_id(message_id@), i as int);
        }
        None
    }

    /// Posts `message` from the client at `addr`, with the id time `id_ms` and the
    /// timestamp `time_ms`. A client that has not registered posts nothing. Otherwise
    /// the message, signed with the sender's nickname and without reactions, joins the
    /// end of the list, and the frame announcing it is returned for every client.
    pub fn post_chat_message(&mut self, addr: PeerAddr, message: String, id_ms: u128, time_ms: u128) -> (r: Option<String>)
        ensures
            old(self).chat_posted(*final(self), addr, message, id_ms, time_ms, r),
            old(self).wf() ==> final(self).wf(),
    {
        let u = match self.find_sender(addr) {
            None => return None,
            Some(u) => u,
        };
        let from = self.users[u].nick.clone();
        let mut id = String::new();
        push_decimal(&mut id, id_ms);
        id.append("-");
        push_decimal(&mut id, addr.port as u128);
        let mut json = String::new();
        json.append("{\"id\":");
        push_quoted(&mut json, id.as_str());
        json.append(",\"from\":");
        push_quoted(&mut json, from.as_str());
        json.append(",\"message\":");
        push_quoted(&mut json, message.as_str());
        json.append(",\"time\":");
        push_decimal(&mut json, time_ms);
        json.append(",\"reactions\":{},\"reactedBy\":{}}");
        let ghost id_text = id@;
        let ghost from_text = from@;
        let ghost message_text = message@;
        let ghost old_messages = self.messages@;
        let posted = ChatMessage { id, from, message, time: time_ms, reactions: Vec::new() };
        self.messages.push(posted);
        proof {
            assert(self.messages@.drop_last() =~= old_messages);
            assert(id_text =~= message_id(id_ms, addr.port));
            assert(json@ =~= chat_message_json(id_text, from_text, message_text, time_ms));
        }
        Some(data_message("message", json))
    }

    /// Posts `message` from the client at `addr`, stamped with the clock: one reading
    /// for the message id, a second one for its time.
    pub fn broadcast_chat_message(&mut self, addr: PeerAddr, message: String) -> (r: Option<String>)
        ensures
            exists|id_ms: u128, time_ms: u128|
                #[trigger] old(self).chat_posted(*final(self), addr, message, id_ms, time_ms, r),
            exists|id_ms: u128, time_ms: u128|
                {
                    &&& call_ensures(now_ms, (), id_ms)
                    &&& call_ensures(now_ms, (), time_ms)
                    &&& #[trigger] old(self).chat_posted(*final(self), addr, message, id_ms, time_ms, r)
                },
            old(self).wf() ==> final(self).wf(),
    {
        let id_ms = read_clock(now_ms);
        let time_ms = read_clock(now_ms);
        self.post_chat_message(addr, message, id_ms, time_ms)
    }

    /// Locates an accepted reaction: the sender, the message, and the tally of the emoji
    /// if the message has one.
    fn locate_reaction(&self, addr: PeerAddr, message_id: &String, emoji: &String) -> (r: Option<(usize, usize, Option<usize>)>)
        ensures
            r is Some <==> self.reaction_accepted(addr, message_id@, emoji@),
            r matches Some((u, m, t)) ==> {
                &&& u < self.users@.len()
                &&& self.sender_index(addr) == Some(u as int)
                &&& m < self.messages@.len()
                &&& self.message_index(message_id@) == Some(m as int)
                &&& match t {
                    Some(t) => t < self.messages@[m as int].reactions@.len() && find_first(
                        self.messages@[m as int].reactions@,
                        tally_for(emoji@),
                    ) == Some(t as int),
                    None => find_first(self.messages@[m as int].reactions@, tally_for(emoji@)) is None,
                }
            },
    {
        let u = match self.find_sender(addr) {
            None => return None,
            Some(u) => u,
        };
        let m = match self.find_message(message_id) {
            None => return None,
            Some(m) => m,
        };
        let nick = &self.users[u].nick;
        let msg = &self.messages[m];
        if msg.from == *nick {
            return None;
        }
        let t = find_tally(&msg.reactions, emoji);
        match t {
            Some(ti) => {
                if contains_text(&msg.reactions[ti].reacted_by, nick) {
                    return None;
                }
            },
            None => {},
        }
        Some((u, m, t))
    }

    /// Whether adding this reaction would push its count past `u32::MAX`.
    pub fn reaction_would_overflow(&self, addr: PeerAddr, payload: &ReactionPayload) -> (r: bool)
        ensures
            r == self.reaction_overflows(addr, payload.message_id@, payload.emoji@),
    {
        match self.locate_reaction(addr, &payload.message_id, &payload.emoji) {
            None => false,
            Some((_u, m, t)) => match t {
                Some(t) => self.messages[m].reactions[t].count == u32::MAX,
                None => false,
            },
        }
    }

    /// Adds the reaction `payload` from the client at `addr`. The room refuses it, and
    /// nothing changes, when the sender has not registered, no message has the id, the
    /// message is the sender's own, or the sender already gave this emoji to it.
    /// Otherwise the emoji's tally on that message counts one more and lists the sender,
    /// and the frame announcing the new count is returned for every client.
    pub fn broadcast_reaction(&mut self, addr: PeerAddr, payload: ReactionPayload) -> (r: Option<String>)
        requires
            !old(self).reaction_overflows(addr, payload.message_id@, payload.emoji@),
        ensures
            if old(self).reaction_accepted(addr, payload.message_id@, payload.emoji@) {
                &&& old(self).reaction_applied(*final(self), addr, payload.message_id@, payload.emoji@)
                &&& r matches Some(frame) && frame@ == data_frame(
                    "reaction"@,
                    reaction_json(
                        payload.message_id@,
                        payload.emoji@,
                        old(self).count_after_reaction(payload.message_id@, payload.emoji@) as u32,
                    ),
                )
            } else {
                &&& r is None
                &&& final(self).users@ == old(self).users@
                &&& final(self).messages@ == old(self).messages@
            },
            old(self).reaction_accepted(addr, payload.message_id@, payload.emoji@) ==> ({
                let nt = final(self).messages@[old(self).message_index(payload.message_id@).unwrap()].reactions@;
                &&& find_first(nt, tally_for(payload.emoji@)) is Some
                &&& r matches Some(frame) && frame@ == data_frame(
                    "reaction"@,
                    reaction_json(
                        payload.message_id@,
                        payload.emoji@,
                        nt[find_first(nt, tally_for(payload.emoji@)).unwrap()].count,
                    ),
                )
            }),
            old(self).wf() ==> final(self).wf(),
    {
        let (u, m, t) = match self.locate_reaction(addr, &payload.message_id, &payload.emoji) {
            None => return None,
            Some(found) => found,
        };
        let ghost old_messages = self.messages@;
        proof {
            lemma_find_first_spec(self.messages@, message_with_id(payload.message_id@));
        }
        let nick = self.users[u].nick.clone();
        let mut msg = self.messages.remove(m);
        let ghost old_msg = msg;
        let count: u32;
        match t {
            Some(ti) => {
                let mut tally = msg.reactions.remove(ti);
                tally.reacted_by.push(nick);
                tally.count = tally.count + 1;
                count = tally.count;
                msg.reactions.insert(ti, tally);
                proof {
                    assert(msg.reactions@ =~= old_msg.reactions@.update(ti as int, tally));
                }
            },
            None => {
                let mut reacted_by: Vec<String> = Vec::new();
                reacted_by.push(nick);
                let tally = ReactionTally { emoji: payload.emoji.clone(), count: 1, reacted_by };
                msg.reactions.push(tally);
                count = 1;
                proof {
                    assert(msg.reactions@.drop_last() =~= old_msg.reactions@);
                }
            },
        }
        let mut json = String::new();
        json.append("{\"count\":");
        push_decimal(&mut json, count as u128);
        json.append(",\"emoji\":");
        push_quoted(&mut json, payload.emoji.as_str());
        json.append(",\"messageId\":");
        push_quoted(&mut json, msg.id.as_str());
        json.append("}");
        let ghost msg_id = msg.id@;
        self.messages.insert(m, msg);
        proof {
            assert(self.messages@ =~= old_messages.update(m as int, msg));
            assert(json@ =~= reaction_json(msg_id, payload.emoji@, count));
            lemma_tally_after_add(old_msg.reactions@, msg.reactions@, payload.emoji@, old(self).users@[u as int].nick);
            if old(self).wf() {
                lemma_tally_added_wf(
                    old_msg.from@,
                    old_msg.reactions@,
                    msg.reactions@,
                    payload.emoji@,
                    old(self).users@[u as int].nick,
                );
                assert forall|k: int| 0 <= k < self.messages@.len() implies tallies_wf(
                    #[trigger] self.messages@[k].from@,
                    self.messages@[k].reactions@,
                ) by {
                    if k != m {
                        assert(self.messages@[k] == old_messages[k]);
                    }
                }
            }
        }
        Some(data_message("reaction", json))
    }
}

/// Finds the tally of `emoji`.
fn find_tally(tallies: &Vec<ReactionTally>, emoji: &String) -> (r: Option<usize>)
    ensures
        match r {
            Some(i) => i < tallies@.len() && find_first(tallies@, tally_for(emoji@)) == Some(i as int),
            None => find_first(tallies@, tally_for(emoji@)) is None,
        },
{
    let n = tallies.len();
    let mut i: usize = 0;
    while i < n
        invariant
            n == tallies@.len(),
            i <= n,
            forall|j: int| 0 <= j < i ==> !(tally_for(emoji@))(#[trigger] tallies@[j]),
        decreases n - i,
    {
        if tallies[i].emoji == *emoji {
            proof {
                lemma_find_first(tallies@, tally_for(emoji@), i as int);
            }
            return Some(i);
        }
        i = i + 1;
    }
    proof {
        lemma_find_first(tallies@, tally_for(emoji@), i as int);
    }
    None
}

/// Whether `names` holds `name`.
fn contains_text(names: &Vec<String>, name: &String) -> (r: bool)
    ensures
        r == texts(names@).contains(name@),
{
    let n = names.len();
    let mut i: usize = 0;
    while i < n
        invariant
            n == names@.len(),
            i <= n,
            forall|j: int| 0 <= j < i ==> #[trigger] names@[j]@ != name@,
        decreases n - i,
    {
        if names[i] == *name {
            proof {
                assert(texts(names@)[i as int] == name@);
            }
            return true;
        }
        i = i + 1;
    }
    proof {
        if texts(names@).contains(name@) {
            let k = choose|k: int| 0 <= k < texts(names@).len() && texts(names@)[k] == name@;
            assert(names@[k]@ == name@);
        }
    }
    false
}

/// Keeping some of the users keeps them unique, and keeps only users that were there.
proof fn lemma_filter_users_distinct(users: Seq<User>, p: spec_fn(User) -> bool)
    requires
        users_distinct(users),
    ensures
        users_distinct(users.filter(p)),
        forall|x: User| #[trigger] users.filter(p).contains(x) ==> users.contains(x),
    decreases users.len(),
{
    reveal(Seq::filter);
    if users.len() > 0 {
        let rest = users.drop_last();
        let last = users.last();
        assert(users_distinct(rest));
        lemma_filter_users_distinct(rest, p);
        let f = rest.filter(p);
        assert forall|x: User| #[trigger] users.filter(p).contains(x) implies users.contains(x) by {
            if f.contains(x) {
                let k = choose|k: int| 0 <= k < rest.len() && rest[k] == x;
                assert(users[k] == x);
            } else {
                assert(users[users.len() - 1] == x);
            }
        }
        if p(last) {
            assert forall|i: int| 0 <= i < f.len() implies #[trigger] f[i].id != last.id && f[i].nick@
                != last.nick@ by {
                assert(f.contains(f[i]));
                let k = choose|k: int| 0 <= k < rest.len() && rest[k] == f[i];
                assert(users[k] == f[i]);
            }
            assert(users.filter(p) == f.push(last));
        }
    }
}

/// Adding an accepted reaction keeps a message's tallies consistent.
proof fn lemma_tally_added_wf(
    from: Seq<char>,
    old_t: Seq<ReactionTally>,
    new_t: Seq<ReactionTally>,
    emoji: Seq<char>,
    nick: String,
)
    requires
        tallies_wf(from, old_t),
        tally_added(old_t, new_t, emoji, nick),
        nick@ != from,
        match find_first(old_t, tally_for(emoji)) {
            Some(t) => !texts(old_t[t].reacted_by@).contains(nick@),
            None => true,
        },
    ensures
        tallies_wf(from, new_t),
{
    lemma_find_first_spec(old_t, tally_for(emoji));
    match find_first(old_t, tally_for(emoji)) {
        Some(t) => {
            let old_names = texts(old_t[t].reacted_by@);
            let new_names = texts(new_t[t].reacted_by@);
            assert(new_names =~= old_names.push(nick@));
            assert forall|i: int, j: int| 0 <= i < j < new_t.len() implies #[trigger] new_t[i].emoji@
                != #[trigger] new_t[j].emoji@ by {
                if i != t {
                    assert(new_t[i] == old_t[i]);
                }
                if j != t {
                    assert(new_t[j] == old_t[j]);
                }
            }
            assert forall|i: int| 0 <= i < new_t.len() implies #[trigger] new_t[i].count == new_t[i].reacted_by@.len() by {
                if i != t {
                    assert(new_t[i] == old_t[i]);
                }
            }
            assert forall|i: int| 0 <= i < new_t.len() implies texts(#[trigger] new_t[i].reacted_by@).no_duplicates() by {
                if i != t {
                    assert(new_t[i] == old_t[i]);
                } else {
                    assert forall|a: int, b: int| 0 <= a < new_names.len() && 0 <= b < new_names.len() && a != b implies new_names[a] != new_names[b] by {
                        if a == old_names.len() {
                            assert(new_names[b] == old_names[b]);
                            assert(old_names.contains(old_names[b]));
                        } else if b == old_names.len() {
                            assert(new_names[a] == old_names[a]);
                            assert(old_names.contains(old_names[a]));
                        }
                    }
                }
            }
            assert forall|i: int| 0 <= i < new_t.len() implies !texts(#[trigger] new_t[i].reacted_by@).contains(from) by {
                if i != t {
                    assert(new_t[i] == old_t[i]);
                } else {
                    if new_names.contains(from) {
                        let k = choose|k: int| 0 <= k < new_names.len() && new_names[k] == from;
                        if k < old_names.len() {
                            assert(old_names[k] == from);
                        }
                    }
                }
            }
        },
        None => {
            let n = old_t.len() as int;
            assert forall|i: int| 0 <= i < n implies #[trigger] new_t[i] == old_t[i] by {
                assert(new_t.drop_last()[i] == new_t[i]);
            }
            let names = texts(new_t[n].reacted_by@);
            assert(names =~= seq![nick@]);
            assert forall|i: int, j: int| 0 <= i < j < new_t.len() implies #[trigger] new_t[i].emoji@
                != #[trigger] new_t[j].emoji@ by {
                if j == n {
                    assert(!(tally_for(emoji))(old_t[i]));
                }
            }
            assert forall|i: int| 0 <= i < new_t.len() implies #[trigger] new_t[i].count == new_t[i].reacted_by@.len() by {}
            assert forall|i: int| 0 <= i < new_t.len() implies texts(#[trigger] new_t[i].reacted_by@).no_duplicates() by {}
            assert forall|i: int| 0 <= i < new_t.len() implies !texts(#[trigger] new_t[i].reacted_by@).contains(from) by {
                if i == n {
                    if names.contains(from) {
                        assert(names[0] == from);
                    }
                }
            }
        },
    }
}

/// A player cannot repeat a reaction: once the room has accepted `emoji` from the
/// client at `addr` on a message, the same reaction from that client is refused.
pub proof fn lemma_reaction_not_repeated(
    pre: ChatState,
    post: ChatState,
    addr: PeerAddr,
    message_id: Seq<char>,
    emoji: Seq<char>,
)
    requires
        pre.reaction_accepted(addr, message_id, emoji),
        pre.reaction_applied(post, addr, message_id, emoji),
    ensures
        !post.reaction_accepted(addr, message_id, emoji),
{
    let u = pre.sender_index(addr).unwrap();
    let m = pre.message_index(message_id).unwrap();
    lemma_find_first_spec(pre.users@, user_at(addr));
    lemma_find_first_spec(pre.messages@, message_with_id(message_id));
    assert(post.sender_index(addr) == Some(u));
    assert forall|k: int| 0 <= k < pre.messages@.len() implies (message_with_id(message_id))(
        #[trigger] pre.messages@[k],
    ) == (message_with_id(message_id))(post.messages@[k]) by {
        if k != m {
            assert(post.messages@[k] == pre.messages@[k]);
        }
    }
    lemma_find_first_agree(pre.messages@, post.messages@, message_with_id(message_id));
    let nick = pre.users@[u].nick;
    let old_t = pre.messages@[m].reactions@;
    let new_t = post.messages@[m].reactions@;
    lemma_find_first_spec(old_t, tally_for(emoji));
    match find_first(old_t, tally_for(emoji)) {
        Some(t) => {
            assert forall|k: int| 0 <= k < old_t.len() implies (tally_for(emoji))(#[trigger] old_t[k])
                == (tally_for(emoji))(new_t[k]) by {
                if k != t {
                    assert(new_t[k] == old_t[k]);
                }
            }
            lemma_find_first_agree(old_t, new_t, tally_for(emoji));
            let names = texts(new_t[t].reacted_by@);
            assert(names[names.len() - 1] == nick@);
        },
        None => {
            let n = old_t.len() as int;
            assert forall|k: int| 0 <= k < n implies !(tally_for(emoji))(#[trigger] new_t[k]) by {
                assert(new_t.drop_last()[k] == new_t[k]);
            }
            lemma_find_first(new_t, tally_for(emoji), n);
            let names = texts(new_t[n].reacted_by@);
            assert(names[0] == nick@);
        },
    }
}

/// After a client registers, its messages and reactions go out under the new
/// nickname: the first user at its address is the one just registered.
pub proof fn lemma_registered_sender(pre: ChatState, post: ChatState, addr: PeerAddr, nick: String)
    requires
        post.users@ == pre.users@.filter(kept_on_register(addr, nick@)).push(User { id: addr, nick }),
    ensures
        post.sender_index(addr) == Some(post.users@.len() - 1),
        post.users@[post.users@.len() - 1].nick == nick,
{
    let f = pre.users@.filter(kept_on_register(addr, nick@));
    assert forall|i: int| 0 <= i < f.len() implies !(user_at(addr))(#[trigger] post.users@[i]) by {
        pre.users@.lemma_filter_pred(kept_on_register(addr, nick@), i);
        assert(post.users@[i] == f[i]);
    }
    lemma_find_first(post.users@, user_at(addr), f.len() as int);
}

/// After a client disconnects, nothing it sends counts until it registers again: no
/// user is left at its address.
pub proof fn lemma_removed_sender(pre: ChatState, post: ChatState, addr: PeerAddr)
    requires
        post.users@ == pre.users@.filter(kept_on_leave(addr)),
    ensures
        post.sender_index(addr) is None,
{
    assert forall|i: int| 0 <= i < post.users@.len() implies !(user_at(addr))(#[trigger] post.users@[i]) by {
        pre.users@.lemma_filter_pred(kept_on_leave(addr), i);
    }
    lemma_find_first(post.users@, user_at(addr), post.users@.len() as int);
}

/// Membership in a filtered sequence: exactly the elements of `s` that satisfy `p`.
proof fn lemma_filter_members<A>(s: Seq<A>, p: spec_fn(A) -> bool)
    ensures
        forall|x: A| #[trigger] s.filter(p).contains(x) <==> (s.contains(x) && p(x)),
{
    assert forall|x: A| #[trigger] s.filter(p).contains(x) <==> (s.contains(x) && p(x)) by {
        if s.filter(p).contains(x) {
            s.lemma_filter_contains_rev(p, x);
            let k = choose|k: int| 0 <= k < s.filter(p).len() && s.filter(p)[k] == x;
            s.lemma_filter_pred(p, k);
        }
        if s.contains(x) && p(x) {
            let k = choose|k: int| 0 <= k < s.len() && s[k] == x;
            s.lemma_filter_contains(p, k);
        }
    }
}

/// When a client disconnects, exactly the users at its address leave: every user whose
/// socket address differs stays, in the same order, and no user at that address remains.
pub proof fn lemma_leave_keeps_others(pre: Seq<User>, post: Seq<User>, addr: PeerAddr)
    requires
        post == pre.filter(kept_on_leave(addr)),
    ensures
        post == pre.filter(|u: User| u.id != addr),
        forall|u: User| #[trigger] post.contains(u) <==> (pre.contains(u) && u.id != addr),
        forall|i: int| 0 <= i < post.len() ==> #[trigger] post[i].id != addr,
{
    let direct = |u: User| u.id != addr;
    assert(kept_on_leave(addr) =~= direct);
    lemma_filter_members(pre, direct);
    assert forall|i: int| 0 <= i < post.len() implies #[trigger] post[i].id != addr by {
        pre.lemma_filter_pred(direct, i);
    }
}

/// When a client registers a nickname, exactly the users at its address or with that
/// nickname leave: every other user stays, in the same order.
pub proof fn lemma_register_keeps_others(pre: Seq<User>, kept: Seq<User>, addr: PeerAddr, nick: Seq<char>)
    requires
        kept == pre.filter(kept_on_register(addr, nick)),
    ensures
        kept == pre.filter(|u: User| u.id != addr && u.nick@ != nick),
        forall|u: User| #[trigger] kept.contains(u) <==> (pre.contains(u) && u.id != addr && u.nick@ != nick),
{
    let direct = |u: User| u.id != addr && u.nick@ != nick;
    assert(kept_on_register(addr, nick) =~= direct);
    lemma_filter_members(pre, direct);
}

/// Messages a client posts at different clock readings get different ids.
pub proof fn lemma_message_ids_differ(a: u128, b: u128, port: u16)
    requires
        a != b,
    ensures
        message_id(a, port) != message_id(b, port),
{
    if message_id(a, port) == message_id(b, port) {
        let tail = "-"@ + decimal(port as nat);
        let ma = message_id(a, port);
        assert(ma =~= decimal(a as nat) + tail);
        assert(message_id(b, port) =~= decimal(b as nat) + tail);
        assert(decimal(a as nat).len() == decimal(b as nat).len());
        assert(decimal(a as nat) =~= ma.subrange(0, decimal(a as nat).len() as int));
        assert(decimal(b as nat) =~= ma.subrange(0, decimal(b as nat).len() as int));
        lemma_decimal_injective(a as nat, b as nat);
    }
}

/// After a reaction is added, the emoji's tally is found on the message; it counts one
/// more than before (1 for an emoji given for the first time) and lists one more
/// player, the reactor, last.
pub proof fn lemma_tally_after_add(
    old_t: Seq<ReactionTally>,
    new_t: Seq<ReactionTally>,
    emoji: Seq<char>,
    nick: String,
)
    requires
        tally_added(old_t, new_t, emoji, nick),
    ensures
        find_first(new_t, tally_for(emoji)) matches Some(t) && {
            &&& new_t[t].emoji@ == emoji
            &&& new_t[t].reacted_by@.last() == nick
            &&& match find_first(old_t, tally_for(emoji)) {
                Some(o) => {
                    &&& t == o
                    &&& new_t[t].count == old_t[o].count + 1
                    &&& new_t[t].reacted_by@.len() == old_t[o].reacted_by@.len() + 1
                },
                None => {
                    &&& new_t[t].count == 1
                    &&& new_t[t].reacted_by@.len() == 1
                },
            }
        },
{
    lemma_find_first_spec(old_t, tally_for(emoji));
    match find_first(old_t, tally_for(emoji)) {
        Some(o) => {
            assert forall|k: int| 0 <= k < old_t.len() implies (tally_for(emoji))(#[trigger] old_t[k])
                == (tally_for(emoji))(new_t[k]) by {
                if k != o {
                    assert(new_t[k] == old_t[k]);
                }
            }
            lemma_find_first_agree(old_t, new_t, tally_for(emoji));
        },
        None => {
            let n = old_t.len() as int;
            assert forall|k: int| 0 <= k < n implies !(tally_for(emoji))(#[trigger] new_t[k]) by {
                assert(new_t.drop_last()[k] == new_t[k]);
            }
            lemma_find_first(new_t, tally_for(emoji), n);
        },
    }
}

/// The count a reaction frame announces is the count of the emoji's tally on the
/// server after the reaction; it is the number of players listed for that emoji,
/// and a first reaction of an emoji is announced as 1.
pub proof fn lemma_announced_count(
    pre: ChatState,
    post: ChatState,
    addr: PeerAddr,
    message_id: Seq<char>,
    emoji: Seq<char>,
)
    requires
        pre.wf(),
        pre.reaction_accepted(addr, message_id, emoji),
        pre.reaction_applied(post, addr, message_id, emoji),
    ensures
        ({
            let m = pre.message_index(message_id).unwrap();
            let nt = post.messages@[m].reactions@;
            &&& find_first(nt, tally_for(emoji)) is Some
            &&& nt[find_first(nt, tally_for(emoji)).unwrap()].count == pre.count_after_reaction(message_id, emoji)
            &&& nt[find_first(nt, tally_for(emoji)).unwrap()].count == nt[find_first(nt, tally_for(emoji)).unwrap()].reacted_by@.len()
            &&& find_first(pre.messages@[m].reactions@, tally_for(emoji)) is None ==> nt[find_first(nt, tally_for(emoji)).unwrap()].count == 1
        }),
{
    let u = pre.sender_index(addr).unwrap();
    let m = pre.message_index(message_id).unwrap();
    lemma_find_first_spec(pre.messages@, message_with_id(message_id));
    let old_t = pre.messages@[m].reactions@;
    let new_t = post.messages@[m].reactions@;
    lemma_tally_after_add(old_t, new_t, emoji, pre.users@[u].nick);
    assert(tallies_wf(pre.messages@[m].from@, old_t));
    match find_first(old_t, tally_for(emoji)) {
        Some(o) => {
            lemma_find_first_spec(old_t, tally_for(emoji));
            assert(old_t[o].count == old_t[o].reacted_by@.len());
        },
        None => {},
    }
}

/// How the server reads the three frame kinds it acts on: `register` with a nickname
/// registers it, `message` with blank text asks for nothing and with other text posts
/// it, `reaction` with a payload asks to react; a frame without data asks for nothing.
pub proof fn lemma_frame_kinds(message_type: Seq<char>, d: Seq<char>)
    ensures
        request_of("register"@, Some(d)) == Some((RequestKind::Register, d)),
        is_blank(d) ==> request_of("message"@, Some(d)) is None,
        !is_blank(d) ==> request_of("message"@, Some(d)) == Some((RequestKind::Chat, d)),
        request_of("reaction"@, Some(d)) == Some((RequestKind::React, d)),
        request_of(message_type, None) is None,
{
    reveal_strlit("register");
    reveal_strlit("message");
    reveal_strlit("reaction");
    assert("message"@ != "register"@) by {
        assert("message"@[0] != "register"@[0]);
    }
    assert("reaction"@ != "register"@) by {
        assert("reaction"@.len() == "register"@.len());
        assert("reaction"@[2] != "register"@[2]);
    }
    assert("reaction"@ != "message"@) by {
        assert("reaction"@.len() != "message"@.len());
    }
}

} // verus!
