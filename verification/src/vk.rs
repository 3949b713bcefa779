//! The VK frontend: its model of the VK API's messages and long-poll
//! session, and the decisions it takes on each incoming message.

use vstd::prelude::*;
use crate::text::{utf8, occurs_at, contains_bytes, contains_slice, decimal, put_decimal, decimal_text, decimal_string};
use crate::chance::chance;

verus! {

/// Peer ids from this value on are group chats; below it, private chats.
pub const GROUP_CHAT_BASE: i32 = 2_000_000_000;

/// The message that a message replies to, as far as the bot reads it.
pub struct ReplyMessage {
    pub from_id: i32,
}

/// An incoming VK message: the chat it came from (`peer_id`), its author
/// (`from_id`: a user when positive, a community when negative), its text,
/// and the message it replies to.
pub struct Message {
    pub peer_id: i32,
    pub from_id: i32,
    pub text: String,
    pub reply_message: Option<ReplyMessage>,
}

impl Message {
    /// Whether the message came from a private chat.
    pub fn is_private(&self) -> (res: bool)
        ensures
            res == (self.peer_id < GROUP_CHAT_BASE),
    {
        self.peer_id < GROUP_CHAT_BASE
    }

    /// Whether a user, rather than a community, wrote the message.
    pub fn from_user(&self) -> (res: bool)
        ensures
            res == (self.from_id > 0),
    {
        self.from_id > 0
    }
}

/// The envelope in which the VK API returns a result.
pub struct VKResponse<T> {
    pub response: T,
}

/// A VK community.
pub struct Group {
    pub id: i32,
}

/// The text by which a message mentions the community `id`: `[club<id>|`.
pub open spec fn club_mention(id: int) -> Seq<u8> {
    seq!['[' as u8, 'c' as u8, 'l' as u8, 'u' as u8, 'b' as u8] + decimal(id) + seq!['|' as u8]
}

/// The bytes of the mention of the community `id`.
pub fn club_mention_bytes(id: i32) -> (out: Vec<u8>)
    ensures
        out@ == club_mention(id as int),
{
    let mut out = Vec::new();
    out.push('[' as u8);
    out.push('c' as u8);
    out.push('l' as u8);
    out.push('u' as u8);
    out.push('b' as u8);
    put_decimal(&mut out, id as i64);
    out.push('|' as u8);
    assert(out@ =~= club_mention(id as int));
    out
}

/// Whether the community `my_id` answers `m` for sure: `m` is private,
/// mentions the community, or replies to one of its messages.
pub open spec fn must_reply(m: Message, my_id: i32) -> bool {
    ||| m.peer_id < GROUP_CHAT_BASE
    ||| contains_bytes(utf8(m.text@), club_mention(my_id as int))
    ||| (m.reply_message matches Some(r) && r.from_id == -my_id)
}

/// The reply rule can be decided for `m`: it only negates `my_id` for a
/// reply that neither a private chat nor a mention has already answered, and
/// the negation of `i32::MIN` does not fit an `i32`.
pub open spec fn reply_rule_defined(m: Message, my_id: i32) -> bool {
    my_id == i32::MIN && m.reply_message is Some ==> m.peer_id < GROUP_CHAT_BASE || contains_bytes(
        utf8(m.text@),
        club_mention(my_id as int),
    )
}

/// Whether the community `my_id` answers `message`: it does when the chat
/// is private, when the text mentions the community, or when the message
/// replies to a message of the community.
pub fn should_reply(message: &Message, my_id: i32) -> (res: bool)
    requires
        reply_rule_defined(*message, my_id),
    ensures
        res == must_reply(*message, my_id),
        message.peer_id < GROUP_CHAT_BASE ==> res,
        forall|i: int| #[trigger]
            occurs_at(utf8(message.text@), club_mention(my_id as int), i) ==> res,
        (message.reply_message matches Some(r) && r.from_id == -my_id) ==> res,
        res ==> message.peer_id < GROUP_CHAT_BASE || (exists|i: int| #[trigger]
            occurs_at(utf8(message.text@), club_mention(my_id as int), i)) || (
        message.reply_message matches Some(r) && r.from_id == -my_id),
{
    proof {
        lemma_vk_reply_rule(*message, my_id);
    }
    if message.is_private() {
        return true;
    }
    let mention = club_mention_bytes(my_id);
    if contains_slice(message.text.as_str().as_bytes(), mention.as_slice()) {
        return true;
    }
    match &message.reply_message {
        Some(r) => r.from_id == -my_id,
        None => false,
    }
}

/// The VK reply rule: a message is answered for sure exactly when its chat
/// is private, when the mention `[club<my_id>|` occurs anywhere in its text,
/// or when it replies to a message of the community (author `-my_id`).
pub proof fn lemma_vk_reply_rule(m: Message, my_id: i32)
    ensures
        m.peer_id < GROUP_CHAT_BASE ==> must_reply(m, my_id),
        forall|i: int| #[trigger]
            occurs_at(utf8(m.text@), club_mention(my_id as int), i) ==> must_reply(m, my_id),
        (m.reply_message matches Some(r) && r.from_id == -my_id) ==> must_reply(m, my_id),
        must_reply(m, my_id) ==> m.peer_id < GROUP_CHAT_BASE || (exists|i: int| #[trigger]
            occurs_at(utf8(m.text@), club_mention(my_id as int), i)) || (
        m.reply_message matches Some(r) && r.from_id == -my_id),
{
}

/// Who wrote a message does not matter to the reply rule: two messages that
/// differ only in their author are answered alike.
pub proof fn lemma_reply_ignores_sender(m1: Message, m2: Message, my_id: i32)
    requires
        m1.peer_id == m2.peer_id,
        m1.text@ == m2.text@,
        m1.reply_message == m2.reply_message,
    ensures
        must_reply(m1, my_id) == must_reply(m2, my_id),
        reply_rule_defined(m1, my_id) == reply_rule_defined(m2, my_id),
{
}

/// The kind of chat a message came from, as the metrics record it.
#[derive(Debug, Clone, Copy, PartialEq, Eq, Structural)]
pub enum Chat {
    Private,
    Group,
}

/// The direction of a message, as the metrics record it.
#[derive(Debug, Clone, Copy, PartialEq, Eq, Structural)]
pub enum MsgType {
    Incoming,
    Outgoing,
}

impl Chat {
    /// The kind of chat that `m` came from.
    pub fn of(m: &Message) -> (c: Chat)
        ensures
            c == (if m.peer_id < GROUP_CHAT_BASE {
                Chat::Private
            } else {
                Chat::Group
            }),
    {
        if m.is_private() {
            Chat::Private
        } else {
            Chat::Group
        }
    }
}

/// A long-poll session with the VK API: the server to ask, the session key,
/// the number of the last event seen, and the community it serves.
pub struct LongPoll {
    server: String,
    key: String,
    ts: String,
    group_id: i32,
}

/// What a long-poll session holds: server, key, last event, community.
pub type LongPollView = (Seq<char>, Seq<char>, Seq<char>, i32);

impl View for LongPoll {
    type V = LongPollView;

    closed spec fn view(&self) -> LongPollView {
        (self.server@, self.key@, self.ts@, self.group_id)
    }
}

/// A name and a value of a form that the bot posts.
pub open spec fn form_view(form: Seq<(String, String)>) -> Seq<(Seq<char>, Seq<char>)> {
    form.map_values(|p: (String, String)| (p.0@, p.1@))
}

/// The form of a long-poll request with session key `key` after event `ts`.
pub open spec fn check_form_view(key: Seq<char>, ts: Seq<char>) -> Seq<(Seq<char>, Seq<char>)> {
    seq![("act"@, "a_check"@), ("key"@, key), ("ts"@, ts), ("wait"@, "25"@)]
}

/// The form that asks a long-poll server, with session key `key`, for the
/// events after event `ts`, waiting up to 25 seconds.
pub fn poll_form(key: &String, ts: &String) -> (form: Vec<(String, String)>)
    ensures
        form_view(form@) == check_form_view(key@, ts@),
{
    let mut form = Vec::new();
    form.push(("act".to_owned(), "a_check".to_owned()));
    form.push(("key".to_owned(), key.clone()));
    form.push(("ts".to_owned(), ts.clone()));
    form.push(("wait".to_owned(), "25".to_owned()));
    assert(form_view(form@) =~= check_form_view(key@, ts@));
    form
}

impl LongPoll {
    /// The session that the VK API handed out for the community `group_id`.
    pub fn from_parts(server: String, key: String, ts: String, group_id: i32) -> (p: Self)
        ensures
            p@ == (server@, key@, ts@, group_id),
    {
        LongPoll { server, key, ts, group_id }
    }

    /// The server to ask for events.
    pub fn server(&self) -> (s: &str)
        ensures
            s@ == self@.0,
    {
        self.server.as_str()
    }

    /// The community this session serves.
    pub fn group_id(&self) -> (id: i32)
        ensures
            id == self@.3,
    {
        self.group_id
    }

    /// The form that asks the server for the events after the last one
    /// seen, waiting up to 25 seconds.
    pub fn check_form(&self) -> (form: Vec<(String, String)>)
        ensures
            form_view(form@) == check_form_view(self@.1, self@.2),
    {
        poll_form(&self.key, &self.ts)
    }

    /// Takes in a batch of events that ends with event `ts`.
    pub fn on_events(&mut self, ts: String)
        ensures
            final(self)@ == (old(self)@.0, old(self)@.1, ts@, old(self)@.3),
    {
        self.ts = ts;
    }

    /// Recovers from the long-poll error `failed`, given the event number
    /// that came with it and a session that was just handed out: error 1
    /// moves on to the given event, error 2 takes the new key, error 3 the
    /// new key and event, and any other error the whole new session.
    pub fn recover(&mut self, failed: u8, ts: Option<String>, fresh: LongPoll)
        requires
            failed == 1 ==> ts is Some,
        ensures
            failed == 1 ==> final(self)@ == (old(self)@.0, old(self)@.1, ts->Some_0@, old(
                self,
            )@.3),
            failed == 2 ==> final(self)@ == (old(self)@.0, fresh@.1, old(self)@.2, old(self)@.3),
            failed == 3 ==> final(self)@ == (old(self)@.0, fresh@.1, fresh@.2, old(self)@.3),
            !(1 <= failed <= 3) ==> final(self)@ == fresh@,
            fresh@.3 == old(self)@.3 ==> final(self)@.3 == old(self)@.3,
    {
        match failed {
            1 => {
                match ts {
                    Some(ts) => self.ts = ts,
                    None => {},
                }
            },
            2 => self.key = fresh.key,
            3 => {
                self.key = fresh.key;
                self.ts = fresh.ts;
            },
            _ => *self = fresh,
        }
    }
}


/// How the bot answers an incoming message.
#[derive(Debug, Clone, Copy, PartialEq, Eq, Structural)]
pub enum ReplyMode {
    /// Answer with the backend's text, or with a notice when the backend
    /// fails.
    Always,
    /// Answer only when the backend gives a text.
    IfAnswered,
    /// Do not answer.
    Never,
}

/// What the bot does with an incoming message: whether the backend learns
/// its text, the kind of chat the metrics record, and how it is answered.
#[derive(Debug, Clone, Copy, PartialEq, Eq, Structural)]
pub struct Plan {
    pub save: bool,
    pub chat: Chat,
    pub reply: ReplyMode,
}

/// The plan for `m` in the community `group_id`, given whether the one in
/// twenty chance of answering an arbitrary message came up.
pub open spec fn planned(m: Message, group_id: i32, roll: bool) -> Plan {
    Plan {
        save: m.from_id > 0,
        chat: if m.peer_id < GROUP_CHAT_BASE {
            Chat::Private
        } else {
            Chat::Group
        },
        reply: if must_reply(m, group_id) {
            ReplyMode::Always
        } else if roll {
            ReplyMode::IfAnswered
        } else {
            ReplyMode::Never
        },
    }
}

/// The plan for `m`, given the outcome `roll` of the chance of answering a
/// message that does not call for an answer.
pub fn plan_with(m: &Message, group_id: i32, roll: bool) -> (p: Plan)
    requires
        reply_rule_defined(*m, group_id),
    ensures
        p == planned(*m, group_id, roll),
{
    let save = m.from_user();
    let chat = Chat::of(m);
    let reply = if should_reply(m, group_id) {
        ReplyMode::Always
    } else if roll {
        ReplyMode::IfAnswered
    } else {
        ReplyMode::Never
    };
    Plan { save, chat, reply }
}

/// The plan for `m`: a message that does not call for an answer is
/// answered, when the backend gives a text, with a chance of one in twenty.
pub fn plan(m: &Message, group_id: i32) -> (p: Plan)
    requires
        reply_rule_defined(*m, group_id),
    ensures
        p == planned(*m, group_id, p.reply == ReplyMode::IfAnswered),
{
    let roll = if should_reply(m, group_id) {
        false
    } else {
        chance(1, 20)
    };
    plan_with(m, group_id, roll)
}

/// The answer sent when the backend cannot be reached.
pub fn backend_unavailable() -> (s: String)
    ensures
        s@ == "Ааеаоаооаа"@,
{
    "Ааеаоаооаа".to_owned()
}

/// The text sent in answer under `mode`, given what the backend answered
/// (`None` when it failed).
pub fn reply_text(mode: ReplyMode, answer: Option<String>) -> (res: Option<String>)
    ensures
        mode == ReplyMode::Never ==> res is None,
        mode == ReplyMode::IfAnswered ==> (res is Some <==> answer is Some),
        mode == ReplyMode::Always ==> res is Some,
        mode != ReplyMode::Never && answer is Some ==> res->Some_0@ == answer->Some_0@,
        mode == ReplyMode::Always && answer is None ==> res->Some_0@ == "Ааеаоаооаа"@,
{
    match mode {
        ReplyMode::Never => None,
        ReplyMode::IfAnswered => answer,
        ReplyMode::Always => match answer {
            Some(a) => Some(a),
            None => Some(backend_unavailable()),
        },
    }
}


/// The address of the VK API method `method`.
pub fn method_url(method: &str) -> (url: String)
    ensures
        url@ == "https://api.vk.com/method/"@ + method@,
{
    "https://api.vk.com/method/".to_owned().concat(method)
}

/// The form of a call of a VK API method, as the community holding `token`,
/// with the arguments `args` after the API version and the token.
pub fn method_form(token: &str, args: Vec<(String, String)>) -> (form: Vec<(String, String)>)
    ensures
        form_view(form@) == seq![("v"@, "5.131"@), ("access_token"@, token@)] + form_view(args@),
{
    let mut form = Vec::new();
    form.push(("v".to_owned(), "5.131".to_owned()));
    form.push(("access_token".to_owned(), token.to_owned()));
    let ghost head = form@;
    let mut rest = args;
    let ghost all = head + rest@;
    while rest.len() > 0
        invariant
            form@ + rest@ == all,
        decreases rest@.len(),
    {
        let p = rest.remove(0);
        form.push(p);
        assert(form@ + rest@ =~= all);
    }
    assert(form@ =~= all);
    assert(form_view(all) =~= form_view(head) + form_view(args@));
    assert(form_view(head) =~= seq![("v"@, "5.131"@), ("access_token"@, token@)]);
    form
}

/// The arguments of the call that asks for a long-poll session of the
/// community `group_id`.
pub fn longpoll_args(group_id: i32) -> (args: Vec<(String, String)>)
    ensures
        form_view(args@) == seq![("group_id"@, decimal_text(group_id as int))],
{
    let mut args = Vec::new();
    args.push(("group_id".to_owned(), decimal_string(group_id as i64)));
    assert(form_view(args@) =~= seq![("group_id"@, decimal_text(group_id as int))]);
    args
}

impl Message {
    /// The form that answers this message with `text`, as the community
    /// holding `token`, under the random id `random_id`.
    pub fn reply_form(&self, token: &str, random_id: i64, text: &str) -> (form: Vec<(String, String)>)
        ensures
            form_view(form@) == seq![
                ("v"@, "5.131"@),
                ("access_token"@, token@),
                ("random_id"@, decimal_text(random_id as int)),
                ("peer_id"@, decimal_text(self.peer_id as int)),
                ("message"@, text@),
            ],
    {
        let mut form = Vec::new();
        form.push(("v".to_owned(), "5.131".to_owned()));
        form.push(("access_token".to_owned(), token.to_owned()));
        form.push(("random_id".to_owned(), decimal_string(random_id)));
        form.push(("peer_id".to_owned(), decimal_string(self.peer_id as i64)));
        form.push(("message".to_owned(), text.to_owned()));
        assert(form_view(form@) =~= seq![
            ("v"@, "5.131"@),
            ("access_token"@, token@),
            ("random_id"@, decimal_text(random_id as int)),
            ("peer_id"@, decimal_text(self.peer_id as int)),
            ("message"@, text@),
        ]);
        form
    }
}

} // verus!
