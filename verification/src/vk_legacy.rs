//! The first VK frontend: a long-poll session that queues the messages it
//! receives, and its rule for answering a message.

use vstd::prelude::*;
use std::collections::VecDeque;
use crate::text::{utf8, occurs_at, contains_bytes, contains_slice, decimal_text, decimal_string};
use crate::vk::{
    Message, GROUP_CHAT_BASE, form_view, check_form_view,
    poll_form,
};
use crate::chance::chance;

verus! {

/// The community whose messages are answered with a chance of one in ten.
pub const FRIEND_ID: i32 = -176_707_471;

/// A long-poll session that queues the messages it has received and not yet
/// handed out.
pub struct LegacyPoll {
    server: String,
    key: String,
    ts: String,
    cache: VecDeque<Message>,
}

/// What a queued session holds: server, key, last event, queued messages.
pub type LegacyPollView = (Seq<char>, Seq<char>, Seq<char>, Seq<Message>);

impl View for LegacyPoll {
    type V = LegacyPollView;

    closed spec fn view(&self) -> LegacyPollView {
        (self.server@, self.key@, self.ts@, self.cache@)
    }
}

impl LegacyPoll {
    /// The session that the VK API handed out, with no messages queued.
    pub fn from_parts(server: String, key: String, ts: String) -> (p: Self)
        ensures
            p@ == (server@, key@, ts@, Seq::<Message>::empty()),
    {
        LegacyPoll { server, key, ts, cache: VecDeque::new() }
    }

    /// The server to ask for events.
    pub fn server(&self) -> (s: &str)
        ensures
            s@ == self@.0,
    {
        self.server.as_str()
    }

    /// The form that asks the server for the events after the last one
    /// seen.
    pub fn check_form(&self) -> (form: Vec<(String, String)>)
        ensures
            form_view(form@) == check_form_view(self@.1, self@.2),
    {
        poll_form(&self.key, &self.ts)
    }

    /// Takes in a batch of messages that ends with event `ts`; they queue up
    /// behind those already queued.
    pub fn on_events(&mut self, ts: String, updates: Vec<Message>)
        ensures
            final(self)@ == (old(self)@.0, old(self)@.1, ts@, old(self)@.3 + updates@),
    {
        self.ts = ts;
        let mut rest = updates;
        let ghost all = self.cache@ + rest@;
        let ghost head = (self@.0, self@.1, self@.2);
        while rest.len() > 0
            invariant
                self.cache@ + rest@ == all,
                (self@.0, self@.1, self@.2) == head,
            decreases rest@.len(),
        {
            let m = rest.remove(0);
            self.cache.push_back(m);
            assert(self.cache@ + rest@ =~= all);
        }
        assert(self.cache@ =~= all);
    }

    /// Recovers from the long-poll error `failed`, given the event number
    /// that came with it and a session that was just handed out: error 1
    /// moves on to the given event, error 2 takes the new key, error 3 the
    /// new key and event, and any other error the whole new session, whose
    /// queue is empty.
    pub fn recover(&mut self, failed: u8, ts: Option<String>, fresh: LegacyPoll)
        requires
            failed == 1 ==> ts is Some,
        ensures
            failed == 1 ==> final(self)@ == (old(self)@.0, old(self)@.1, ts->Some_0@, old(
                self,
            )@.3),
            failed == 2 ==> final(self)@ == (old(self)@.0, fresh@.1, old(self)@.2, old(self)@.3),
            failed == 3 ==> final(self)@ == (old(self)@.0, fresh@.1, fresh@.2, old(self)@.3),
            !(1 <= failed <= 3) ==> final(self)@ == fresh@,
    {
        match failed {
            1 => {
                match ts {
                    Some(ts) => self.ts = ts,
                    None => {},
                }
            },
            2 => self.key = fresh.key,
            3 => {
                self.key = fresh.key;
                self.ts = fresh.ts;
            },
            _ => *self = fresh,
        }
    }

    /// Hands out the message that has been queued longest, if any.
    pub fn next_message(&mut self) -> (m: Option<Message>)
        ensures
            old(self)@.3.len() == 0 ==> m is None && final(self)@ == old(self)@,
            old(self)@.3.len() > 0 ==> m == Some(old(self)@.3[0]) && final(self)@ == (
                old(self)@.0,
                old(self)@.1,
                old(self)@.2,
                old(self)@.3.drop_first(),
            ),
    {
        let m = self.cache.pop_front();
        proof {
            if old(self)@.3.len() > 0 {
                assert(self.cache@ =~= old(self)@.3.drop_first());
            }
        }
        m
    }
}

/// The text by which a message mentions the community whose id is written
/// `group_id`: `[club<group_id>|`, with the id as written.
pub open spec fn mention_of(group_id: Seq<char>) -> Seq<u8> {
    seq!['[' as u8, 'c' as u8, 'l' as u8, 'u' as u8, 'b' as u8] + utf8(group_id) + seq![
        '|' as u8,
    ]
}

/// The bytes of the mention of the community whose id is written
/// `group_id`.
pub fn mention_bytes(group_id: &str) -> (out: Vec<u8>)
    ensures
        out@ == mention_of(group_id@),
{
    let mut out = Vec::new();
    out.push('[' as u8);
    out.push('c' as u8);
    out.push('l' as u8);
    out.push('u' as u8);
    out.push('b' as u8);
    let mut id = vstd::slice::slice_to_vec(group_id.as_bytes());
    out.append(&mut id);
    out.push('|' as u8);
    assert(out@ =~= mention_of(group_id@));
    out
}

/// Whether the community `group_id`, whose id is written `group_id_text`,
/// answers `m`, given whether the chance of one in twenty for any message
/// came up (`roll`) and whether the chance of one in ten for a message of the
/// friend community came up (`friend_roll`): it answers when a chance came
/// up, when the chat is not a group chat, when the text mentions the
/// community as its id is written, or when the message replies to one of the
/// community's messages.
pub open spec fn legacy_wants_reply(
    m: Message,
    group_id: i32,
    group_id_text: Seq<char>,
    roll: bool,
    friend_roll: bool,
) -> bool {
    ||| roll
    ||| (m.peer_id & GROUP_CHAT_BASE) != GROUP_CHAT_BASE
    ||| (m.from_id == FRIEND_ID && friend_roll)
    ||| contains_bytes(utf8(m.text@), mention_of(group_id_text))
    ||| (m.reply_message matches Some(r) && r.from_id == -group_id)
}

/// The first VK frontend's reply rule: a message is answered exactly when a
/// chance came up, when its chat is not a group chat, when it is from the
/// friend community and the friend's chance came up, when the mention of the
/// community occurs anywhere in its text, or when it replies to a message of
/// the community (author `-group_id`); a reply to anyone else is not enough.
pub proof fn lemma_legacy_reply_rule(
    m: Message,
    group_id: i32,
    group_id_text: Seq<char>,
    roll: bool,
    friend_roll: bool,
)
    ensures
        roll ==> legacy_wants_reply(m, group_id, group_id_text, roll, friend_roll),
        (m.peer_id & GROUP_CHAT_BASE) != GROUP_CHAT_BASE ==> legacy_wants_reply(
            m,
            group_id,
            group_id_text,
            roll,
            friend_roll,
        ),
        m.from_id == FRIEND_ID && friend_roll ==> legacy_wants_reply(
            m,
            group_id,
            group_id_text,
            roll,
            friend_roll,
        ),
        forall|i: int| #[trigger]
            occurs_at(utf8(m.text@), mention_of(group_id_text), i) ==> legacy_wants_reply(
                m,
                group_id,
                group_id_text,
                roll,
                friend_roll,
            ),
        (m.reply_message matches Some(r) && r.from_id == -group_id) ==> legacy_wants_reply(
            m,
            group_id,
            group_id_text,
            roll,
            friend_roll,
        ),
        legacy_wants_reply(m, group_id, group_id_text, roll, friend_roll) ==> roll || (m.peer_id
            & GROUP_CHAT_BASE) != GROUP_CHAT_BASE || (m.from_id == FRIEND_ID && friend_roll) || (
        exists|i: int| #[trigger] occurs_at(utf8(m.text@), mention_of(group_id_text), i)) || (
        m.reply_message matches Some(r) && r.from_id == -group_id),
{
}

/// The rule can be decided without negating `i32::MIN`: a reply that no
/// earlier rule answers is checked against the negated community id.
pub open spec fn legacy_rule_defined(
    m: Message,
    group_id: i32,
    group_id_text: Seq<char>,
    roll: bool,
    friend_roll: bool,
) -> bool {
    group_id == i32::MIN && m.reply_message is Some ==> {
        ||| roll
        ||| (m.peer_id & GROUP_CHAT_BASE) != GROUP_CHAT_BASE
        ||| (m.from_id == FRIEND_ID && friend_roll)
        ||| contains_bytes(utf8(m.text@), mention_of(group_id_text))
    }
}

/// Whether the community `group_id`, whose id is written `group_id_text`,
/// answers `m`, given the outcomes of both chances.
pub fn reply_decision(
    m: &Message,
    group_id: i32,
    group_id_text: &str,
    roll: bool,
    friend_roll: bool,
) -> (res: bool)
    requires
        legacy_rule_defined(*m, group_id, group_id_text@, roll, friend_roll),
    ensures
        res == legacy_wants_reply(*m, group_id, group_id_text@, roll, friend_roll),
        roll ==> res,
        (m.peer_id & GROUP_CHAT_BASE) != GROUP_CHAT_BASE ==> res,
        m.from_id == FRIEND_ID && friend_roll ==> res,
        forall|i: int| #[trigger] occurs_at(utf8(m.text@), mention_of(group_id_text@), i) ==> res,
        (m.reply_message matches Some(r) && r.from_id == -group_id) ==> res,
        res ==> roll || (m.peer_id & GROUP_CHAT_BASE) != GROUP_CHAT_BASE || (m.from_id
            == FRIEND_ID && friend_roll) || (exists|i: int| #[trigger]
            occurs_at(utf8(m.text@), mention_of(group_id_text@), i)) || (
        m.reply_message matches Some(r) && r.from_id == -group_id),
{
    proof {
        lemma_legacy_reply_rule(*m, group_id, group_id_text@, roll, friend_roll);
    }
    if roll || (m.peer_id & GROUP_CHAT_BASE) != GROUP_CHAT_BASE {
        return true;
    }
    if m.from_id == FRIEND_ID && friend_roll {
        return true;
    }
    let mention = mention_bytes(group_id_text);
    if contains_slice(m.text.as_str().as_bytes(), mention.as_slice()) {
        return true;
    }
    match &m.reply_message {
        Some(r) => r.from_id == -group_id,
        None => false,
    }
}

/// Whether the community `group_id`, whose id is written `group_id_text`,
/// answers `m`; the chance of one in twenty is drawn for every message, the
/// chance of one in ten only for a message of the friend community that no
/// earlier rule answers.
pub fn should_reply(m: &Message, group_id: i32, group_id_text: &str) -> (res: bool)
    requires
        legacy_rule_defined(*m, group_id, group_id_text@, false, false),
    ensures
        legacy_wants_reply(*m, group_id, group_id_text@, false, false) ==> res,
{
    let roll = chance(1, 20);
    let friend_roll = if !roll && (m.peer_id & GROUP_CHAT_BASE) == GROUP_CHAT_BASE
        && m.from_id == FRIEND_ID {
        chance(1, 10)
    } else {
        false
    };
    reply_decision(m, group_id, group_id_text, roll, friend_roll)
}

/// The form that asks for a long-poll session of the community whose id
/// is written `group_id`, as the community holding `token`.
pub fn server_form(token: &str, group_id: &str) -> (form: Vec<(String, String)>)
    ensures
        form_view(form@) == seq![
            ("access_token"@, token@),
            ("group_id"@, group_id@),
            ("v"@, "5.95"@),
        ],
{
    let mut form = Vec::new();
    form.push(("access_token".to_owned(), token.to_owned()));
    form.push(("group_id".to_owned(), group_id.to_owned()));
    form.push(("v".to_owned(), "5.95".to_owned()));
    assert(form_view(form@) =~= seq![
        ("access_token"@, token@),
        ("group_id"@, group_id@),
        ("v"@, "5.95"@),
    ]);
    form
}

/// The form that sends `text` to the chat `peer_id` under the random id
/// `random_id`, as the community holding `token`.
pub fn send_form(token: &str, peer_id: i32, random_id: i64, text: &str) -> (form: Vec<(String, String)>)
    ensures
        form_view(form@) == seq![
            ("access_token"@, token@),
            ("v"@, "5.95"@),
            ("random_id"@, decimal_text(random_id as int)),
            ("peer_id"@, decimal_text(peer_id as int)),
            ("message"@, text@),
        ],
{
    let mut form = Vec::new();
    form.push(("access_token".to_owned(), token.to_owned()));
    form.push(("v".to_owned(), "5.95".to_owned()));
    form.push(("random_id".to_owned(), decimal_string(random_id)));
    form.push(("peer_id".to_owned(), decimal_string(peer_id as i64)));
    form.push(("message".to_owned(), text.to_owned()));
    assert(form_view(form@) =~= seq![
        ("access_token"@, token@),
        ("v"@, "5.95"@),
        ("random_id"@, decimal_text(random_id as int)),
        ("peer_id"@, decimal_text(peer_id as int)),
        ("message"@, text@),
    ]);
    form
}

} // verus!
