//! The Telegram frontend's decision whether to answer a message.

use vstd::prelude::*;
use crate::text::{starts_with_bytes, starts_with_slice};
use crate::text::utf8;
use crate::chance::chance;

verus! {

/// What the bot reads of an incoming Telegram message: whether it came from
/// a private chat, its text, and the id of its sender.
pub struct TgMessage {
    pub private_chat: bool,
    pub text: Option<String>,
    pub sender: Option<u64>,
}

/// The command that asks the bot for an answer: `/pivagen`.
pub open spec fn command() -> Seq<u8> {
    seq!['/' as u8, 'p' as u8, 'i' as u8, 'v' as u8, 'a' as u8, 'g' as u8, 'e' as u8, 'n' as u8]
}

/// The bytes of the command.
pub fn command_bytes() -> (out: Vec<u8>)
    ensures
        out@ == command(),
{
    let mut out = Vec::new();
    out.push('/' as u8);
    out.push('p' as u8);
    out.push('i' as u8);
    out.push('v' as u8);
    out.push('a' as u8);
    out.push('g' as u8);
    out.push('e' as u8);
    out.push('n' as u8);
    assert(out@ =~= command());
    out
}

/// Whether the bot `my_id` answers `m`, given whether the chance of
/// answering any message (three in twenty) came up: it answers a private
/// chat, a message sent by itself, a message that starts with the command,
/// and any message when the chance comes up.
pub open spec fn wants_reply(m: TgMessage, my_id: u64, roll: bool) -> bool {
    ||| m.private_chat
    ||| m.sender == Some(my_id)
    ||| (m.text matches Some(t) && starts_with_bytes(utf8(t@), command()))
    ||| roll
}

/// Whether the bot `my_id` answers `m`, given the outcome `roll` of the
/// chance.
pub fn reply_decision(m: &TgMessage, my_id: u64, roll: bool) -> (res: bool)
    ensures
        res == wants_reply(*m, my_id, roll),
{
    let is_private = m.private_chat;
    let is_command = match &m.text {
        Some(t) => {
            let cmd = command_bytes();
            starts_with_slice(t.as_str().as_bytes(), cmd.as_slice())
        },
        None => false,
    };
    let is_reply_to_mine = match m.sender {
        Some(id) => id == my_id,
        None => false,
    };
    is_private || is_reply_to_mine || is_command || roll
}

/// Whether the bot `my_id` answers `m`; the chance of three in twenty is
/// drawn for every message.
pub fn should_reply(m: &TgMessage, my_id: u64) -> (res: bool)
    ensures
        wants_reply(*m, my_id, false) ==> res,
{
    let roll = chance(3, 20);
    reply_decision(m, my_id, roll)
}

} // verus!
