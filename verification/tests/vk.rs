use pivagen::vk::{longpoll_args, method_form, method_url};
use pivagen::vk_legacy::{send_form, server_form};
use pivagen::text::{put_decimal, contains_slice, starts_with_slice, str_eq};
use pivagen::vk::{
    backend_unavailable, club_mention_bytes, plan_with, reply_text, should_reply, Chat, LongPoll,
    Message, MsgType, Plan, ReplyMessage, ReplyMode,
};

fn msg(peer_id: i32, from_id: i32, text: &str, reply: Option<i32>) -> Message {
    Message { peer_id, from_id, text: text.to_string(), reply_message: reply.map(|from_id| ReplyMessage { from_id }) }
}

#[test]
fn private_chats_are_below_two_billion() {
    assert!(msg(1_999_999_999, 5, "", None).is_private());
    assert!(!msg(2_000_000_000, 5, "", None).is_private());
    assert!(!msg(2_000_000_007, 5, "", None).is_private());
}

#[test]
fn users_have_positive_ids() {
    assert!(msg(1, 1, "", None).from_user());
    assert!(!msg(1, 0, "", None).from_user());
    assert!(!msg(1, -42, "", None).from_user());
}

#[test]
fn decimal_notation() {
    for n in [0i64, 7, 10, 123, -1, -2_000_000_000, i64::MAX, i64::MIN] {
        let mut out = Vec::new();
        put_decimal(&mut out, n);
        assert_eq!(String::from_utf8(out).unwrap(), n.to_string());
    }
}

#[test]
fn club_mention_text() {
    assert_eq!(club_mention_bytes(176707471), b"[club176707471|".to_vec());
    assert_eq!(club_mention_bytes(-3), b"[club-3|".to_vec());
}

#[test]
fn byte_search() {
    assert!(contains_slice(b"abc[club1|x", b"[club1|"));
    assert!(!contains_slice(b"abc[club12|x", b"[club1|"));
    assert!(contains_slice(b"abc", b""));
    assert!(!contains_slice(b"", b"a"));
    assert!(starts_with_slice(b"/pivagen now", b"/pivagen"));
    assert!(!starts_with_slice(b" /pivagen", b"/pivagen"));
    assert!(str_eq("пиво", "пиво"));
    assert!(!str_eq("пиво", "пива"));
}

#[test]
fn replies_in_private_chats() {
    assert!(should_reply(&msg(100, 5, "hi", None), 42));
}

#[test]
fn replies_to_mentions() {
    assert!(should_reply(&msg(2_000_000_001, 5, "[club42|bot], hi", None), 42));
    assert!(!should_reply(&msg(2_000_000_001, 5, "[club421|bot], hi", None), 42));
}

#[test]
fn replies_to_answers_to_own_messages() {
    assert!(should_reply(&msg(2_000_000_001, 5, "hi", Some(-42)), 42));
    assert!(!should_reply(&msg(2_000_000_001, 5, "hi", Some(42)), 42));
    assert!(!should_reply(&msg(2_000_000_001, 5, "hi", None), 42));
}

#[test]
fn chat_kind() {
    assert_eq!(Chat::of(&msg(5, 1, "", None)), Chat::Private);
    assert_eq!(Chat::of(&msg(2_000_000_005, 1, "", None)), Chat::Group);
    assert_ne!(MsgType::Incoming, MsgType::Outgoing);
}

#[test]
fn plans() {
    let p = plan_with(&msg(2_000_000_001, 5, "hi", None), 42, false);
    assert_eq!(p, Plan { save: true, chat: Chat::Group, reply: ReplyMode::Never });
    let p = plan_with(&msg(2_000_000_001, -5, "hi", None), 42, true);
    assert_eq!(p, Plan { save: false, chat: Chat::Group, reply: ReplyMode::IfAnswered });
    let p = plan_with(&msg(7, 5, "hi", None), 42, false);
    assert_eq!(p, Plan { save: true, chat: Chat::Private, reply: ReplyMode::Always });
    let p = pivagen::vk::plan(&msg(7, 5, "hi", None), 42);
    assert_eq!(p.reply, ReplyMode::Always);
}

#[test]
fn reply_texts() {
    assert_eq!(reply_text(ReplyMode::Never, Some("a".into())), None);
    assert_eq!(reply_text(ReplyMode::IfAnswered, Some("a".into())), Some("a".to_string()));
    assert_eq!(reply_text(ReplyMode::IfAnswered, None), None);
    assert_eq!(reply_text(ReplyMode::Always, Some("a".into())), Some("a".to_string()));
    assert_eq!(reply_text(ReplyMode::Always, None), Some("Ааеаоаооаа".to_string()));
    assert_eq!(backend_unavailable(), "Ааеаоаооаа");
}

fn poll() -> LongPoll {
    LongPoll::from_parts("srv".into(), "k1".into(), "10".into(), 42)
}

fn form(p: &LongPoll) -> Vec<(String, String)> {
    p.check_form()
}

fn pairs(v: &[(&str, &str)]) -> Vec<(String, String)> {
    v.iter().map(|(a, b)| (a.to_string(), b.to_string())).collect()
}

#[test]
fn check_form_fields() {
    let p = poll();
    assert_eq!(form(&p), pairs(&[("act", "a_check"), ("key", "k1"), ("ts", "10"), ("wait", "25")]));
    assert_eq!(p.server(), "srv");
    assert_eq!(p.group_id(), 42);
}

#[test]
fn events_move_ts() {
    let mut p = poll();
    p.on_events("11".into());
    assert_eq!(form(&p), pairs(&[("act", "a_check"), ("key", "k1"), ("ts", "11"), ("wait", "25")]));
}

#[test]
fn longpoll_recovery() {
    let fresh = || LongPoll::from_parts("srv2".into(), "k2".into(), "20".into(), 42);
    let mut p = poll();
    p.recover(1, Some("15".into()), fresh());
    assert_eq!(form(&p), pairs(&[("act", "a_check"), ("key", "k1"), ("ts", "15"), ("wait", "25")]));
    assert_eq!(p.server(), "srv");

    let mut p = poll();
    p.recover(2, None, fresh());
    assert_eq!(form(&p), pairs(&[("act", "a_check"), ("key", "k2"), ("ts", "10"), ("wait", "25")]));
    assert_eq!(p.server(), "srv");

    let mut p = poll();
    p.recover(3, None, fresh());
    assert_eq!(form(&p), pairs(&[("act", "a_check"), ("key", "k2"), ("ts", "20"), ("wait", "25")]));
    assert_eq!(p.server(), "srv");

    let mut p = poll();
    p.recover(4, Some("99".into()), fresh());
    assert_eq!(form(&p), pairs(&[("act", "a_check"), ("key", "k2"), ("ts", "20"), ("wait", "25")]));
    assert_eq!(p.server(), "srv2");
}

#[test]
fn decimal_strings() {
    for n in [0i64, 9, 10, -5, 2_000_000_000, i64::MIN, i64::MAX] {
        assert_eq!(pivagen::text::decimal_string(n), n.to_string());
    }
}

#[test]
fn api_forms() {
    assert_eq!(method_url("groups.getById"), "https://api.vk.com/method/groups.getById");
    assert_eq!(
        method_form("tok", longpoll_args(-12)),
        pairs(&[("v", "5.131"), ("access_token", "tok"), ("group_id", "-12")])
    );
    assert_eq!(method_form("tok", Vec::new()), pairs(&[("v", "5.131"), ("access_token", "tok")]));
    let m = msg(2_000_000_003, 1, "x", None);
    assert_eq!(
        m.reply_form("tok", -77, "ответ"),
        pairs(&[
            ("v", "5.131"),
            ("access_token", "tok"),
            ("random_id", "-77"),
            ("peer_id", "2000000003"),
            ("message", "ответ"),
        ])
    );
}

#[test]
fn legacy_forms() {
    assert_eq!(
        server_form("tok", "42"),
        pairs(&[("access_token", "tok"), ("group_id", "42"), ("v", "5.95")])
    );
    assert_eq!(
        send_form("tok", 5, 123, "hi"),
        pairs(&[
            ("access_token", "tok"),
            ("v", "5.95"),
            ("random_id", "123"),
            ("peer_id", "5"),
            ("message", "hi"),
        ])
    );
}

#[test]
fn reply_rule_with_smallest_id() {
    assert!(should_reply(&msg(100, 5, "hi", Some(1)), i32::MIN));
    assert!(!should_reply(&msg(2_000_000_001, 5, "hi", None), i32::MIN));
}

#[test]
fn reply_rule_ignores_sender() {
    for from_id in [-7, 0, 5] {
        assert!(should_reply(&msg(2_000_000_001, from_id, "hi", Some(-42)), 42));
        assert!(!should_reply(&msg(2_000_000_001, from_id, "hi", None), 42));
    }
}

#[test]
fn recovery_keeps_community() {
    for failed in [1u8, 2, 3, 9] {
        let mut p = poll();
        let fresh = LongPoll::from_parts("s".into(), "k".into(), "1".into(), 42);
        p.recover(failed, Some("5".into()), fresh);
        assert_eq!(p.group_id(), 42);
    }
}
