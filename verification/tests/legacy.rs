use pivagen::legacy::{generate_frame, save_frame};
use pivagen::vk::{Message, ReplyMessage};
use pivagen::vk_legacy::{mention_bytes, reply_decision, should_reply, LegacyPoll, FRIEND_ID};

#[test]
fn legacy_frames() {
    assert_eq!(save_frame("hi"), vec![1, b'h', b'i']);
    assert_eq!(generate_frame("пи"), vec![0, 0xd0, 0xbf, 0xd0, 0xb8]);
    assert_eq!(generate_frame(""), vec![0]);
}

fn msg(peer_id: i32, from_id: i32, text: &str, reply: Option<i32>) -> Message {
    Message { peer_id, from_id, text: text.to_string(), reply_message: reply.map(|from_id| ReplyMessage { from_id }) }
}

#[test]
fn legacy_reply_rules() {
    // group chat peer ids have the bits of two billion set
    assert!(!reply_decision(&msg(2_000_000_001, 5, "hi", None), 9, "9", false, false));
    assert!(reply_decision(&msg(2_000_000_001, 5, "hi", None), 9, "9", true, false));
    assert!(reply_decision(&msg(15, 5, "hi", None), 9, "9", false, false));
    assert!(reply_decision(&msg(2_000_000_001, FRIEND_ID, "hi", None), 9, "9", false, true));
    assert!(!reply_decision(&msg(2_000_000_001, 5, "hi", None), 9, "9", false, true));
    assert!(reply_decision(&msg(2_000_000_001, 5, "a [club9|b]", None), 9, "9", false, false));
    assert!(reply_decision(&msg(2_000_000_001, 5, "hi", Some(-9)), 9, "9", false, false));
    assert!(should_reply(&msg(15, 5, "hi", None), 9, "9"));
}

#[test]
fn queue_hands_out_in_order() {
    let mut p = LegacyPoll::from_parts("s".into(), "k".into(), "1".into());
    assert!(p.next_message().is_none());
    p.on_events("2".into(), vec![msg(1, 1, "a", None), msg(1, 1, "b", None)]);
    p.on_events("3".into(), vec![msg(1, 1, "c", None)]);
    let texts: Vec<String> = std::iter::from_fn(|| p.next_message()).map(|m| m.text).collect();
    assert_eq!(texts, vec!["a", "b", "c"]);
    let form = p.check_form();
    assert_eq!(form[2], ("ts".to_string(), "3".to_string()));
}

#[test]
fn legacy_recovery_resets_queue_on_unknown_error() {
    let mut p = LegacyPoll::from_parts("s".into(), "k".into(), "1".into());
    p.on_events("2".into(), vec![msg(1, 1, "a", None)]);
    p.recover(2, None, LegacyPoll::from_parts("s2".into(), "k2".into(), "9".into()));
    assert_eq!(p.check_form()[1], ("key".to_string(), "k2".to_string()));
    assert_eq!(p.server(), "s");
    assert_eq!(p.next_message().map(|m| m.text), Some("a".to_string()));
    p.on_events("3".into(), vec![msg(1, 1, "b", None)]);
    p.recover(7, None, LegacyPoll::from_parts("s2".into(), "k2".into(), "9".into()));
    assert!(p.next_message().is_none());
    assert_eq!(p.server(), "s2");
}

#[test]
fn legacy_mention_uses_id_as_written() {
    assert_eq!(mention_bytes("007"), b"[club007|".to_vec());
    assert!(reply_decision(&msg(2_000_000_001, 5, "hey [club007|bot]", None), 7, "007", false, false));
    assert!(!reply_decision(&msg(2_000_000_001, 5, "hey [club7|bot]", None), 7, "007", false, false));
}

#[test]
fn legacy_rule_with_smallest_id() {
    assert!(reply_decision(&msg(15, 5, "hi", Some(3)), i32::MIN, "x", false, false));
    assert!(!reply_decision(&msg(2_000_000_001, 5, "hi", None), i32::MIN, "x", false, false));
}
