use pivagen::telegram::{command_bytes, reply_decision, should_reply, TgMessage};

fn tg(private_chat: bool, text: Option<&str>, sender: Option<u64>) -> TgMessage {
    TgMessage { private_chat, text: text.map(|t| t.to_string()), sender }
}

#[test]
fn command_text() {
    assert_eq!(command_bytes(), b"/pivagen".to_vec());
}

#[test]
fn telegram_rules() {
    assert!(reply_decision(&tg(true, None, None), 7, false));
    assert!(reply_decision(&tg(false, Some("/pivagen hi"), None), 7, false));
    assert!(!reply_decision(&tg(false, Some("hi /pivagen"), None), 7, false));
    assert!(reply_decision(&tg(false, Some("hi"), Some(7)), 7, false));
    assert!(!reply_decision(&tg(false, Some("hi"), Some(8)), 7, false));
    assert!(reply_decision(&tg(false, None, None), 7, true));
    assert!(!reply_decision(&tg(false, None, None), 7, false));
}

#[test]
fn telegram_should_reply_when_rules_say_so() {
    assert!(should_reply(&tg(true, Some("x"), None), 7));
    assert!(should_reply(&tg(false, Some("/pivagen"), None), 7));
}
