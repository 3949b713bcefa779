use pivagen::backend::{
    accepts_message, answer_or_default, dataset_line, default_answer, keyword_of, lines, route,
    Keywords, Route,
};
use pivagen::request::Request;

#[test]
fn learning_length_bounds() {
    assert!(!accepts_message(&"a".repeat(10)));
    assert!(accepts_message(&"a".repeat(11)));
    assert!(accepts_message(&"a".repeat(499)));
    assert!(!accepts_message(&"a".repeat(500)));
}

#[test]
fn learning_counts_bytes() {
    // six Cyrillic letters are twelve bytes
    assert!(accepts_message("шесть!"));
    assert!(!accepts_message("пять!"));
}

#[test]
fn learning_rejects_markup() {
    assert!(!accepts_message("hello /start there"));
    assert!(!accepts_message("hello [club1|x] there"));
    assert!(!accepts_message("hello there]]]"));
    assert!(accepts_message("hello there, friends"));
}

#[test]
fn dataset_lines_end_with_break() {
    assert_eq!(dataset_line("привет всем".to_string()), "привет всем\n");
}

#[test]
fn keywords_of_datasets() {
    assert_eq!(keyword_of("пиво\nпиво холодное\n"), "пиво");
    assert_eq!(keyword_of("\nrest"), "");
    assert_eq!(keyword_of("пиво"), "пив");
    assert_eq!(keyword_of(""), "");
}

#[test]
fn split_lines() {
    assert_eq!(lines("a\nbb\n"), vec!["a", "bb", ""]);
    assert_eq!(lines(""), vec![""]);
    assert_eq!(lines("один\n\nтри"), vec!["один", "", "три"]);
    let text = "x\nпиво\n\nz";
    assert_eq!(lines(text), text.split('\n').collect::<Vec<_>>());
}

#[test]
fn keyword_map_semantics() {
    let mut k = Keywords::new();
    assert_eq!(k.insert("пиво".to_string()), 0);
    assert_eq!(k.insert("раки".to_string()), 1);
    assert_eq!(k.insert("пиво".to_string()), 0);
    assert_eq!(k.len(), 2);
    assert_eq!(k.position("раки"), Some(1));
    assert_eq!(k.position("водка"), None);
}

#[test]
fn first_mentioned_keyword_wins() {
    let mut k = Keywords::new();
    k.insert("раки".to_string());
    k.insert("пиво".to_string());
    assert_eq!(k.pick("пиво и раки"), Some(0));
    assert_eq!(k.pick("холодное пиво"), Some(1));
    assert_eq!(k.pick("чай"), None);
    assert_eq!(k.pick("раки"), Some(0));
}

#[test]
fn chain_lookup_lowercases() {
    let mut k = Keywords::new();
    k.insert("пиво".to_string());
    assert_eq!(k.chain_for("Хочу ПИВО!"), Some(0));
    assert_eq!(k.pick("Хочу ПИВО!"), None);
}

#[test]
fn default_answers() {
    assert_eq!(answer_or_default(Some("ok".to_string())), "ok");
    assert_eq!(answer_or_default(None), default_answer());
    assert_eq!(default_answer(), "хуй тебе");
}

#[test]
fn routing() {
    match route(Request { write_intent: true, content: "x".into() }) {
        Route::Learn(t) => assert_eq!(t, "x"),
        Route::Answer(_) => panic!("learned text answered"),
    }
    match route(Request { write_intent: false, content: "y".into() }) {
        Route::Answer(t) => assert_eq!(t, "y"),
        Route::Learn(_) => panic!("answered text learned"),
    }
}
