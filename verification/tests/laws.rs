use pivagen::backend::{dataset_line, lines, route, Keywords, Route};
use pivagen::codec::{decode_request, encode_request, DecodeError};
use pivagen::request::Request;

#[test]
fn partial_request_is_truncated() {
    let frame = encode_request(&Request::save("пиво".to_string()));
    for k in 0..frame.len() {
        assert_eq!(decode_request(&frame[..k]).err(), Some(DecodeError::Truncated));
    }
    assert!(decode_request(&frame).is_ok());
}

#[test]
fn generate_requests_are_learned() {
    match route(Request::generate("как дела".to_string())) {
        Route::Learn(t) => assert_eq!(t, "как дела"),
        Route::Answer(_) => panic!("a generate request is answered"),
    }
}

#[test]
fn learned_line_reads_back() {
    let dataset = "первая\nвторая\n".to_string();
    let appended = dataset.clone() + &dataset_line("третья строка".to_string());
    assert_eq!(lines(&appended), vec!["первая", "вторая", "третья строка", ""]);
    let from_empty = dataset_line("одна".to_string());
    assert_eq!(lines(&from_empty), vec!["одна", ""]);
}

#[test]
fn split_then_join_gives_text_back() {
    for text in ["", "\n", "a\n\nb", "пиво\nраки\n"] {
        assert_eq!(lines(text).join("\n"), text);
    }
}

#[test]
fn inserted_keyword_is_found_where_inserted() {
    let mut k = Keywords::new();
    for w in ["a", "b", "a", "c", "b"] {
        let i = k.insert(w.to_string());
        assert_eq!(k.position(w), Some(i));
    }
    assert_eq!(k.len(), 3);
}

#[test]
fn chance_extremes() {
    for _ in 0..100 {
        assert!(!pivagen::chance::chance(0, 20));
        assert!(pivagen::chance::chance(20, 20));
    }
}
