use translator::json::{Json, get_item};
use translator::text::{is_blank, trim, white_space};
use translator::translator::{
    google_request_url, google_translation, is_transient, normalize_language, request_url,
    shorten_query, translate, describe, cut_text, NetworkFailure, TranslateError, Translation,
    TranslationProvider, QUERY_LENGTH_LIMIT,
};

const PREFIX: &str = "https://translate.googleapis.com/translate_a/single?client=gtx&sl=";

#[test]
fn normalize_language_accepts_codes() {
    assert_eq!(normalize_language("ru"), Some("ru".to_string()));
    assert_eq!(normalize_language("en-US"), Some("en".to_string()));
    assert_eq!(normalize_language("pt_BR"), Some("pt".to_string()));
    assert_eq!(normalize_language("  FR \n"), Some("fr".to_string()));
    assert_eq!(normalize_language("De-ch"), Some("de".to_string()));
}

#[test]
fn normalize_language_rejects_names_and_odd_codes() {
    assert_eq!(normalize_language("English"), None);
    assert_eq!(normalize_language(""), None);
    assert_eq!(normalize_language("   "), None);
    assert_eq!(normalize_language("e"), None);
    assert_eq!(normalize_language("eng"), None);
    assert_eq!(normalize_language("e1"), None);
    assert_eq!(normalize_language("-en"), None);
    assert_eq!(normalize_language("é"), None);
    assert_eq!(normalize_language("ée"), None);
    assert_eq!(normalize_language("en US"), None);
}

#[test]
fn normalize_language_is_idempotent() {
    for input in ["en-GB", " RU", "zh_Hant", "Fr"] {
        let code = normalize_language(input).unwrap();
        assert_eq!(normalize_language(&code), Some(code.clone()));
        assert!(code.chars().all(|c| c.is_ascii_lowercase()));
        assert_eq!(code.len(), 2);
    }
}

#[test]
fn trim_and_blank_follow_unicode_white_space() {
    assert_eq!(trim(" \t a b \u{3000}\n"), "a b");
    assert_eq!(trim("\u{a0}x\u{2009}"), "x");
    assert_eq!(trim("   "), "");
    assert!(is_blank(" \u{85}\u{2028}"));
    assert!(!is_blank(" . "));
    for c in ['\t', '\n', ' ', '\u{85}', '\u{a0}', '\u{1680}', '\u{2000}', '\u{200a}', '\u{3000}'] {
        assert!(white_space(c));
        assert_eq!(white_space(c), c.is_whitespace());
    }
    for c in ['a', '\u{200b}', '\u{feff}', '-'] {
        assert!(!white_space(c));
        assert_eq!(white_space(c), c.is_whitespace());
    }
}

#[test]
fn request_url_encodes_the_query() {
    let url = request_url("hello world?", "en", "fr", TranslationProvider::Google);
    assert_eq!(url, format!("{}en&tl=fr&dt=t&q=hello%20world%3F", PREFIX));
    let url = google_request_url("é-ü_1", "auto", "de");
    assert_eq!(url, format!("{}auto&tl=de&dt=t&q=%C3%A9%2D%C3%BC%5F1", PREFIX));
    let url = google_request_url("", "en", "ru");
    assert_eq!(url, format!("{}en&tl=ru&dt=t&q=", PREFIX));
}

#[test]
fn long_queries_are_cut_to_the_limit() {
    let long = "a".repeat(5000);
    assert_eq!(shorten_query(&long).len(), QUERY_LENGTH_LIMIT);
    let exact = "b".repeat(4096);
    assert_eq!(shorten_query(&exact), exact.as_str());
    let short = "short query";
    assert_eq!(shorten_query(short), short);
    let url = google_request_url(&long, "en", "fr");
    assert_eq!(url, format!("{}en&tl=fr&dt=t&q={}", PREFIX, "a".repeat(4096)));
}

#[test]
fn queries_are_cut_at_character_boundaries() {
    let mixed = format!("{}é", "a".repeat(4095));
    assert_eq!(mixed.len(), 4097);
    assert_eq!(shorten_query(&mixed), "a".repeat(4095).as_str());
    let fits = format!("{}é", "a".repeat(4094));
    assert_eq!(shorten_query(&fits), fits.as_str());
    let wide = "日".repeat(2000);
    let cut = shorten_query(&wide);
    assert_eq!(cut.len(), 4095);
    assert_eq!(shorten_query(cut), cut);
}

#[test]
fn google_reply_is_read() {
    let reply = r#"[[["Bonjour","Hello",null,null,10]],null,"en",null,null,null,1.0]"#;
    let t = translate(reply, TranslationProvider::Google).unwrap();
    assert_eq!(t.text, "Bonjour");
    assert_eq!(t.detected_source, Some("en".to_string()));
}

#[test]
fn google_reply_segments_are_joined() {
    let reply = r#"[[["Hallo ","Hello ",null],["Welt","world"],[null,"x"],7,["!"]],null,3]"#;
    let t = translate(reply, TranslationProvider::Google).unwrap();
    assert_eq!(t.text, "Hallo Welt!");
    assert_eq!(t.detected_source, None);
}

#[test]
fn google_reply_with_no_segments() {
    let t = translate("[[]]", TranslationProvider::Google).unwrap();
    assert_eq!(t.text, "");
    assert_eq!(t.detected_source, None);
}

#[test]
fn invalid_json_is_reported() {
    match translate("<html>busy</html>", TranslationProvider::Google) {
        Err(TranslateError::InvalidJson(m)) => assert_eq!(m, "expected value at line 1 column 1"),
        other => panic!("unexpected {:?}", other),
    }
    match translate("[[[\"a\"]]", TranslationProvider::Google) {
        Err(TranslateError::InvalidJson(_)) => {}
        other => panic!("unexpected {:?}", other),
    }
}

#[test]
fn unexpected_shape_is_reported_with_the_reply() {
    for reply in [r#"{"error":"quota"}"#, "[1,2,3]", "[]", "\"text\"", "[\"a\"]"] {
        match translate(reply, TranslationProvider::Google) {
            Err(TranslateError::UnexpectedResponse(body)) => assert_eq!(body, reply),
            other => panic!("unexpected {:?}", other),
        }
    }
}

#[test]
fn json_items_are_read_by_index() {
    let doc = Json::Array(vec![Json::Str("x".to_string()), Json::Null]);
    assert!(matches!(get_item(&doc, 0), Some(Json::Str(s)) if s == "x"));
    assert!(matches!(get_item(&doc, 1), Some(Json::Null)));
    assert!(get_item(&doc, 2).is_none());
    assert!(get_item(&Json::Str("x".to_string()), 0).is_none());
}

#[test]
fn google_translation_reads_a_document() {
    let doc = Json::Array(vec![
        Json::Array(vec![
            Json::Array(vec![Json::Str("un ".to_string()), Json::Str("one ".to_string())]),
            Json::Array(vec![Json::Str("deux".to_string())]),
        ]),
        Json::Null,
        Json::Str("en".to_string()),
    ]);
    let t = google_translation(&doc).unwrap();
    assert_eq!(t.text, "un deux");
    assert_eq!(t.detected_source, Some("en".to_string()));
    let not_array = Json::Array(vec![Json::Object(vec![]), Json::Null, Json::Str("en".to_string())]);
    assert!(google_translation(&not_array).is_none());
}

fn network(failure: NetworkFailure) -> TranslateError {
    TranslateError::Network { failure, message: "failure".to_string() }
}

#[test]
fn only_connection_failures_are_transient() {
    assert!(is_transient(&network(NetworkFailure::Io)));
    assert!(is_transient(&network(NetworkFailure::Timeout)));
    assert!(is_transient(&network(NetworkFailure::ConnectionFailed)));
    assert!(is_transient(&network(NetworkFailure::HostNotFound)));
    assert!(!is_transient(&network(NetworkFailure::Other)));
    assert!(!is_transient(&TranslateError::UnexpectedResponse("[]".to_string())));
    let bad = translate("nope", TranslationProvider::Google).unwrap_err();
    assert!(!is_transient(&bad));
}

#[test]
fn translation_fields_are_plain() {
    let t = Translation { text: "x".to_string(), detected_source: None };
    assert_eq!(t.text, "x");
}

fn percent_decode(s: &str) -> Vec<u8> {
    let b = s.as_bytes();
    let mut out = Vec::new();
    let mut i = 0;
    while i < b.len() {
        if b[i] == b'%' && i + 3 <= b.len() {
            let hex = std::str::from_utf8(&b[i + 1..i + 3]).unwrap();
            out.push(u8::from_str_radix(hex, 16).unwrap());
            i += 3;
        } else {
            out.push(b[i]);
            i += 1;
        }
    }
    out
}

#[test]
fn the_request_carries_the_query_losslessly() {
    for query in ["a b&c=d", "日本語のテキスト", "100% sure?", "line\nbreak\ttab"] {
        let url = google_request_url(query, "ja", "en");
        let encoded = url.rsplit("&q=").next().unwrap();
        assert!(encoded.chars().all(|c| c.is_ascii_alphanumeric() || c == '%'));
        assert!(encoded.len() <= 3 * query.len());
        assert_eq!(percent_decode(encoded), query.as_bytes());
    }
}

#[test]
fn normalize_language_ignores_case_and_padding() {
    for language in ["en-US", "Ru", "english", "pt_br", "", "é", "zh-Hant"] {
        let plain = normalize_language(language);
        assert_eq!(normalize_language(&language.to_ascii_uppercase()), plain);
        assert_eq!(normalize_language(&format!(" {}\n", language)), plain);
        assert_eq!(normalize_language(&format!("\u{3000}\t{}  ", language)), plain);
    }
}

#[test]
fn translation_errors_are_described() {
    let reply = "null";
    let err = translate(reply, TranslationProvider::Google).unwrap_err();
    assert_eq!(describe(&err), "Unexpected response: null");
    let long = format!("{{\"a\":\"{}\"}}", "b".repeat(200));
    let err = translate(&long, TranslationProvider::Google).unwrap_err();
    assert_eq!(describe(&err), format!("Unexpected response: {}", &long[..128]));
    let wide = format!("{{\"{}\":1}}", "é".repeat(100));
    assert!(wide.is_char_boundary(128));
    let err = translate(&wide, TranslationProvider::Google).unwrap_err();
    assert_eq!(describe(&err), format!("Unexpected response: {}", &wide[..128]));
    let net = TranslateError::Network { failure: NetworkFailure::Timeout, message: "timed out".to_string() };
    assert_eq!(describe(&net), "timed out");
    let bad = translate("{", TranslationProvider::Google).unwrap_err();
    let parse_error = serde_json::from_str::<serde_json::Value>("{").unwrap_err();
    assert_eq!(describe(&bad), parse_error.to_string());
}

#[test]
fn cut_text_keeps_whole_characters() {
    assert_eq!(cut_text("héllo", 2), "h");
    assert_eq!(cut_text("héllo", 3), "hé");
    assert_eq!(cut_text("héllo", 100), "héllo");
    assert_eq!(cut_text("", 0), "");
}
