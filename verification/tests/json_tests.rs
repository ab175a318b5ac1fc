use mteam_query::client::download_token_body;
use mteam_query::json::json_string;

#[test]
fn json_strings_are_quoted_and_escaped() {
    assert_eq!(json_string(""), "\"\"");
    assert_eq!(json_string("dune"), "\"dune\"");
    assert_eq!(json_string("a\"b\\c"), "\"a\\\"b\\\\c\"");
    assert_eq!(json_string("\u{8}\u{c}\n\r\t"), "\"\\b\\f\\n\\r\\t\"");
    assert_eq!(json_string("\u{0}\u{1f}\u{b}"), "\"\\u0000\\u001f\\u000b\"");
    assert_eq!(json_string("沙丘 / \u{7f}"), "\"沙丘 / \u{7f}\"");
}

#[test]
fn json_strings_match_serde_json() {
    let mut every_low_char = String::new();
    for code in 0u32..0x80 {
        every_low_char.push(char::from_u32(code).unwrap());
    }
    for text in [
        "",
        "plain",
        "say \"hi\"\n\\ 沙丘 \u{1}\t",
        "\\\\\"\"",
        "é😀\u{2028}",
        every_low_char.as_str(),
    ] {
        assert_eq!(json_string(text), serde_json::to_string(text).unwrap());
    }
}

#[test]
fn token_request_body_matches_serde_json() {
    assert_eq!(download_token_body("12345"), "{\"id\":\"12345\"}");
    for id in ["", "987654", "a\"b"] {
        let mut map = serde_json::Map::new();
        map.insert("id".to_string(), serde_json::Value::from(id));
        assert_eq!(
            download_token_body(id),
            serde_json::to_string(&serde_json::Value::Object(map)).unwrap()
        );
    }
}
