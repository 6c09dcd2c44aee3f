use brackets::scanner::JsonDecoder;
use brackets::{JsonArray, JsonObject, ToJson};

fn chars(s: &str) -> Vec<char> {
    s.chars().collect()
}

#[test]
fn decoder_reads_key_then_value() {
    let s = chars("\"name\" : \"a b\", \"n\": 12}");
    let mut pos: usize = 1;
    assert_eq!(JsonDecoder::derive_key(&s, &mut pos), "name");
    assert_eq!(JsonDecoder::derive_value(&s, &mut pos).unwrap(), "a b");
    let mut rest = pos;
    while s[rest] != '"' {
        rest += 1;
    }
    rest += 1;
    assert_eq!(JsonDecoder::derive_key(&s, &mut rest), "n");
    assert_eq!(JsonDecoder::derive_value(&s, &mut rest).unwrap(), "12");
    assert_eq!(rest, s.len());
}

#[test]
fn decoder_keeps_nested_delimiters() {
    let s = chars("{\"a\": [1, 2], \"b\": {\"c\": 1}}, 5");
    let mut pos: usize = 0;
    assert_eq!(JsonDecoder::derive_value(&s, &mut pos).unwrap(), "\"a\":[1,2],\"b\":{\"c\": 1}");
    assert_eq!(JsonDecoder::derive_value(&s, &mut pos).unwrap(), "5");
    assert!(JsonDecoder::derive_value(&s, &mut pos).is_none());
}

#[test]
fn decoder_escaped_quote_does_not_close() {
    let s = chars("\"say \\\"hi\\\"\",");
    let mut pos: usize = 0;
    assert_eq!(JsonDecoder::derive_value(&s, &mut pos).unwrap(), "say \\\"hi\\\"");
    assert_eq!(pos, s.len() - 1);
}

#[test]
fn defaults_are_empty() {
    assert_eq!(JsonObject::default().to_json(), "{}");
    assert_eq!(JsonArray::default().to_json(), "[]");
}

#[test]
fn nested_store_values() {
    let obj = JsonObject::from_string("{\"o\": {\"x\": 1}, \"a\": [\"p\", \"q\"]}").unwrap();
    let inner = obj.get::<JsonObject>("o").unwrap();
    assert_eq!(inner.get::<i32>("x").unwrap(), 1);
    let arr = obj.get::<JsonArray>("a").unwrap();
    assert_eq!(arr.map::<String>().unwrap(), vec!["p".to_string(), "q".to_string()]);
}
