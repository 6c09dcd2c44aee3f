use brackets::{FromJson, JsonArray, JsonObject, JsonParseError, JsonRetrieve, JsonType, ToJson};

fn store_round_trip<T: ToJson + JsonRetrieve>(x: T) -> T {
    let mut obj = JsonObject::empty();
    obj.set("k", x);
    let text = obj.to_json();
    JsonObject::from_string(&text).unwrap().get::<T>("k").unwrap()
}

#[test]
fn primitive_round_trip() {
    for x in [0i32, 1, -1, 42, i32::MIN, i32::MAX] {
        assert_eq!(store_round_trip(x), x);
    }
    for x in [0i64, -7, i64::MIN, i64::MAX] {
        assert_eq!(store_round_trip(x), x);
    }
    assert_eq!(store_round_trip(true), true);
    assert_eq!(store_round_trip(false), false);
}

#[test]
fn integer_texts() {
    assert_eq!(0i32.to_json(), "0");
    assert_eq!((-15i32).to_json(), "-15");
    assert_eq!(i64::MIN.to_json(), "-9223372036854775808");
    assert_eq!(4294967295u32.to_json(), "4294967295");
    assert_eq!(u64::MAX.to_json(), "18446744073709551615");
    assert_eq!(true.to_json(), "true");
    assert_eq!(false.to_json(), "false");
}

#[test]
fn integer_grammar() {
    assert_eq!(i32::parse("n".to_string(), Some(&"+12".to_string())).unwrap(), 12);
    assert_eq!(i32::parse("n".to_string(), Some(&"-0".to_string())).unwrap(), 0);
    assert!(i32::parse("n".to_string(), Some(&"2147483648".to_string())).is_err());
    assert_eq!(i32::parse("n".to_string(), Some(&"-2147483648".to_string())).unwrap(), i32::MIN);
    assert!(i32::parse("n".to_string(), Some(&"-".to_string())).is_err());
    assert!(i32::parse("n".to_string(), Some(&"".to_string())).is_err());
    assert!(i64::parse("n".to_string(), Some(&"1 2".to_string())).is_err());
}

#[test]
fn text_escaping_round_trip() {
    let s = "back\\slash \"quote\" new\nline\ttab".to_string();
    assert_eq!(s.to_json(), "\"back\\\\slash \\\"quote\\\" new\\nline\\ttab\"");
    assert_eq!(store_round_trip(s.clone()), s);
}

#[test]
fn str_to_json() {
    assert_eq!("a\"b".to_json(), "\"a\\\"b\"");
}

#[derive(Debug, PartialEq, Clone)]
struct Inner {
    string_value: String,
    number_value: i32,
}

#[derive(Debug, PartialEq)]
struct Outer {
    name: String,
    inner: Inner,
    items: Vec<Inner>,
}

impl ToJson for Inner {
    fn to_json(&self) -> String {
        let mut o = JsonObject::empty();
        o.set("string_value", self.string_value.clone());
        o.set("number_value", self.number_value);
        o.to_json()
    }
}

impl FromJson for Inner {
    fn from_json(json: &JsonObject) -> Result<Inner, JsonParseError> {
        Ok(Inner { string_value: json.get("string_value")?, number_value: json.get("number_value")? })
    }
}

impl ToJson for Outer {
    fn to_json(&self) -> String {
        let mut o = JsonObject::empty();
        o.set("name", self.name.clone());
        o.set("inner", self.inner.clone());
        o.set("items", self.items.clone());
        o.to_json()
    }
}

impl FromJson for Outer {
    fn from_json(json: &JsonObject) -> Result<Outer, JsonParseError> {
        Ok(Outer { name: json.get("name")?, inner: json.get("inner")?, items: json.get("items")? })
    }
}

#[test]
fn nested_record_round_trip() {
    let a = Inner { string_value: "first one".to_string(), number_value: 1 };
    let b = Inner { string_value: "second".to_string(), number_value: -2 };
    let x = Outer { name: "outer \"x\"".to_string(), inner: a.clone(), items: vec![a, b] };
    let text = x.to_json();
    let back = Outer::from_json(&JsonObject::from_string(&text).unwrap()).unwrap();
    assert_eq!(back, x);
}

#[test]
fn missing_and_mistyped_keys() {
    let obj = JsonObject::from_string("{\"a\":\"text\",\"n\":5}").unwrap();
    match obj.get::<i32>("b") {
        Err(JsonParseError::NotFound(k)) => assert_eq!(k, "b"),
        _ => panic!("expected NotFound"),
    }
    match obj.get::<i32>("a") {
        Err(JsonParseError::InvalidType(k, t)) => {
            assert_eq!(k, "a");
            assert_eq!(t, "i32");
        }
        _ => panic!("expected InvalidType"),
    }
    match obj.get::<bool>("n") {
        Err(JsonParseError::InvalidType(k, t)) => {
            assert_eq!(k, "n");
            assert_eq!(t, "bool");
        }
        _ => panic!("expected InvalidType"),
    }
    assert_eq!(obj.get::<i64>("n").unwrap(), 5);
}

#[test]
fn optional_fields() {
    let obj = JsonObject::from_string("{\"n\":null,\"v\":3}").unwrap();
    assert_eq!(obj.get::<Option<i32>>("missing").unwrap(), None);
    assert_eq!(obj.get::<Option<i32>>("n").unwrap(), None);
    assert_eq!(obj.get::<Option<i32>>("v").unwrap(), Some(3));
    assert_eq!(Some(4i32).to_json(), "4");
    assert_eq!(None::<i32>.to_json(), "null");
}

#[test]
fn empty_containers() {
    assert_eq!(Vec::<i32>::new().to_json(), "[]");
    assert_eq!(JsonObject::empty().to_json(), "{}");
    assert_eq!(JsonArray::empty().to_json(), "[]");
    assert_eq!(vec![1i32, 2, 3].to_json(), "[1,2,3]");
}

#[test]
fn end_to_end_scenario() {
    let text = r#"{"string_value":"Some Text Here","number_value":1,"object_value":{"string_value":"Some Text Here 2","number_value":2},"array_nums":[0,1,2],"array_bools":[true,false],"string_with_quotes":"Hello \"World!\""}"#;
    let obj = JsonObject::from_string(text).unwrap();
    assert_eq!(obj.get::<String>("string_value").unwrap(), "Some Text Here");
    assert_eq!(obj.get::<i32>("number_value").unwrap(), 1);
    assert_eq!(obj.get::<Inner>("object_value").unwrap().number_value, 2);
    assert_eq!(obj.get::<Vec<i32>>("array_nums").unwrap(), vec![0, 1, 2]);
    assert_eq!(obj.get::<Vec<bool>>("array_bools").unwrap(), vec![true, false]);
    assert_eq!(obj.get::<String>("string_with_quotes").unwrap(), "Hello \"World!\"");
}

struct Wrapper {
    object_value: Inner,
}

impl FromJson for Wrapper {
    fn from_json(json: &JsonObject) -> Result<Wrapper, JsonParseError> {
        Ok(Wrapper { object_value: json.get("object_value")? })
    }
}

#[test]
fn array_of_nested_records() {
    let text = r#"{"object_value":{"string_value":"a","number_value":1}},{"object_value":{"string_value":"b","number_value":2}}"#;
    let arr = JsonArray::from_string(text).unwrap();
    let items = arr.map::<Wrapper>().unwrap();
    assert_eq!(items.len(), 2);
    assert_eq!(items[0].object_value.number_value, 1);
    assert_eq!(items[1].object_value.number_value, 2);
}

#[test]
fn map_fails_fast_with_index() {
    let arr = JsonArray::from_string("1,x,3").unwrap();
    match arr.map::<i32>() {
        Err(JsonParseError::InvalidType(k, t)) => {
            assert_eq!(k, "1");
            assert_eq!(t, "i32");
        }
        _ => panic!("expected InvalidType"),
    }
    assert_eq!(arr.map_drop::<i32>(), vec![1, 3]);
    assert_eq!(JsonArray::empty().map::<i32>().unwrap(), Vec::<i32>::new());
}

#[test]
fn array_get_by_index() {
    let arr = JsonArray::from_string("\"a\",\"b\"").unwrap();
    assert_eq!(arr.get::<String>(1).unwrap(), "b");
    match arr.get::<String>(2) {
        Err(JsonParseError::NotFound(k)) => assert_eq!(k, "2"),
        _ => panic!("expected NotFound"),
    }
    assert_eq!(arr.to_json(), "[a,b]");
}

#[test]
fn later_key_wins() {
    let obj = JsonObject::from_string("{\"a\":1,\"a\":2}").unwrap();
    assert_eq!(obj.get::<i32>("a").unwrap(), 2);
    assert_eq!(obj.to_json(), "{\"a\":2}");
    let mut o = JsonObject::empty();
    o.set("k", 1i32);
    o.set("k", 2i32);
    assert_eq!(o.to_json(), "{\"k\":2}");
}

#[test]
fn truncated_input() {
    assert!(matches!(JsonObject::from_string("{\"a\": \"open"), Err(JsonParseError::UnexpectedEndOfInput)));
    assert!(matches!(JsonObject::from_string("{\"a\":"), Err(JsonParseError::UnexpectedEndOfInput)));
    assert!(matches!(JsonArray::from_string("[1,2"), Err(JsonParseError::UnexpectedEndOfInput)));
}

#[test]
fn classifier() {
    assert_eq!(JsonType::type_for_delimiter('['), JsonType::Array);
    assert_eq!(JsonType::type_for_delimiter('{'), JsonType::Object);
    assert_eq!(JsonType::type_for_delimiter('"'), JsonType::String);
    assert_eq!(JsonType::type_for_delimiter('7'), JsonType::Primitive);
    assert!(JsonType::Primitive.character_ends_type('}'));
    assert!(!JsonType::String.character_ends_type('}'));
    assert!(JsonType::String.should_increment('a', '"', 2));
    assert!(!JsonType::String.should_increment('\\', '"', 2));
    assert!(JsonType::String.should_decrement('a', '"', 1));
    assert!(JsonType::Object.should_decrement('a', '}', 3));
}

#[test]
fn whitespace_kept_inside_text_only() {
    let obj = JsonObject::from_string("{ \"a\" : [ 1 , 2 ], \"b\": \" x y \" }").unwrap();
    assert_eq!(obj.get::<Vec<i32>>("a").unwrap(), vec![1, 2]);
    assert_eq!(obj.get::<String>("b").unwrap(), " x y ");
}

#[test]
fn hash_map_text() {
    let empty: std::collections::HashMap<String, i32> = std::collections::HashMap::new();
    assert_eq!(empty.to_json(), "{}");
    let mut one = std::collections::HashMap::new();
    one.insert("a".to_string(), 1i32);
    assert_eq!(one.to_json(), "{\"a\":1}");
    let mut two = std::collections::HashMap::new();
    two.insert(1i32, true);
    two.insert(2i32, false);
    let t = two.to_json();
    assert!(t == "{1:true,2:false}" || t == "{2:false,1:true}");
    let back = JsonObject::from_string(&one.to_json()).unwrap();
    assert_eq!(back.get::<i32>("a").unwrap(), 1);
}

#[test]
fn newline_before_value() {
    let obj = JsonObject::from_string("{\"k\":\n\t\"v w\",\"n\":\n  7}").unwrap();
    assert_eq!(obj.get::<String>("k").unwrap(), "v w");
    assert_eq!(obj.get::<i32>("n").unwrap(), 7);
}
