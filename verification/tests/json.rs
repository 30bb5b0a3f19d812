use chat_relay::json::{position, Json};
use chat_relay::parse::parse_document;
use chat_relay::text::text_eq;

fn text(s: &str) -> Json {
    Json::Text(s.to_string())
}

fn number(s: &str) -> Json {
    Json::Number(s.parse().unwrap())
}

fn object(members: Vec<(&str, Json)>) -> Json {
    Json::Object(members.into_iter().map(|(k, v)| (k.to_string(), v)).collect())
}

#[test]
fn text_equality() {
    assert!(text_eq("", ""));
    assert!(text_eq("model", "model"));
    assert!(!text_eq("model", "models"));
    assert!(!text_eq("model", "modal"));
    assert!(!text_eq("\u{e9}", "e"));
    assert!(text_eq("\u{4f60}\u{597d}", "\u{4f60}\u{597d}"));
}

#[test]
fn parse_reads_every_kind_of_value() {
    assert_eq!(parse_document("null"), Some(Json::Null));
    assert_eq!(parse_document("true"), Some(Json::Bool(true)));
    assert_eq!(parse_document(" false "), Some(Json::Bool(false)));
    assert_eq!(parse_document("12"), Some(number("12")));
    assert_eq!(parse_document("-3"), Some(number("-3")));
    assert_eq!(parse_document("1.5"), Some(number("1.5")));
    assert_eq!(parse_document("\"a\\u00e9\""), Some(text("a\u{e9}")));
    assert_eq!(parse_document("[1,[\"x\"],{}]"), Some(Json::Array(vec![number("1"), Json::Array(vec![text("x")]), object(vec![])])));
    let doc = parse_document("{\"a\":{\"b\":[null]}}").unwrap();
    assert_eq!(doc, object(vec![("a", object(vec![("b", Json::Array(vec![Json::Null]))]))]));
}

#[test]
fn parse_refuses_what_is_no_document() {
    for bad in ["", "{", "[DONE]", "{\"a\":}", "nul", "{\"a\":1}x", "'a'"] {
        assert_eq!(parse_document(bad), None, "{}", bad);
    }
}

#[test]
fn parse_keeps_the_last_of_two_equal_keys() {
    let doc = parse_document("{\"a\":1,\"a\":2}").unwrap();
    assert_eq!(doc.get("a"), Some(&number("2")));
    match doc {
        Json::Object(members) => assert_eq!(members.len(), 1),
        _ => unreachable!(),
    }
}

#[test]
fn get_finds_the_first_member() {
    let doc = object(vec![("a", number("1")), ("b", number("2")), ("a", number("3"))]);
    assert_eq!(doc.get("a"), Some(&number("1")));
    assert_eq!(doc.get("b"), Some(&number("2")));
    assert_eq!(doc.get("c"), None);
    assert_eq!(text("a").get("a"), None);
    assert_eq!(Json::Array(vec![text("a")]).get("a"), None);
}

#[test]
fn position_of_a_key() {
    let members = vec![("a".to_string(), Json::Null), ("b".to_string(), Json::Null), ("a".to_string(), Json::Null)];
    assert_eq!(position(&members, "a"), 0);
    assert_eq!(position(&members, "b"), 1);
    assert_eq!(position(&members, "c"), 3);
    assert_eq!(position(&Vec::new(), "a"), 0);
}

#[test]
fn at_and_as_text_and_array_len() {
    let list = Json::Array(vec![text("x"), Json::Null]);
    assert_eq!(list.at(0), Some(&text("x")));
    assert_eq!(list.at(1), Some(&Json::Null));
    assert_eq!(list.at(2), None);
    assert_eq!(object(vec![("0", Json::Null)]).at(0), None);
    assert_eq!(text("x").as_text(), Some("x"));
    assert_eq!(number("1").as_text(), None);
    assert_eq!(list.array_len(), Some(2));
    assert_eq!(Json::Array(vec![]).array_len(), Some(0));
    assert_eq!(object(vec![]).array_len(), None);
}

#[test]
fn with_member_binds_or_rebinds() {
    let doc = object(vec![("a", number("1"))]);
    let doc = doc.with_member("b".to_string(), number("2"));
    assert_eq!(doc, object(vec![("a", number("1")), ("b", number("2"))]));
    let doc = doc.with_member("a".to_string(), Json::Null);
    assert_eq!(doc, object(vec![("a", Json::Null), ("b", number("2"))]));
    assert_eq!(text("x").with_member("a".to_string(), Json::Null), text("x"));
    assert_eq!(Json::object(), object(vec![]));
    assert_eq!(Json::text("x"), text("x"));
}

#[test]
fn without_member_takes_every_member_with_the_key() {
    let doc = object(vec![("a", number("1")), ("b", number("2")), ("a", number("3")), ("c", Json::Null)]);
    let doc = doc.without_member("a");
    assert_eq!(doc, object(vec![("b", number("2")), ("c", Json::Null)]));
    assert_eq!(doc.get("a"), None);
    let doc = doc.without_member("missing");
    assert_eq!(doc, object(vec![("b", number("2")), ("c", Json::Null)]));
    assert_eq!(Json::Null.without_member("a"), Json::Null);
}

#[test]
fn with_item_appends() {
    let list = Json::Array(vec![]).with_item(number("1")).with_item(text("x"));
    assert_eq!(list, Json::Array(vec![number("1"), text("x")]));
    assert_eq!(object(vec![]).with_item(Json::Null), object(vec![]));
}

#[test]
fn duplicate_is_equal_and_apart() {
    let doc = parse_document("{\"a\":[1,{\"b\":\"c\"},null,true],\"d\":{\"e\":-0.25}}").unwrap();
    let copy = doc.duplicate();
    assert_eq!(copy, doc);
    assert_eq!(doc.clone(), doc);
    let changed = copy.with_member("a".to_string(), Json::Null);
    assert_ne!(changed, doc);
    assert_eq!(doc.get("a").unwrap().array_len(), Some(4));
}
