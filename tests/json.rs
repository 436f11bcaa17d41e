use gamecode_cli::json::Json;

#[test]
fn parses_nested_document() {
    let doc = Json::from_text("{\"a\": [1, 2.5, \"x\", null, true], \"b\": {\"c\": -7}}").unwrap();
    let items = doc.get("a").unwrap().as_array().unwrap();
    assert_eq!(items.len(), 5);
    assert!(matches!(items[0], Json::Int(1)));
    match &items[1] {
        Json::Number(t) => assert_eq!(t, "2.5"),
        _ => panic!("expected a non-integer number"),
    }
    assert_eq!(items[2].as_str().unwrap(), "x");
    assert!(matches!(items[3], Json::Null));
    assert!(matches!(items[4], Json::Bool(true)));
    assert!(matches!(doc.get("b").unwrap().get("c"), Some(Json::Int(-7))));
    assert!(doc.get("missing").is_none());
}

#[test]
fn rejects_text_that_is_not_json() {
    assert!(Json::from_text("{").is_none());
    assert!(Json::from_text("").is_none());
    assert!(Json::from_text("not json").is_none());
}

#[test]
fn writes_compact_text() {
    let doc = Json::from_text("{ \"k\" : [ 1 , \"v\" ] , \"n\" : null }").unwrap();
    assert_eq!(doc.to_text(), "{\"k\":[1,\"v\"],\"n\":null}");
    assert_eq!(Json::Int(42).to_text(), "42");
    assert_eq!(Json::Str("a\nb".to_string()).to_text(), "\"a\\nb\"");
}

#[test]
fn copy_keeps_the_value() {
    let doc = Json::from_text("{\"x\":[{\"y\":\"z\"}],\"w\":1.5e3}").unwrap();
    assert_eq!(doc.copy().to_text(), doc.to_text());
}

#[test]
fn large_numbers_survive_a_round_trip() {
    let doc = Json::from_text("[18446744073709551615, -3]").unwrap();
    assert_eq!(doc.to_text(), "[18446744073709551615,-3]");
}
