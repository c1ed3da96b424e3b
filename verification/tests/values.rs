use rampipe::json::{parse, set_entry, Json};
use rampipe::protocol::{tools_to_json, ToolSpec};

fn pair(key: &str, value: Json) -> (String, Json) {
    (key.to_string(), value)
}

#[test]
fn values_are_read_as_written() {
    let value = Json::object(vec![
        pair("a", Json::array(vec![Json::Null, Json::Bool(true), Json::text("x\"y\n")])),
        pair("b", Json::object(Vec::new())),
        pair("c", parse("-2.5").expect("a number")),
    ]);
    let text = rampipe::json::write(&value);
    assert_eq!(text, "{\"a\":[null,true,\"x\\\"y\\n\"],\"b\":{},\"c\":-2.5}");
    assert_eq!(parse(&text), Some(value));
}

#[test]
fn keys_are_in_order_and_the_last_value_counts() {
    let value = parse("{\"b\": 1, \"a\": 2, \"b\": 3}").expect("an object");
    assert_eq!(rampipe::json::write(&value), "{\"a\":2,\"b\":3}");
    let mut entries = vec![pair("a", Json::Null), pair("c", Json::Null)];
    set_entry(&mut entries, "b".to_string(), Json::Bool(true));
    set_entry(&mut entries, "a".to_string(), Json::Bool(false));
    assert_eq!(rampipe::json::write(&Json::Object(entries)), "{\"a\":false,\"b\":true,\"c\":null}");
}

#[test]
fn what_is_no_value_is_not_read() {
    for text in ["", "{", "[1,]", "nul", "{} x", "\"open"] {
        assert_eq!(parse(text), None, "{text}");
    }
    let deep = |n: usize| format!("{}{}", "[".repeat(n), "]".repeat(n));
    assert!(parse(&deep(127)).is_some());
    assert!(parse(&deep(128)).is_none());
}

#[test]
fn entries_are_looked_up() {
    let value = parse("{\"name\": \"read\", \"n\": 1}").expect("an object");
    assert_eq!(value.get("name").and_then(Json::as_str), Some("read"));
    assert_eq!(value.get("n").and_then(Json::as_str), None);
    assert!(value.get("name").expect("there").is_text("read"));
    assert!(!value.get("n").expect("there").is_text("1"));
    assert!(value.get("absent").is_none());
    assert!(Json::Null.get("name").is_none());
    assert_eq!(value.copied(), value);
    assert_eq!(value.clone(), value);
}

#[test]
fn tools_have_the_shape_that_templates_read() {
    let tools = [ToolSpec::new("read", "Read a file", parse("{\"type\":\"object\"}").expect("ok"))];
    assert_eq!(
        rampipe::json::write(&tools_to_json(&tools)),
        "[{\"function\":{\"description\":\"Read a file\",\"name\":\"read\",\
         \"parameters\":{\"type\":\"object\"}},\"type\":\"function\"}]"
    );
}
