use json_parser::{JsonError, JsonNumber, JsonObject, JsonType};

#[test]
fn set_bool_then_get_bool() {
    let mut o = JsonObject::new();
    o.set_bool("flag", true);
    assert_eq!(o.get_bool("flag"), Ok(true));
    o.set_bool("flag", false);
    assert_eq!(o.get_bool("flag"), Ok(false));
}

#[test]
fn set_number_then_get_number() {
    let mut o = JsonObject::new();
    o.set_number("n", JsonNumber::from_u64(42));
    assert_eq!(o.get_number("n"), Ok(JsonNumber::from_u64(42)));
}

#[test]
fn set_string_then_get_string() {
    let mut o = JsonObject::new();
    o.set_string("greeting", "hello");
    assert_eq!(o.get_string("greeting"), Ok("hello".to_string()));
}

#[test]
fn set_array_then_get_array() {
    let mut o = JsonObject::new();
    o.set_array("xs", vec![JsonType::Bool(true), JsonType::Null]);
    assert_eq!(
        o.get_array("xs"),
        Ok(vec![JsonType::Bool(true), JsonType::Null])
    );
}

#[test]
fn push_obj_then_get_obj() {
    let mut o = JsonObject::new();
    o.push_obj("nested");
    assert_eq!(o.get_obj("nested"), Ok(JsonObject::new()));
}

#[test]
fn set_null_then_get() {
    let mut o = JsonObject::new();
    o.set_null("nothing");
    assert_eq!(o.get("nothing"), Ok(JsonType::Null));
}

#[test]
fn absent_key_every_getter_reports_key_not_found() {
    let mut o = JsonObject::new();
    o.set_bool("present", true);
    assert_eq!(o.get("absent"), Err(JsonError::KeyNotFound));
    assert_eq!(o.get_bool("absent"), Err(JsonError::KeyNotFound));
    assert_eq!(o.get_number("absent"), Err(JsonError::KeyNotFound));
    assert_eq!(o.get_string("absent"), Err(JsonError::KeyNotFound));
    assert_eq!(o.get_array("absent"), Err(JsonError::KeyNotFound));
    assert_eq!(o.get_obj("absent"), Err(JsonError::KeyNotFound));
    assert_eq!(o.get_obj_ref("absent"), Err(JsonError::KeyNotFound));
}

#[test]
fn mismatched_type_every_other_getter_reports_wrong_type() {
    let mut o = JsonObject::new();
    o.set_string("k", "text");
    assert_eq!(o.get_string("k"), Ok("text".to_string()));
    assert_eq!(o.get_bool("k"), Err(JsonError::WrongTypeValueRequest));
    assert_eq!(o.get_number("k"), Err(JsonError::WrongTypeValueRequest));
    assert_eq!(o.get_array("k"), Err(JsonError::WrongTypeValueRequest));
    assert_eq!(o.get_obj("k"), Err(JsonError::WrongTypeValueRequest));
    assert_eq!(o.get_obj_ref("k"), Err(JsonError::WrongTypeValueRequest));
    // the untyped get still succeeds
    assert_eq!(o.get("k"), Ok(JsonType::String("text".to_string())));
}

#[test]
fn resetting_a_key_keeps_its_position() {
    let mut o = JsonObject::new();
    o.set_number("a", JsonNumber::from_u64(1));
    o.set_string("b", "x");
    o.set_number("a", JsonNumber::from_u64(2));
    let keys: Vec<&str> = o.children.iter().map(|p| p.0.as_str()).collect();
    assert_eq!(keys, vec!["a", "b"]);
    assert_eq!(o.get_number("a"), Ok(JsonNumber::from_u64(2)));
}

#[test]
fn duplicate_keys_lookup_returns_first_occurrence() {
    // bypassing the setter API can produce duplicates; lookups take the first
    let mut o = JsonObject::new();
    o.children.push(("k".to_string(), JsonType::Bool(true)));
    o.children.push(("k".to_string(), JsonType::Bool(false)));
    assert_eq!(o.get_bool("k"), Ok(true));
}

#[test]
fn get_obj_ref_edits_in_place() {
    let mut o = JsonObject::new();
    o.set_bool("before", true);
    o.push_obj("inner");
    o.set_bool("after", false);
    {
        let inner = o.get_obj_ref("inner").unwrap();
        inner.set_string("type", "dialogue");
        inner.set_string("next", "n002");
    }
    let inner = o.get_obj("inner").unwrap();
    assert_eq!(inner.get_string("type"), Ok("dialogue".to_string()));
    assert_eq!(inner.get_string("next"), Ok("n002".to_string()));
    let keys: Vec<&str> = o.children.iter().map(|p| p.0.as_str()).collect();
    assert_eq!(keys, vec!["before", "inner", "after"]);
}

#[test]
fn stringify_empty_object() {
    let o = JsonObject::new();
    assert_eq!(o.stringify(), "{\n}");
}

#[test]
fn stringify_one_string_member() {
    let mut o = JsonObject::new();
    o.set_string("a", "x");
    assert_eq!(o.stringify(), "{\n  \"a\": \"x\",\n}");
}

#[test]
fn stringify_scalars_and_null() {
    let mut o = JsonObject::new();
    o.set_bool("t", true);
    o.set_bool("f", false);
    o.set_number("n", JsonNumber::from_u64(7));
    o.set_null("z");
    assert_eq!(
        o.stringify(),
        "{\n  \"t\": true,\n  \"f\": false,\n  \"n\": 7,\n  \"z\": null,\n}"
    );
}

#[test]
fn stringify_array_with_null_keeps_earlier_elements() {
    let mut o = JsonObject::new();
    o.set_array(
        "xs",
        vec![
            JsonType::Bool(true),
            JsonType::Null,
            JsonType::Number(JsonNumber::from_u64(3)),
        ],
    );
    assert_eq!(
        o.stringify(),
        "{\n  \"xs\": [\n    true,\n    null,\n    3,\n  ],\n}"
    );
}

#[test]
fn stringify_nested_object_indents_two_spaces_per_level() {
    let mut o = JsonObject::new();
    o.push_obj("outer");
    {
        let outer = o.get_obj_ref("outer").unwrap();
        outer.set_string("k", "v");
        outer.push_obj("deep");
        let deep = outer.get_obj_ref("deep").unwrap();
        deep.set_bool("b", true);
    }
    assert_eq!(
        o.stringify(),
        "{\n  \"outer\": {\n    \"k\": \"v\",\n    \"deep\": {\n      \"b\": true,\n    },\n  },\n}"
    );
}

#[test]
fn number_from_u64_prints_its_digits() {
    assert_eq!(JsonNumber::from_u64(0).digits(), "0");
    assert_eq!(JsonNumber::from_u64(9).digits(), "9");
    assert_eq!(JsonNumber::from_u64(1234).digits(), "1234");
}

#[test]
fn number_from_digits_normalizes() {
    assert_eq!(JsonNumber::from_digits("007").unwrap().digits(), "7");
    assert_eq!(JsonNumber::from_digits("1.50").unwrap().digits(), "1.5");
    assert_eq!(JsonNumber::from_digits("0.25").unwrap().digits(), "0.25");
    assert_eq!(JsonNumber::from_digits("10.0").unwrap().digits(), "10");
    assert_eq!(JsonNumber::from_digits("000").unwrap().digits(), "0");
    assert_eq!(JsonNumber::from_digits("1.05").unwrap().digits(), "1.05");
}

#[test]
fn number_from_digits_rejects_malformed_text() {
    assert!(matches!(
        JsonNumber::from_digits("1.2.3"),
        Err(JsonError::MalformedInput { .. })
    ));
    assert!(matches!(
        JsonNumber::from_digits(""),
        Err(JsonError::MalformedInput { .. })
    ));
    assert!(matches!(
        JsonNumber::from_digits(".5"),
        Err(JsonError::MalformedInput { .. })
    ));
    assert!(matches!(
        JsonNumber::from_digits("5."),
        Err(JsonError::MalformedInput { .. })
    ));
    assert!(matches!(
        JsonNumber::from_digits("-1"),
        Err(JsonError::MalformedInput { .. })
    ));
    assert!(matches!(
        JsonNumber::from_digits("1e3"),
        Err(JsonError::MalformedInput { .. })
    ));
}
