use json_parser::{JsonError, JsonNumber, JsonObject, JsonType, Parser};

fn parse_text(text: &str) -> Result<JsonObject, JsonError> {
    let mut p = Parser::new();
    p.load(text);
    p.parse()
}

#[test]
fn empty_object_parses() {
    let o = parse_text("{}").unwrap();
    assert_eq!(o, JsonObject::new());
    assert_eq!(o.len(), 0);
}

#[test]
fn empty_object_with_whitespace_parses() {
    let o = parse_text("  { \n\t } ").unwrap();
    assert_eq!(o.len(), 0);
}

#[test]
fn scalars_and_array_parse_to_typed_values() {
    let o = parse_text("{\"a\": 1, \"b\": [true, false, null]}").unwrap();
    assert_eq!(o.get("a"), Ok(JsonType::Number(JsonNumber::from_u64(1))));
    assert_eq!(
        o.get_array("b"),
        Ok(vec![
            JsonType::Bool(true),
            JsonType::Bool(false),
            JsonType::Null
        ])
    );
}

#[test]
fn second_decimal_point_is_malformed() {
    assert!(matches!(
        parse_text("{\"a\": 1.2.3}"),
        Err(JsonError::MalformedInput { .. })
    ));
}

#[test]
fn parse_twice_without_reload_is_misuse() {
    let mut p = Parser::new();
    p.load("{\"a\": true}");
    assert!(p.parse().is_ok());
    assert_eq!(p.parse(), Err(JsonError::MisuseError));
}

#[test]
fn load_rearms_the_parser() {
    let mut p = Parser::new();
    p.load("{\"a\": true}");
    assert!(p.parse().is_ok());
    p.load("{\"b\": false}");
    let o = p.parse().unwrap();
    assert_eq!(o.get_bool("b"), Ok(false));
}

#[test]
fn parser_stays_usable_after_a_failure() {
    let mut p = Parser::new();
    p.load("{\"a\": @}");
    assert!(matches!(
        p.parse(),
        Err(JsonError::MalformedInput { .. })
    ));
    p.load("{\"a\": 1}");
    assert!(p.parse().is_ok());
}

#[test]
fn dialogue_node_scenario() {
    let text =
        "{\"n001\":{\"type\":\"dialogue\",\"character\":\"Bob\",\"dialogue\":\"Hi\",\"next\":\"n002\"}}";
    let o = parse_text(text).unwrap();
    assert_eq!(o.len(), 1);
    let node = o.get_obj("n001").unwrap();
    assert_eq!(node.get_string("type"), Ok("dialogue".to_string()));
    assert_eq!(node.get_string("next"), Ok("n002".to_string()));
    assert_eq!(node.get_string("character"), Ok("Bob".to_string()));
    assert_eq!(node.get_string("dialogue"), Ok("Hi".to_string()));
}

#[test]
fn numbers_are_normalized_while_parsing() {
    let o = parse_text("{\"a\": 007.50}").unwrap();
    assert_eq!(o.get_number("a").unwrap().digits(), "7.5");
}

#[test]
fn whitespace_around_colon_and_members_is_skipped() {
    let o = parse_text("{ \"a\" :\t1 ,\n \"b\" : \"x\" }").unwrap();
    assert_eq!(o.get_number("a").unwrap().digits(), "1");
    assert_eq!(o.get_string("b"), Ok("x".to_string()));
}

#[test]
fn trailing_comma_is_tolerated() {
    let o = parse_text("{\"a\": 1,}").unwrap();
    assert_eq!(o.len(), 1);
    let o2 = parse_text("{\"xs\": [1, 2,],}").unwrap();
    assert_eq!(o2.get_array("xs").unwrap().len(), 2);
}

#[test]
fn empty_array_parses() {
    let o = parse_text("{\"xs\": [ ]}").unwrap();
    assert_eq!(o.get_array("xs"), Ok(vec![]));
}

#[test]
fn nested_objects_parse() {
    let o = parse_text("{\"a\": {\"b\": {\"c\": true}}}").unwrap();
    let a = o.get_obj("a").unwrap();
    let b = a.get_obj("b").unwrap();
    assert_eq!(b.get_bool("c"), Ok(true));
}

#[test]
fn strings_keep_inner_whitespace_verbatim() {
    let o = parse_text("{\"a\": \" spaced\tout \"}").unwrap();
    assert_eq!(o.get_string("a"), Ok(" spaced\tout ".to_string()));
}

#[test]
fn text_after_the_document_is_ignored() {
    let o = parse_text("{\"a\": 1} trailing").unwrap();
    assert_eq!(o.len(), 1);
}

#[test]
fn malformed_inputs_are_reported_not_fatal() {
    for text in [
        "",
        "   ",
        "x",
        "{",
        "{\"a\"",
        "{\"a\"}",
        "{\"a\": }",
        "{\"a\": 1",
        "{\"a\": tru}",
        "{\"a\": nul}",
        "{\"a\": 1 2}",
        "{\"a\": \"unterminated}",
        "{\"\": 1}",
        "{\"a\": [1,}",
        "{\"a\": 1.}",
        "{\"a\": .5}",
        "[1]",
        "true",
    ] {
        assert!(
            matches!(parse_text(text), Err(JsonError::MalformedInput { .. })),
            "expected MalformedInput for {:?}",
            text
        );
    }
}

#[test]
fn malformed_error_carries_position_and_found_character() {
    match parse_text("{\"a\": @}") {
        Err(JsonError::MalformedInput { pos, found, .. }) => {
            assert_eq!(pos, 6);
            assert_eq!(found, Some('@'));
        }
        other => panic!("expected MalformedInput, got {:?}", other),
    }
}

#[test]
fn round_trip_reproduces_the_document() {
    let mut node = JsonObject::new();
    node.set_string("type", "dialogue");
    node.set_string("character", "Bob");
    node.set_string("dialogue", "Hi there");
    node.set_number("weight", JsonNumber::from_digits("0.5").unwrap());
    node.set_bool("terminal", false);
    node.set_null("condition");
    node.set_array(
        "tags",
        vec![
            JsonType::String("intro".to_string()),
            JsonType::Number(JsonNumber::from_u64(3)),
            JsonType::Null,
        ],
    );
    let mut doc = JsonObject::new();
    doc.set_array("ids", vec![]);
    doc.children.push(("n001".to_string(), JsonType::Object(node)));
    doc.push_obj("empty");

    let text = doc.stringify();
    let reparsed = parse_text(&text).unwrap();
    assert_eq!(reparsed, doc);
}

#[test]
fn round_trip_twice_is_stable() {
    let mut doc = JsonObject::new();
    doc.set_string("a", "x y\tz");
    doc.set_number("b", JsonNumber::from_u64(10));
    let text = doc.stringify();
    let once = parse_text(&text).unwrap();
    let text2 = once.stringify();
    assert_eq!(text, text2);
    assert_eq!(parse_text(&text2).unwrap(), doc);
}
