use json_decorate::format::{custom_format_json, custom_format_json_recursively, is_match};
use json_decorate::schema::{parse_type_definition, Type, TypeDefinition};
use json_decorate::value::{write_canonical, JsonNumber, JsonValue};
use json_decorate::FormatError;

fn node(value_type: Type) -> TypeDefinition {
    TypeDefinition {
        value_type,
        properties: None,
        prefix: None,
        suffix: None,
        key_prefix: None,
        comma_suffix: None,
    }
}

fn canonical(text: &str) -> String {
    serde_json::from_str::<serde_json::Value>(text).unwrap().to_string()
}

#[test]
fn test_deserialize() -> Result<(), FormatError> {
    let json = r#"
        {
  "type": "object",
  "properties": {
    "key": {
      "type": "number",
      "prefix": "\n",
      "suffix": "\n",
      "key-prefix": "\t",
      "comma-suffix": "123"
    }
  }
}
        "#;
    let obj = parse_type_definition(json)?;
    let expect = TypeDefinition {
        value_type: Type::Object,
        properties: Some(vec![(
            "key".to_string(),
            TypeDefinition {
                value_type: Type::Number,
                prefix: Some("\n".to_string()),
                suffix: Some("\n".to_string()),
                properties: None,
                key_prefix: Some("\t".to_string()),
                comma_suffix: Some("123".to_string()),
            },
        )]),
        prefix: None,
        suffix: None,
        key_prefix: None,
        comma_suffix: None,
    };
    assert_eq!(obj, expect);
    Ok(())
}

#[test]
fn test_custom_format_json() -> Result<(), FormatError> {
    let td = TypeDefinition {
        value_type: Type::Object,
        properties: Some(vec![(
            "key".to_string(),
            TypeDefinition {
                value_type: Type::Number,
                properties: None,
                prefix: Some(" ".to_string()),
                suffix: Some(" ".to_string()),
                key_prefix: Some("\n".to_string()),
                comma_suffix: Some("\n".to_string()),
            },
        )]),
        prefix: None,
        suffix: None,
        key_prefix: None,
        comma_suffix: None,
    };
    let result = custom_format_json(r#"{"foo":{},"key":1,"bar":[1,2,3]}"#, &td)?;
    assert_eq!(result, r#"{"foo":{},
"key": 1 ,
"bar":[1,2,3]}"#);
    Ok(())
}

#[test]
fn decoration_placement_from_parsed_schema() {
    let td = parse_type_definition(
        r#"{"type":"object","properties":{"key":{"type":"number","prefix":" ","suffix":" ","key-prefix":"\n","comma-suffix":"\n"}}}"#,
    )
    .unwrap();
    let out = custom_format_json(r#"{"foo":{},"key":1,"bar":[1,2,3]}"#, &td).unwrap();
    assert_eq!(out, "{\"foo\":{},\n\"key\": 1 ,\n\"bar\":[1,2,3]}");
}

#[test]
fn mismatch_passes_through_undecorated() {
    let mut td = node(Type::String);
    td.prefix = Some("<".to_string());
    td.suffix = Some(">".to_string());
    td.properties = Some(vec![("a".to_string(), node(Type::Number))]);
    let out = custom_format_json(r#"{"a": 1, "b": [true, null]}"#, &td).unwrap();
    assert_eq!(out, r#"{"a":1,"b":[true,null]}"#);
}

#[test]
fn mismatch_inside_object_degrades_subtree() {
    let mut child = node(Type::Array);
    child.prefix = Some("P".to_string());
    child.key_prefix = Some("K".to_string());
    child.comma_suffix = Some("C".to_string());
    let mut td = node(Type::Object);
    td.properties = Some(vec![("a".to_string(), child)]);
    let out = custom_format_json(r#"{"a":{"x":1},"b":2}"#, &td).unwrap();
    assert_eq!(out, r#"{K"a":{"x":1},C"b":2}"#);
}

#[test]
fn undecorated_schema_gives_canonical_text() {
    let mut inner = node(Type::Object);
    inner.properties = Some(vec![("y".to_string(), node(Type::String))]);
    let mut td = node(Type::Object);
    td.properties = Some(vec![
        ("x".to_string(), inner),
        ("n".to_string(), node(Type::Integer)),
    ]);
    let text = r#" { "z" : [1, 2.5, "s\n"], "x" : {"y": "q\"t", "w": null}, "n": -3 } "#;
    let out = custom_format_json(text, &td).unwrap();
    assert_eq!(out, canonical(text));
    assert_eq!(out, r#"{"z":[1,2.5,"s\n"],"x":{"y":"q\"t","w":null},"n":-3}"#);
}

#[test]
fn empty_decorations_give_canonical_text() {
    let td = parse_type_definition(
        r#"{"type":"object","prefix":"","properties":{"a":{"type":"boolean","key-prefix":"","comma-suffix":""}}}"#,
    )
    .unwrap();
    let text = r#"{"a":true,"b":false}"#;
    assert_eq!(custom_format_json(text, &td).unwrap(), canonical(text));
}

#[test]
fn unmatched_key_gets_no_sibling_decoration() {
    let mut child = node(Type::Number);
    child.key_prefix = Some("K".to_string());
    child.comma_suffix = Some("C".to_string());
    let mut td = node(Type::Object);
    td.properties = Some(vec![("a".to_string(), child)]);
    let out = custom_format_json(r#"{"b":1,"a":2,"c":3}"#, &td).unwrap();
    assert_eq!(out, r#"{"b":1,K"a":2,C"c":3}"#);
}

#[test]
fn comma_suffix_after_last_member_without_comma() {
    let mut child = node(Type::Number);
    child.comma_suffix = Some("\n".to_string());
    let mut td = node(Type::Object);
    td.properties = Some(vec![("a".to_string(), child)]);
    let out = custom_format_json(r#"{"b":1,"a":2}"#, &td).unwrap();
    assert_eq!(out, "{\"b\":1,\"a\":2\n}");
}

#[test]
fn integer_and_number_distinction() {
    let mut int_node = node(Type::Integer);
    int_node.prefix = Some("<".to_string());
    int_node.suffix = Some(">".to_string());
    let mut num_node = node(Type::Number);
    num_node.prefix = Some("<".to_string());
    num_node.suffix = Some(">".to_string());
    assert_eq!(custom_format_json("1.5", &int_node).unwrap(), "1.5");
    assert_eq!(custom_format_json("1.5", &num_node).unwrap(), "<1.5>");
    assert_eq!(custom_format_json("1", &int_node).unwrap(), "<1>");
    assert_eq!(custom_format_json("1", &num_node).unwrap(), "<1>");
    assert_eq!(custom_format_json("-7", &int_node).unwrap(), "<-7>");
}

#[test]
fn integer_beyond_i64_is_only_a_number() {
    let mut int_node = node(Type::Integer);
    int_node.prefix = Some("<".to_string());
    let mut num_node = node(Type::Number);
    num_node.prefix = Some("<".to_string());
    let big = "9223372036854775808";
    assert_eq!(custom_format_json(big, &int_node).unwrap(), big);
    assert_eq!(custom_format_json(big, &num_node).unwrap(), format!("<{}", big));
    let max = "9223372036854775807";
    assert_eq!(custom_format_json(max, &int_node).unwrap(), format!("<{}", max));
}

#[test]
fn is_match_on_each_type() {
    let frac = JsonValue::Number(JsonNumber { text: "1.5".to_string(), is_i64: false });
    let one = JsonValue::Number(JsonNumber { text: "1".to_string(), is_i64: true });
    assert!(is_match(&frac, Type::Number));
    assert!(!is_match(&frac, Type::Integer));
    assert!(is_match(&one, Type::Number));
    assert!(is_match(&one, Type::Integer));
    assert!(is_match(&JsonValue::Null, Type::Null));
    assert!(!is_match(&JsonValue::Null, Type::Object));
    assert!(is_match(&JsonValue::Bool(false), Type::Boolean));
    assert!(is_match(&JsonValue::String("s".to_string()), Type::String));
    assert!(is_match(&JsonValue::Array(vec![]), Type::Array));
    assert!(is_match(&JsonValue::Object(vec![]), Type::Object));
    assert!(!is_match(&JsonValue::Object(vec![]), Type::Array));
}

#[test]
fn array_is_always_plain() {
    let mut td = node(Type::Array);
    td.prefix = Some("(".to_string());
    td.suffix = Some(")".to_string());
    td.properties = Some(vec![("a".to_string(), node(Type::Number))]);
    let out = custom_format_json(r#"[ {"a": 1}, 2 ]"#, &td).unwrap();
    assert_eq!(out, r#"([{"a":1},2])"#);
}

#[test]
fn object_without_properties_keeps_prefix_and_suffix() {
    let mut td = node(Type::Object);
    td.prefix = Some("[[".to_string());
    td.suffix = Some("]]".to_string());
    let out = custom_format_json(r#"{"a": {"b": "c"}}"#, &td).unwrap();
    assert_eq!(out, r#"[[{"a":{"b":"c"}}]]"#);
}

#[test]
fn nested_decoration() {
    let td = parse_type_definition(
        r#"{"type":"object","properties":{"o":{"type":"object","prefix":"@","properties":{"s":{"type":"string","suffix":"!"}}}}}"#,
    )
    .unwrap();
    let out = custom_format_json(r#"{"o":{"s":"hi","t":1}}"#, &td).unwrap();
    assert_eq!(out, r#"{"o":@{"s":"hi"!,"t":1}}"#);
}

#[test]
fn keys_and_strings_are_escaped() {
    let mut td = node(Type::Object);
    td.properties = Some(vec![("k\"q".to_string(), node(Type::String))]);
    let out = custom_format_json(r#"{"k\"q":"a\\b","u\tv":"\u0001"}"#, &td).unwrap();
    assert_eq!(out, r#"{"k\"q":"a\\b","u\tv":"\u0001"}"#);
}

#[test]
fn member_order_follows_document() {
    let mut td = node(Type::Object);
    td.properties = Some(vec![("m".to_string(), node(Type::Number))]);
    let out = custom_format_json(r#"{"z":1,"m":2,"a":3}"#, &td).unwrap();
    assert_eq!(out, r#"{"z":1,"m":2,"a":3}"#);
}

#[test]
fn render_appends_to_output() {
    let mut td = node(Type::Boolean);
    td.prefix = Some("#".to_string());
    let mut out = "x=".to_string();
    custom_format_json_recursively(&JsonValue::Bool(true), &mut out, &td);
    assert_eq!(out, "x=#true");
}

#[test]
fn canonical_text_of_built_value() {
    let v = JsonValue::Object(vec![
        ("a".to_string(), JsonValue::Array(vec![JsonValue::Null, JsonValue::Bool(false)])),
        ("b\n".to_string(), JsonValue::Number(JsonNumber { text: "2.5".to_string(), is_i64: false })),
        ("c".to_string(), JsonValue::String("\"".to_string())),
    ]);
    let mut out = String::new();
    write_canonical(&v, &mut out);
    assert_eq!(out, "{\"a\":[null,false],\"b\\n\":2.5,\"c\":\"\\\"\"}");
}

#[test]
fn malformed_document_is_rejected() {
    let td = node(Type::Object);
    assert_eq!(custom_format_json(r#"{"a":1"#, &td), Err(FormatError::JsonSyntax));
    assert_eq!(custom_format_json("", &td), Err(FormatError::JsonSyntax));
    assert_eq!(custom_format_json("[1,]", &td), Err(FormatError::JsonSyntax));
}
