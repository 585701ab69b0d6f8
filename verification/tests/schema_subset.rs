use serde_json::Value;
use star_control::json::{render_json, JsonMember, JsonValue};
use star_control::schema::{
    apply_schema_defaults, normalize_schema_arguments, validate_schema_bindings, ArgvBinding, reject_forbidden_keywords, schema_allows_cli_scalar, schema_allows_type,
    schema_property, validate_schema_instance, validate_schema_root, ResourceValidationError, SchemaInstanceError, SchemaLimits,
};

fn to_json(v: &Value) -> JsonValue {
    match v {
        Value::Null => JsonValue::Null,
        Value::Bool(b) => JsonValue::Bool(*b),
        Value::Number(n) => JsonValue::Number(n.to_string()),
        Value::String(s) => JsonValue::Str(s.clone()),
        Value::Array(items) => JsonValue::Array(items.iter().map(to_json).collect()),
        Value::Object(members) => JsonValue::Object(
            members
                .iter()
                .map(|(k, v)| JsonMember { key: k.clone(), value: to_json(v) })
                .collect(),
        ),
    }
}

fn from_json(v: &JsonValue) -> Value {
    match v {
        JsonValue::Null => Value::Null,
        JsonValue::Bool(b) => Value::Bool(*b),
        JsonValue::Number(n) => serde_json::from_str(n).unwrap(),
        JsonValue::Str(s) => Value::String(s.clone()),
        JsonValue::Array(items) => Value::Array(items.iter().map(from_json).collect()),
        JsonValue::Object(members) => {
            let mut map = serde_json::Map::new();
            for m in members {
                map.insert(m.key.clone(), from_json(&m.value));
            }
            Value::Object(map)
        }
    }
}

fn schema(text: &str) -> JsonValue {
    to_json(&serde_json::from_str::<Value>(text).unwrap())
}

#[test]
fn default_limits_are_four_mib_one_mib_and_sixty_four_references() {
    let limits = SchemaLimits::default();
    assert_eq!(limits.package_bytes, 4 * 1024 * 1024);
    assert_eq!(limits.action_resolved_bytes, 1024 * 1024);
    assert_eq!(limits.max_ref_depth, 64);
}

#[test]
fn schema_roots_are_objects_that_bound_their_properties() {
    assert!(validate_schema_root(&schema(r#"{"type":"object","additionalProperties":false}"#), true).is_ok());
    assert!(validate_schema_root(&schema(r#"{"type":"object","additionalProperties":true}"#), false).is_ok());
    for (text, input) in [
        (r#"{"type":"number"}"#, false),
        (r#"{"type":"object"}"#, false),
        (r#"{"type":"object","additionalProperties":true}"#, true),
        (r#"{"type":"object","additionalProperties":false,"$schema":"http://json-schema.org/draft-07/schema"}"#, true),
        (r#"{"type":"object","additionalProperties":false,"properties":{"n":{"type":"number"}}}"#, true),
        (r#"[]"#, false),
    ] {
        assert_eq!(validate_schema_root(&schema(text), input), Err(ResourceValidationError::Schema), "{text}");
    }
    assert!(validate_schema_root(
        &schema(r#"{"type":"object","additionalProperties":false,"$schema":"https://json-schema.org/draft/2020-12/schema"}"#),
        true
    )
    .is_ok());
}

#[test]
fn forbidden_keywords_are_found_at_any_depth() {
    assert!(reject_forbidden_keywords(&schema(r#"{"allOf":[{"type":"string"}]}"#)).is_ok());
    assert!(reject_forbidden_keywords(&schema(r##"{"allOf":[{"items":{"$dynamicRef":"#x"}}]}"##)).is_err());
    assert!(reject_forbidden_keywords(&schema(r#"[{"formatMaximum":"2026"}]"#)).is_err());
    assert!(reject_forbidden_keywords(&schema(r#"{"properties":{"type":{"type":"integer"}}}"#)).is_ok());
    assert_eq!(ResourceValidationError::PackageSize.message(), "package schema bytes exceed 4 MiB");
}

#[test]
fn property_types_are_read_through_all_of() {
    let s = schema(
        r#"{"type":"object","properties":{"name":{"type":"string"}},"allOf":[{"properties":{"n":{"type":["integer","null"]}}},{"properties":{"flag":{"allOf":[{"type":"boolean"}]}}}]}"#,
    );
    let name = schema_property(&s, "name").unwrap();
    assert!(schema_allows_type(name, "string"));
    let n = schema_property(&s, "n").unwrap();
    assert!(schema_allows_type(n, "integer"));
    assert!(schema_allows_type(n, "null"));
    assert!(!schema_allows_type(n, "string"));
    let flag = schema_property(&s, "flag").unwrap();
    assert!(schema_allows_type(flag, "boolean"));
    assert!(schema_property(&s, "missing").is_none());
    assert!(schema_allows_cli_scalar(name));
    assert!(schema_allows_cli_scalar(flag));
}

#[test]
fn cli_scalars_include_enums_of_words() {
    assert!(schema_allows_cli_scalar(&schema(r#"{"enum":["a",1,-2,true]}"#)));
    assert!(schema_allows_cli_scalar(&schema(r#"{"enum":[18446744073709551615]}"#)));
    assert!(!schema_allows_cli_scalar(&schema(r#"{"enum":[1.5]}"#)));
    assert!(!schema_allows_cli_scalar(&schema(r#"{"enum":[]}"#)));
    assert!(!schema_allows_cli_scalar(&schema(r#"{"enum":[null]}"#)));
    assert!(!schema_allows_cli_scalar(&schema(r#"{"type":"array"}"#)));
}

#[test]
fn defaults_fill_missing_properties_at_every_level() {
    let s = schema(
        r#"{"type":"object","additionalProperties":false,
            "allOf":[{"properties":{"mode":{"type":"string","default":"fast"}}}],
            "properties":{
                "value":{"type":"string","default":"resolved"},
                "kept":{"type":"string","default":"unused"},
                "nested":{"type":"object","properties":{"depth":{"type":"integer","default":3}}},
                "list":{"type":"array","items":{"type":"object","properties":{"on":{"type":"boolean","default":true}}}}
            }}"#,
    );
    let mut instance = schema(r#"{"kept":"mine","nested":{},"list":[{},{"on":false},7]}"#);
    apply_schema_defaults(&s, &mut instance);
    let expected: Value = serde_json::from_str(
        r#"{"kept":"mine","mode":"fast","value":"resolved","nested":{"depth":3},"list":[{"on":true},{"on":false},7]}"#,
    )
    .unwrap();
    assert_eq!(from_json(&instance), expected);

    let mut scalar = schema("5");
    apply_schema_defaults(&s, &mut scalar);
    assert_eq!(from_json(&scalar), serde_json::from_str::<Value>("5").unwrap());
}

#[test]
fn instances_are_checked_against_the_draft_2020_12_schema() {
    let string_schema = schema(r#"{"type":"object","properties":{"value":{"type":"string"}},"additionalProperties":false}"#);
    assert!(validate_schema_instance(&string_schema, &schema(r#"{"value":"text"}"#)).is_ok());
    assert_eq!(validate_schema_instance(&string_schema, &schema(r#"{"value":7}"#)), Err(SchemaInstanceError));
    assert_eq!(validate_schema_instance(&string_schema, &schema(r#"{"other":true}"#)), Err(SchemaInstanceError));
    let escaped = schema(r#"{"type":"object","properties":{"value":{"const":"a\"b\\c\n\u0001é"}}}"#);
    assert!(validate_schema_instance(&escaped, &schema(r#"{"value":"a\"b\\c\n\u0001é"}"#)).is_ok());
    assert!(validate_schema_instance(&escaped, &schema(r#"{"value":"a\"b\\c\n\u0002é"}"#)).is_err());
    let unbuildable = schema(r#"{"type":"not-a-json-schema-type"}"#);
    assert_eq!(validate_schema_instance(&unbuildable, &schema(r#"{}"#)), Err(SchemaInstanceError));
}

#[test]
fn resolved_schema_arguments_get_their_defaults_before_validation() {
    let input = schema(
        r#"{"$schema":"https://json-schema.org/draft/2020-12/schema","type":"object","additionalProperties":false,"properties":{"value":{"type":"string","default":"resolved"}}}"#,
    );
    let normalized = normalize_schema_arguments(&input, &schema(r#"{}"#)).unwrap();
    assert_eq!(from_json(&normalized), serde_json::from_str::<Value>(r#"{"value":"resolved"}"#).unwrap());
    assert!(normalize_schema_arguments(&input, &schema(r#"{"value":7}"#)).is_err());
    assert!(normalize_schema_arguments(&input, &schema(r#"["value"]"#)).is_err());
    let kept = normalize_schema_arguments(&input, &schema(r#"{"value":"given"}"#)).unwrap();
    assert_eq!(from_json(&kept), serde_json::from_str::<Value>(r#"{"value":"given"}"#).unwrap());
}

#[test]
fn rendered_json_text_reads_back_as_the_same_document() {
    for text in [
        r#"null"#,
        r#"[true,false,-1.5e3,0]"#,
        r#"{"a":"quote \" backslash \\ newline \n tab \t bell \u0007 unit \u001f","b":[],"c":{}}"#,
        r#"{"nested":[{"x":[1,[2,[3]]]},"é ✓ 한"]}"#,
    ] {
        let value = serde_json::from_str::<Value>(text).unwrap();
        let rendered = render_json(&to_json(&value));
        assert_eq!(serde_json::from_str::<Value>(&rendered).unwrap(), value, "{rendered}");
    }
    assert_eq!(render_json(&schema(r#"{"k":["v",1,null]}"#)), r#"{"k":["v",1,null]}"#);
    assert_eq!(render_json(&JsonValue::Str("a\u{1}b".to_owned())), r#""a\u0001b""#);
}

fn binding(kind: &str, input: Option<&str>) -> ArgvBinding {
    ArgvBinding {
        kind: kind.to_owned(),
        input: input.map(str::to_owned),
        when_input: None,
        inputs: vec![],
        when_equals: None,
        content_kind: None,
    }
}

#[test]
fn argv_bindings_must_name_properties_of_a_fitting_type() {
    let input = schema(
        r#"{"type":"object","additionalProperties":false,"properties":{
            "name":{"type":"string"},
            "force":{"type":"boolean"},
            "tags":{"type":"array","items":{"type":"string"}},
            "blobs":{"type":"array","items":{"type":"object"}},
            "mode":{"enum":["fast","slow"]}
        }}"#,
    );
    assert!(validate_schema_bindings(&vec![binding("positional", Some("name"))], &input).is_ok());
    assert!(validate_schema_bindings(&vec![binding("flag_if_true", Some("force"))], &input).is_ok());
    assert!(validate_schema_bindings(&vec![binding("repeat", Some("tags"))], &input).is_ok());
    assert!(validate_schema_bindings(&vec![binding("option", Some("mode"))], &input).is_ok());
    assert!(validate_schema_bindings(&vec![binding("literal", None)], &input).is_ok());
    assert!(validate_schema_bindings(&vec![], &input).is_ok());

    assert_eq!(
        validate_schema_bindings(&vec![binding("positional", Some("missing"))], &input),
        Err(ResourceValidationError::Schema)
    );
    assert!(validate_schema_bindings(&vec![binding("flag_if_false", Some("name"))], &input).is_err());
    assert!(validate_schema_bindings(&vec![binding("repeat", Some("blobs"))], &input).is_err());
    assert!(validate_schema_bindings(&vec![binding("stdin_text", Some("force"))], &input).is_err());

    let mut temp = binding("temp_file", Some("force"));
    temp.content_kind = Some("json".to_owned());
    assert!(validate_schema_bindings(&vec![temp], &input).is_ok());
    let mut temp = binding("temp_file", Some("force"));
    temp.content_kind = Some("base64".to_owned());
    assert!(validate_schema_bindings(&vec![temp], &input).is_err());
    let mut temp = binding("temp_file", Some("name"));
    temp.content_kind = Some("yaml".to_owned());
    assert!(validate_schema_bindings(&vec![temp], &input).is_err());

    let mut grouped = binding("joined", None);
    grouped.inputs = vec!["name".to_owned(), "absent".to_owned()];
    assert!(validate_schema_bindings(&vec![grouped], &input).is_err());
}

#[test]
fn conditional_bindings_need_a_value_their_property_accepts() {
    let input = schema(r#"{"type":"object","properties":{"mode":{"enum":["fast","slow"]},"name":{"type":"string"}}}"#);
    let mut when = binding("literal", None);
    when.when_input = Some("mode".to_owned());
    when.when_equals = Some(JsonValue::Str("fast".to_owned()));
    assert!(validate_schema_bindings(&vec![when], &input).is_ok());

    let mut when = binding("literal", None);
    when.when_input = Some("mode".to_owned());
    when.when_equals = Some(JsonValue::Str("medium".to_owned()));
    assert!(validate_schema_bindings(&vec![when], &input).is_err());

    let mut when = binding("literal", None);
    when.when_input = Some("mode".to_owned());
    assert!(validate_schema_bindings(&vec![when], &input).is_err());
}
