use std::collections::BTreeMap;

use serde_json::Value;
use star_control::json::{JsonMember, JsonValue};
use star_control::schema::{normalize_schema_arguments, ArgvBinding, ResourceValidationError, SchemaLimits};
use star_control::schema_resolver::{
    load_manifest_resources, load_manifest_resources_with_limits, resolve_fragment, ActionSchemaFiles, ResolveStop, ResolvedActionSchemas, SchemaFile,
    SchemaLocation, SchemaSources,
};

const ROOT: &str = "P:/package";

fn to_json(v: &Value) -> JsonValue {
    match v {
        Value::Null => JsonValue::Null,
        Value::Bool(b) => JsonValue::Bool(*b),
        Value::Number(n) => JsonValue::Number(n.to_string()),
        Value::String(s) => JsonValue::Str(s.clone()),
        Value::Array(items) => JsonValue::Array(items.iter().map(to_json).collect()),
        Value::Object(members) => JsonValue::Object(
            members.iter().map(|(k, v)| JsonMember { key: k.clone(), value: to_json(v) }).collect(),
        ),
    }
}

fn from_json(v: &JsonValue) -> Value {
    match v {
        JsonValue::Null => Value::Null,
        JsonValue::Bool(b) => Value::Bool(*b),
        JsonValue::Number(n) => serde_json::from_str(n).unwrap(),
        JsonValue::Str(s) => Value::String(s.clone()),
        JsonValue::Array(items) => Value::Array(items.iter().map(from_json).collect()),
        JsonValue::Object(members) => {
            let mut map = serde_json::Map::new();
            for m in members {
                map.insert(m.key.clone(), from_json(&m.value));
            }
            Value::Object(map)
        }
    }
}

fn value(text: &str) -> Value {
    serde_json::from_str(text).unwrap()
}

/// A package directory held in memory: file name to file text, plus files
/// known only by size.
struct Package {
    files: BTreeMap<String, String>,
    sizes: BTreeMap<String, u64>,
}

impl Package {
    fn new(files: &[(&str, &str)]) -> Self {
        Package {
            files: files.iter().map(|(k, v)| ((*k).to_owned(), (*v).to_owned())).collect(),
            sizes: BTreeMap::new(),
        }
    }

    fn locate(&self, document: Option<&str>, relative: &str) -> Result<String, ResourceValidationError> {
        if relative.starts_with('/') || relative.split('/').any(|part| part == ".." || part == "." || part.is_empty()) {
            return Err(ResourceValidationError::Path);
        }
        let directory = match document {
            None => ROOT.to_owned(),
            Some(d) => d[..d.rfind('/').unwrap()].to_owned(),
        };
        let full = format!("{directory}/{relative}");
        let name = full.strip_prefix(&format!("{ROOT}/")).unwrap();
        if self.files.contains_key(name) || self.sizes.contains_key(name) {
            Ok(full)
        } else {
            Err(ResourceValidationError::Io)
        }
    }

    fn read(&self, final_path: &str) -> SchemaFile {
        let name = final_path.strip_prefix(&format!("{ROOT}/")).unwrap();
        if let Some(size) = self.sizes.get(name) {
            return SchemaFile {
                final_path: final_path.to_owned(),
                size: Ok(*size),
                document: Err(ResourceValidationError::Json),
            };
        }
        let text = &self.files[name];
        SchemaFile {
            final_path: final_path.to_owned(),
            size: Ok(text.len() as u64),
            document: serde_json::from_str::<Value>(text).map(|v| to_json(&v)).map_err(|_| ResourceValidationError::Json),
        }
    }

    fn load(
        &self,
        actions: &Vec<ActionSchemaFiles>,
        limits: &SchemaLimits,
    ) -> Result<Vec<(String, ResolvedActionSchemas)>, ResourceValidationError> {
        let mut sources = SchemaSources { locations: vec![], files: vec![] };
        loop {
            match load_manifest_resources_with_limits(actions, &sources, limits) {
                Ok(r) => return Ok(r),
                Err(ResolveStop::Failed(e)) => return Err(e),
                Err(ResolveStop::NeedLocation { document, relative }) => {
                    let found = self.locate(document.as_deref(), &relative);
                    sources.locations.push(SchemaLocation { document, relative, found });
                }
                Err(ResolveStop::NeedFile { final_path }) => sources.files.push(self.read(&final_path)),
            }
        }
    }
}

fn action(input: Option<&str>, output: Option<&str>) -> ActionSchemaFiles {
    ActionSchemaFiles {
        tool_id: "user.fake.echo.run".to_owned(),
        input_schema_file: input.map(str::to_owned),
        output_schema_file: output.map(str::to_owned),
        argv: vec![ArgvBinding {
            kind: "literal".to_owned(),
            input: None,
            when_input: None,
            inputs: vec![],
            when_equals: None,
            content_kind: None,
        }],
        examples: vec![],
    }
}

fn validate(schema: &str) -> Result<Vec<(String, ResolvedActionSchemas)>, ResourceValidationError> {
    Package::new(&[("input.json", schema)]).load(&vec![action(Some("input.json"), None)], &SchemaLimits::default())
}

#[test]
fn schema_references_are_local_acyclic_bounded_and_object_rooted() {
    assert!(validate(r#"{"type":"object","additionalProperties":false,"properties":{"value":{"type":"string"}}}"#).is_ok());
    assert_eq!(
        validate(r#"{"type":"object","additionalProperties":false,"$ref":"https://example.invalid/schema"}"#).err(),
        Some(ResourceValidationError::Reference)
    );
    assert_eq!(
        validate(r##"{"type":"object","additionalProperties":false,"$ref":"#"}"##).err(),
        Some(ResourceValidationError::Reference)
    );
    assert_eq!(validate(r#"{"type":"number"}"#).err(), Some(ResourceValidationError::Schema));

    let package = Package::new(&[
        ("input.json", r#"{"type":"object","additionalProperties":false}"#),
        ("output.json", r#"{"type":"number"}"#),
    ]);
    assert_eq!(
        package.load(&vec![action(Some("input.json"), Some("output.json"))], &SchemaLimits::default()).err(),
        Some(ResourceValidationError::Schema),
        "output Schema must also have an object root and reject number"
    );
}

#[test]
fn package_and_action_schema_byte_limits_fail_closed() {
    let large = format!(
        "{{\"type\":\"object\",\"additionalProperties\":false,\"description\":\"{}\"}}",
        "x".repeat(1024 * 1024)
    );
    let package = Package::new(&[("input.json", large.as_str())]);
    assert_eq!(
        package.load(&vec![action(Some("input.json"), None)], &SchemaLimits::default()).err(),
        Some(ResourceValidationError::ActionSize)
    );

    let mut package = Package::new(&[("input.json", r#"{"type":"object","additionalProperties":false}"#)]);
    package.sizes.insert("giant.json".to_owned(), 4 * 1024 * 1024 + 1);
    assert_eq!(
        package.load(&vec![action(Some("input.json"), Some("giant.json"))], &SchemaLimits::default()).err(),
        Some(ResourceValidationError::PackageSize)
    );
}

#[test]
fn resolved_schema_snapshot_rejects_invalid_schema_and_applies_defaults() {
    let package = Package::new(&[
        (
            "input.json",
            r##"{
                "$schema":"https://json-schema.org/draft/2020-12/schema",
                "type":"object",
                "additionalProperties":false,
                "properties":{"value":{"$ref":"defs.json#/$defs/value"}}
            }"##,
        ),
        ("defs.json", r#"{"$defs":{"value":{"type":"string","default":"resolved"}}}"#),
    ]);
    let resources = package.load(&vec![action(Some("input.json"), None)], &SchemaLimits::default()).unwrap();
    assert_eq!(resources.len(), 1);
    assert_eq!(resources[0].0, "user.fake.echo.run");
    let input = resources[0].1.input.as_ref().unwrap();
    assert_eq!(
        from_json(input),
        value(
            r#"{"$schema":"https://json-schema.org/draft/2020-12/schema","type":"object","additionalProperties":false,
                "properties":{"value":{"type":"string","default":"resolved"}}}"#
        )
    );
    assert_eq!(
        from_json(&normalize_schema_arguments(input, &to_json(&value("{}"))).unwrap()),
        value(r#"{"value":"resolved"}"#)
    );
    assert!(normalize_schema_arguments(input, &to_json(&value(r#"{"value":7}"#))).is_err());

    assert_eq!(
        validate(r#"{"type":"object","additionalProperties":false,"properties":{"x":{"type":"not-a-json-schema-type"}}}"#).err(),
        Some(ResourceValidationError::Schema)
    );
}

#[test]
fn resolution_asks_for_each_location_and_file_once_in_order() {
    let actions = vec![action(Some("input.json"), None)];
    let mut sources = SchemaSources { locations: vec![], files: vec![] };
    match load_manifest_resources(&actions, &sources) {
        Err(ResolveStop::NeedLocation { document: None, relative }) => assert_eq!(relative, "input.json"),
        _ => panic!("the input schema must be located first"),
    }
    sources.locations.push(SchemaLocation {
        document: None,
        relative: "input.json".to_owned(),
        found: Ok(format!("{ROOT}/input.json")),
    });
    match load_manifest_resources(&actions, &sources) {
        Err(ResolveStop::NeedFile { final_path }) => assert_eq!(final_path, format!("{ROOT}/input.json")),
        _ => panic!("then read"),
    }
    sources.files.push(SchemaFile {
        final_path: format!("{ROOT}/input.json"),
        size: Ok(40),
        document: Ok(to_json(&value(r#"{"type":"object","additionalProperties":false,"properties":{"a":{"$ref":"sub/a.json"}}}"#))),
    });
    match load_manifest_resources(&actions, &sources) {
        Err(ResolveStop::NeedLocation { document: Some(document), relative }) => {
            assert_eq!(document, format!("{ROOT}/input.json"));
            assert_eq!(relative, "sub/a.json");
        }
        _ => panic!("then the reference is located from the schema file"),
    }
    sources.locations.push(SchemaLocation {
        document: Some(format!("{ROOT}/input.json")),
        relative: "sub/a.json".to_owned(),
        found: Err(ResourceValidationError::Path),
    });
    assert!(matches!(
        load_manifest_resources(&actions, &sources),
        Err(ResolveStop::Failed(ResourceValidationError::Path))
    ));
}

#[test]
fn reference_chains_longer_than_the_depth_limit_are_refused() {
    let package = Package::new(&[
        ("input.json", r#"{"type":"object","additionalProperties":false,"properties":{"a":{"$ref":"a.json"}}}"#),
        ("a.json", r#"{"$ref":"b.json"}"#),
        ("b.json", r#"{"$ref":"c.json"}"#),
        ("c.json", r#"{"type":"string"}"#),
    ]);
    let actions = vec![action(Some("input.json"), None)];
    let mut limits = SchemaLimits::default();
    assert!(package.load(&actions, &limits).is_ok());
    limits.max_ref_depth = 3;
    assert!(package.load(&actions, &limits).is_ok());
    limits.max_ref_depth = 2;
    assert_eq!(package.load(&actions, &limits).err(), Some(ResourceValidationError::Reference));
}

#[test]
fn sibling_keywords_of_a_reference_become_an_all_of() {
    let package = Package::new(&[
        (
            "input.json",
            r##"{"type":"object","additionalProperties":false,"$defs":{"s":{"type":"string"}},
                "properties":{"a":{"$ref":"#/$defs/s","description":"named"}}}"##,
        ),
    ]);
    let resources = package.load(&vec![action(Some("input.json"), None)], &SchemaLimits::default()).unwrap();
    let input = from_json(resources[0].1.input.as_ref().unwrap());
    assert_eq!(
        input["properties"]["a"],
        value(r#"{"allOf":[{"type":"string"},{"description":"named"}]}"#)
    );
}

#[test]
fn fragments_follow_json_pointer_escapes_and_indexes() {
    let document = to_json(&value(r#"{"a/b":{"m~n":[10,{"x":true}]},"":1}"#));
    let found = resolve_fragment(&document, "/a~1b/m~0n/1/x").unwrap();
    assert_eq!(from_json(found), value("true"));
    assert_eq!(from_json(resolve_fragment(&document, "").unwrap()), from_json(&document));
    assert_eq!(from_json(resolve_fragment(&document, "/").unwrap()), value("1"));
    assert!(resolve_fragment(&document, "a").is_none());
    assert!(resolve_fragment(&document, "/a~1b/m~0n/01").is_none());
    assert!(resolve_fragment(&document, "/a~1b/m~0n/+1").is_none());
    assert!(resolve_fragment(&document, "/a~1b/m~0n/2").is_none());
    assert!(resolve_fragment(&document, "/missing").is_none());
}
