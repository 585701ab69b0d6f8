use serde_json::{Map as JsonMap, Value};
use star_control::json::{JsonMember, JsonValue};
use star_control::pagination::{first_page_payload, pagination_rules, PageMerge, PageOutcome};

fn to_json(v: &Value) -> JsonValue {
    match v {
        Value::Null => JsonValue::Null,
        Value::Bool(b) => JsonValue::Bool(*b),
        Value::Number(n) => JsonValue::Number(n.to_string()),
        Value::String(s) => JsonValue::Str(s.clone()),
        Value::Array(items) => JsonValue::Array(items.iter().map(to_json).collect()),
        Value::Object(members) => JsonValue::Object(
            members
                .iter()
                .map(|(k, v)| JsonMember { key: k.clone(), value: to_json(v) })
                .collect(),
        ),
    }
}

fn from_json(v: &JsonValue) -> Value {
    match v {
        JsonValue::Null => Value::Null,
        JsonValue::Bool(b) => Value::Bool(*b),
        JsonValue::Number(n) => serde_json::from_str(n).unwrap(),
        JsonValue::Str(s) => Value::String(s.clone()),
        JsonValue::Array(items) => Value::Array(items.iter().map(from_json).collect()),
        JsonValue::Object(members) => {
            let mut map = JsonMap::new();
            for m in members {
                map.insert(m.key.clone(), from_json(&m.value));
            }
            Value::Object(map)
        }
    }
}

fn parse(text: &str) -> JsonValue {
    to_json(&serde_json::from_str::<Value>(text).unwrap())
}

fn value(text: &str) -> Value {
    serde_json::from_str(text).unwrap()
}

fn search_merge() -> (PageMerge, JsonValue) {
    let request = parse(r#"{"query":""}"#);
    let rules = pagination_rules("tool.search", &request).unwrap();
    let payload = first_page_payload(&request, &rules).unwrap();
    (PageMerge::new(rules), payload)
}

#[test]
fn full_tool_search_and_unpinned_registry_status_are_paged() {
    let search = pagination_rules("tool.search", &parse(r#"{"query":""}"#)).unwrap();
    assert_eq!(search.page_size, 50);
    assert_eq!(search.max_items, 512);
    assert_eq!(search.max_pages, 11);
    assert_eq!(search.item_id_key, "tool_id");
    assert!(!search.require_diagnostic_revision);

    let status = pagination_rules("tool.registry.status", &parse(r#"{}"#)).unwrap();
    assert_eq!(status.page_size, 200);
    assert_eq!(status.max_items, 512);
    assert_eq!(status.max_pages, 3);
    assert_eq!(status.item_id_key, "package_id");
    assert!(status.require_diagnostic_revision);
    assert!(pagination_rules("tool.registry.status", &parse(r#"{"package_id":null}"#)).is_some());
}

#[test]
fn narrowed_requests_and_other_commands_are_sent_once() {
    assert!(pagination_rules("tool.search", &parse(r#"{"query":"git"}"#)).is_none());
    assert!(pagination_rules("tool.search", &parse(r#"{}"#)).is_none());
    assert!(pagination_rules("tool.registry.status", &parse(r#"{"package_id":"star.git"}"#)).is_none());
    assert!(pagination_rules("tool.describe", &parse(r#"{"query":""}"#)).is_none());
}

#[test]
fn first_page_sets_the_limit_and_drops_any_cursor() {
    let request = parse(r#"{"query":"","cursor":"stale","limit":5}"#);
    let rules = pagination_rules("tool.search", &request).unwrap();
    let first = first_page_payload(&request, &rules).unwrap();
    assert_eq!(from_json(&first), value(r#"{"query":"","limit":50}"#));
    assert!(first_page_payload(&parse(r#"[1]"#), &rules).is_none());
}

#[test]
fn two_pages_merge_into_the_first_page_with_every_item() {
    let (mut merge, payload) = search_merge();
    let page1 = parse(
        r#"{"snapshot_hash":"h1","registry_revision":7,"items":[{"tool_id":"a"},{"tool_id":"b"}],"next_cursor":"c1","extra":true}"#,
    );
    let next = match merge.accept_page(&payload, &page1) {
        PageOutcome::Next(next) => next,
        _ => panic!("a second page is owed"),
    };
    assert_eq!(from_json(&next), value(r#"{"query":"","limit":50,"cursor":"c1"}"#));
    let page2 = parse(r#"{"snapshot_hash":"h1","registry_revision":7,"items":[{"tool_id":"c"}],"next_cursor":null}"#);
    match merge.accept_page(&next, &page2) {
        PageOutcome::Complete(data) => assert_eq!(
            from_json(&data),
            value(
                r#"{"snapshot_hash":"h1","registry_revision":7,"items":[{"tool_id":"a"},{"tool_id":"b"},{"tool_id":"c"}],"next_cursor":null,"extra":true}"#
            )
        ),
        _ => panic!("the listing is complete"),
    }
    assert_eq!(merge.pages, 2);
    assert_eq!(merge.item_ids, vec!["a".to_owned(), "b".to_owned(), "c".to_owned()]);
}

#[test]
fn a_single_page_without_cursor_completes() {
    let (mut merge, payload) = search_merge();
    let page = parse(r#"{"snapshot_hash":"h","registry_revision":1,"items":[]}"#);
    match merge.accept_page(&payload, &page) {
        PageOutcome::Complete(data) => assert_eq!(
            from_json(&data),
            value(r#"{"snapshot_hash":"h","registry_revision":1,"items":[],"next_cursor":null}"#)
        ),
        _ => panic!("one page is the whole listing"),
    }
}

#[test]
fn a_repeated_item_id_is_refused() {
    let (mut merge, payload) = search_merge();
    let page1 = parse(r#"{"snapshot_hash":"h","registry_revision":1,"items":[{"tool_id":"a"}],"next_cursor":"c1"}"#);
    let next = match merge.accept_page(&payload, &page1) {
        PageOutcome::Next(next) => next,
        _ => panic!("a second page is owed"),
    };
    let page2 = parse(r#"{"snapshot_hash":"h","registry_revision":1,"items":[{"tool_id":"a"}]}"#);
    assert!(matches!(merge.accept_page(&next, &page2), PageOutcome::Malformed));

    let (mut merge, payload) = search_merge();
    let page = parse(r#"{"snapshot_hash":"h","registry_revision":1,"items":[{"tool_id":"x"},{"tool_id":"x"}]}"#);
    assert!(matches!(merge.accept_page(&payload, &page), PageOutcome::Malformed));
}

#[test]
fn an_item_without_a_string_id_is_refused() {
    let (mut merge, payload) = search_merge();
    let page = parse(r#"{"snapshot_hash":"h","registry_revision":1,"items":[{"tool_id":3}]}"#);
    assert!(matches!(merge.accept_page(&payload, &page), PageOutcome::Malformed));
}

#[test]
fn pages_of_different_snapshots_are_refused() {
    let (mut merge, payload) = search_merge();
    let page1 = parse(r#"{"snapshot_hash":"h1","registry_revision":1,"items":[],"next_cursor":"c1"}"#);
    let next = match merge.accept_page(&payload, &page1) {
        PageOutcome::Next(next) => next,
        _ => panic!("a second page is owed"),
    };
    let page2 = parse(r#"{"snapshot_hash":"h2","registry_revision":1,"items":[]}"#);
    assert!(matches!(merge.accept_page(&next, &page2), PageOutcome::Malformed));

    let (mut merge, payload) = search_merge();
    let _ = merge.accept_page(&payload, &page1);
    let page2 = parse(r#"{"snapshot_hash":"h1","registry_revision":2,"items":[]}"#);
    assert!(matches!(merge.accept_page(&next, &page2), PageOutcome::Malformed));
}

#[test]
fn a_repeated_cursor_is_refused() {
    let (mut merge, payload) = search_merge();
    let page1 = parse(r#"{"snapshot_hash":"h","registry_revision":1,"items":[],"next_cursor":"c1"}"#);
    let next = match merge.accept_page(&payload, &page1) {
        PageOutcome::Next(next) => next,
        _ => panic!("a second page is owed"),
    };
    assert!(matches!(merge.accept_page(&next, &page1), PageOutcome::Malformed));
}

#[test]
fn a_listing_longer_than_the_page_bound_is_refused() {
    let (mut merge, mut payload) = search_merge();
    for page in 0..10 {
        let data = parse(&format!(
            r#"{{"snapshot_hash":"h","registry_revision":1,"items":[],"next_cursor":"c{page}"}}"#
        ));
        payload = match merge.accept_page(&payload, &data) {
            PageOutcome::Next(next) => next,
            _ => panic!("page {page} is within the bound"),
        };
    }
    let last = parse(r#"{"snapshot_hash":"h","registry_revision":1,"items":[],"next_cursor":"c10"}"#);
    assert!(matches!(merge.accept_page(&payload, &last), PageOutcome::Malformed));
}

#[test]
fn more_items_than_the_item_bound_are_refused() {
    let (mut merge, payload) = search_merge();
    let items: Vec<String> = (0..513).map(|i| format!(r#"{{"tool_id":"t{i}"}}"#)).collect();
    let page = parse(&format!(
        r#"{{"snapshot_hash":"h","registry_revision":1,"items":[{}]}}"#,
        items.join(",")
    ));
    assert!(matches!(merge.accept_page(&payload, &page), PageOutcome::Malformed));

    let (mut merge, payload) = search_merge();
    let page = parse(&format!(
        r#"{{"snapshot_hash":"h","registry_revision":1,"items":[{}]}}"#,
        items[..512].join(",")
    ));
    assert!(matches!(merge.accept_page(&payload, &page), PageOutcome::Complete(_)));
}

#[test]
fn registry_status_pages_need_an_agreeing_diagnostic_revision() {
    let request = parse(r#"{}"#);
    let rules = pagination_rules("tool.registry.status", &request).unwrap();
    let payload = first_page_payload(&request, &rules).unwrap();
    assert_eq!(from_json(&payload), value(r#"{"limit":200}"#));

    let mut merge = PageMerge::new(rules);
    let missing = parse(r#"{"snapshot_hash":"h","registry_revision":1,"items":[{"package_id":"p"}]}"#);
    assert!(matches!(merge.accept_page(&payload, &missing), PageOutcome::Malformed));

    let rules = pagination_rules("tool.registry.status", &request).unwrap();
    let mut merge = PageMerge::new(rules);
    let page1 = parse(
        r#"{"snapshot_hash":"h","registry_revision":1,"diagnostic_revision":4,"items":[{"package_id":"p"}],"next_cursor":"c1"}"#,
    );
    let next = match merge.accept_page(&payload, &page1) {
        PageOutcome::Next(next) => next,
        _ => panic!("a second page is owed"),
    };
    let page2 = parse(r#"{"snapshot_hash":"h","registry_revision":1,"diagnostic_revision":5,"items":[]}"#);
    assert!(matches!(merge.accept_page(&next, &page2), PageOutcome::Malformed));
}

#[test]
fn a_revision_that_is_not_an_unsigned_integer_is_refused() {
    let (mut merge, payload) = search_merge();
    let page = parse(r#"{"snapshot_hash":"h","registry_revision":-1,"items":[]}"#);
    assert!(matches!(merge.accept_page(&payload, &page), PageOutcome::Malformed));
    let (mut merge, payload) = search_merge();
    let page = parse(r#"{"snapshot_hash":"h","registry_revision":1.5,"items":[]}"#);
    assert!(matches!(merge.accept_page(&payload, &page), PageOutcome::Malformed));
}
