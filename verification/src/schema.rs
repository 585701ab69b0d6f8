//! The JSON Schema subset a tool package may declare: limits, the checks a
//! schema root and every nested keyword must pass, and how argument
//! bindings read property types.
use vstd::prelude::*;

use crate::json::{JsonValue, JsonView, JsonMember, json_get, json_get_member, json_view, json_items_view, json_members_view, lemma_items_view, lemma_members_view, member_lookup, clone_json, update_member, lemma_first_member, lemma_no_member, find_member, json_text, render_json};
use crate::text::{str_eq, chars_of};
use crate::cli::{all_digits, digits_value, parse_u64};

verus! {

/// Size and depth limits of a package's schemas.
pub struct SchemaLimits {
    /// All schema files of one package together, in bytes.
    pub package_bytes: u64,
    /// One action's resolved input and output schemas together, in bytes.
    pub action_resolved_bytes: usize,
    /// Nesting of `$ref` resolution.
    pub max_ref_depth: usize,
}

impl Default for SchemaLimits {
    /// Four MiB per package, one MiB per action, 64 nested references.
    fn default() -> (result: Self)
        ensures
            result.package_bytes == 4 * 1024 * 1024,
            result.action_resolved_bytes == 1024 * 1024,
            result.max_ref_depth == 64,
    {
        SchemaLimits { package_bytes: 4194304, action_resolved_bytes: 1048576, max_ref_depth: 64 }
    }
}

#[derive(Clone, Copy, Debug, PartialEq, Eq, Structural)]
pub enum ResourceValidationError {
    /// The schema path escapes the manifest package directory.
    Path,
    /// The schema file is missing or unreadable.
    Io,
    /// The schema JSON is invalid.
    Json,
    /// A remote, cyclic or too deep schema reference.
    Reference,
    /// The package's schema bytes exceed 4 MiB.
    PackageSize,
    /// One action's resolved schema bytes exceed 1 MiB.
    ActionSize,
    /// The schema root or a keyword violates the supported subset.
    Schema,
}

impl ResourceValidationError {
    pub fn message(self) -> (result: &'static str)
        ensures
            result@ == match self {
                ResourceValidationError::Path => "schema path escapes the manifest package directory"@,
                ResourceValidationError::Io => "schema file is missing or unreadable"@,
                ResourceValidationError::Json => "schema JSON is invalid"@,
                ResourceValidationError::Reference => "remote, cyclic, or excessively deep schema reference"@,
                ResourceValidationError::PackageSize => "package schema bytes exceed 4 MiB"@,
                ResourceValidationError::ActionSize => "one action's resolved schema bytes exceed 1 MiB"@,
                ResourceValidationError::Schema => "schema root or keyword violates the v1 subset"@,
            },
    {
        match self {
            ResourceValidationError::Path => "schema path escapes the manifest package directory",
            ResourceValidationError::Io => "schema file is missing or unreadable",
            ResourceValidationError::Json => "schema JSON is invalid",
            ResourceValidationError::Reference => "remote, cyclic, or excessively deep schema reference",
            ResourceValidationError::PackageSize => "package schema bytes exceed 4 MiB",
            ResourceValidationError::ActionSize => "one action's resolved schema bytes exceed 1 MiB",
            ResourceValidationError::Schema => "schema root or keyword violates the v1 subset",
        }
    }
}

/// A value does not satisfy its resolved schema.
#[derive(Clone, Copy, Debug, PartialEq, Eq, Structural)]
pub struct SchemaInstanceError;

// ----------------------------------------------------------------------
// Forbidden keywords.
// ----------------------------------------------------------------------

pub open spec fn is_forbidden_key(k: Seq<char>) -> bool {
    k == "$dynamicRef"@ || k == "$recursiveRef"@ || k == "formatMinimum"@ || k == "formatMaximum"@
}

/// Whether `v`, or any value nested in it, is an object that declares
/// `"type": "number"` or uses a dynamic reference or format bound.
pub open spec fn has_forbidden_keyword(v: JsonView) -> bool
    decreases v,
{
    match v {
        JsonView::Object(members) => json_get(v, "type"@) == Some(JsonView::Str("number"@)) || members_forbidden(members),
        JsonView::Array(items) => items_forbidden(items),
        _ => false,
    }
}

pub open spec fn members_forbidden(members: Seq<(Seq<char>, JsonView)>) -> bool
    decreases members,
{
    if members.len() == 0 {
        false
    } else {
        proof {
            assert(decreases_to!(members => members[members.len() - 1]));
        }
        members_forbidden(members.drop_last()) || is_forbidden_key(members.last().0) || has_forbidden_keyword(members.last().1)
    }
}

pub open spec fn items_forbidden(items: Seq<JsonView>) -> bool
    decreases items,
{
    if items.len() == 0 {
        false
    } else {
        proof {
            assert(decreases_to!(items => items[items.len() - 1]));
        }
        items_forbidden(items.drop_last()) || has_forbidden_keyword(items.last())
    }
}

fn is_forbidden_key_exec(k: &str) -> (result: bool)
    ensures
        result == is_forbidden_key(k@),
{
    str_eq(k, "$dynamicRef") || str_eq(k, "$recursiveRef") || str_eq(k, "formatMinimum") || str_eq(k, "formatMaximum")
}

fn declares_number(v: &JsonValue) -> (result: bool)
    ensures
        result == (json_get(v@, "type"@) == Some(JsonView::Str("number"@))),
{
    match json_get_member(v, "type") {
        Some(JsonValue::Str(t)) => str_eq(t.as_str(), "number"),
        _ => false,
    }
}

/// Refuses a schema in which any object declares `"type": "number"` or
/// uses `$dynamicRef`, `$recursiveRef`, `formatMinimum` or `formatMaximum`.
#[verifier::loop_isolation(false)]
pub fn reject_forbidden_keywords(value: &JsonValue) -> (result: Result<(), ResourceValidationError>)
    ensures
        has_forbidden_keyword(value@) ==> result == Err::<(), ResourceValidationError>(ResourceValidationError::Schema),
        !has_forbidden_keyword(value@) ==> result is Ok,
    decreases value,
{
    match value {
        JsonValue::Object(members) => {
            if declares_number(value) {
                return Err(ResourceValidationError::Schema);
            }
            let ghost mv = json_members_view(members@);
            proof {
                lemma_members_view(members@);
                assert(mv.take(0) =~= Seq::<(Seq<char>, JsonView)>::empty());
            }
            let mut i: usize = 0;
            while i < members.len()
                invariant
                    i <= members@.len(),
                    mv.len() == members@.len(),
                    forall|j: int| 0 <= j < members@.len() ==> #[trigger] mv[j] == (members@[j].key@, json_view(members@[j].value)),
                    !members_forbidden(mv.take(i as int)),
                decreases members@.len() - i,
            {
                proof {
                    assert(decreases_to!(*value => value->Object_0));
                    assert(decreases_to!(*members => members@));
                    assert(decreases_to!(members@ => members@[i as int]));
                    assert(decreases_to!(members@[i as int] => members@[i as int].value));
                    assert(mv.take(i + 1).drop_last() =~= mv.take(i as int));
                    assert(mv.take(i + 1).last() == mv[i as int]);
                }
                if is_forbidden_key_exec(members[i].key.as_str()) {
                    assert(members_forbidden(mv.take(i + 1)));
                    proof {
                        lemma_members_forbidden_prefix(mv, i + 1);
                        assert(mv.take(mv.len() as int) =~= mv);
                    }
                    return Err(ResourceValidationError::Schema);
                }
                match reject_forbidden_keywords(&members[i].value) {
                    Err(e) => {
                        assert(members_forbidden(mv.take(i + 1)));
                        proof {
                            lemma_members_forbidden_prefix(mv, i + 1);
                            assert(mv.take(mv.len() as int) =~= mv);
                        }
                        return Err(e);
                    },
                    Ok(()) => {},
                }
                i = i + 1;
            }
            assert(mv.take(mv.len() as int) =~= mv);
            Ok(())
        },
        JsonValue::Array(items) => {
            let ghost iv = json_items_view(items@);
            proof {
                lemma_items_view(items@);
                assert(iv.take(0) =~= Seq::<JsonView>::empty());
            }
            let mut i: usize = 0;
            while i < items.len()
                invariant
                    i <= items@.len(),
                    iv.len() == items@.len(),
                    forall|j: int| 0 <= j < items@.len() ==> #[trigger] iv[j] == json_view(items@[j]),
                    !items_forbidden(iv.take(i as int)),
                decreases items@.len() - i,
            {
                proof {
                    assert(decreases_to!(*value => value->Array_0));
                    assert(decreases_to!(*items => items@));
                    assert(decreases_to!(items@ => items@[i as int]));
                    assert(iv.take(i + 1).drop_last() =~= iv.take(i as int));
                    assert(iv.take(i + 1).last() == iv[i as int]);
                }
                match reject_forbidden_keywords(&items[i]) {
                    Err(e) => {
                        assert(items_forbidden(iv.take(i + 1)));
                        proof {
                            lemma_items_forbidden_prefix(iv, i + 1);
                            assert(iv.take(iv.len() as int) =~= iv);
                        }
                        return Err(e);
                    },
                    Ok(()) => {},
                }
                i = i + 1;
            }
            assert(iv.take(iv.len() as int) =~= iv);
            Ok(())
        },
        _ => Ok(()),
    }
}

proof fn lemma_members_forbidden_prefix(m: Seq<(Seq<char>, JsonView)>, i: int)
    requires
        0 <= i <= m.len(),
        members_forbidden(m.take(i)),
    ensures
        members_forbidden(m.take(m.len() as int)),
    decreases m.len() - i,
{
    if i < m.len() {
        assert(m.take(i + 1).drop_last() =~= m.take(i));
        lemma_members_forbidden_prefix(m, i + 1);
    }
}

proof fn lemma_items_forbidden_prefix(m: Seq<JsonView>, i: int)
    requires
        0 <= i <= m.len(),
        items_forbidden(m.take(i)),
    ensures
        items_forbidden(m.take(m.len() as int)),
    decreases m.len() - i,
{
    if i < m.len() {
        assert(m.take(i + 1).drop_last() =~= m.take(i));
        lemma_items_forbidden_prefix(m, i + 1);
    }
}

// ----------------------------------------------------------------------
// The schema root.
// ----------------------------------------------------------------------

pub open spec fn schema_root_ok(root: JsonView, input: bool) -> bool {
    &&& root is Object
    &&& json_get(root, "type"@) == Some(JsonView::Str("object"@))
    &&& match json_get(root, "$schema"@) {
        None => true,
        Some(d) => d == JsonView::Str("https://json-schema.org/draft/2020-12/schema"@),
    }
    &&& json_get(root, "additionalProperties"@) is Some
    &&& input ==> json_get(root, "additionalProperties"@) == Some(JsonView::Bool(false))
}

/// An action schema root is an object schema (of the 2020-12 dialect when
/// it names one) that says whether other properties are allowed; an input
/// schema must forbid them.  The whole schema must also pass
/// `reject_forbidden_keywords`.
pub fn validate_schema_root(root: &JsonValue, input: bool) -> (result: Result<(), ResourceValidationError>)
    ensures
        (schema_root_ok(root@, input) && !has_forbidden_keyword(root@)) ==> result is Ok,
        !(schema_root_ok(root@, input) && !has_forbidden_keyword(root@)) ==> result
            == Err::<(), ResourceValidationError>(ResourceValidationError::Schema),
{
    match root {
        JsonValue::Object(_) => {},
        _ => return Err(ResourceValidationError::Schema),
    }
    match json_get_member(root, "type") {
        Some(JsonValue::Str(t)) => {
            if !str_eq(t.as_str(), "object") {
                return Err(ResourceValidationError::Schema);
            }
        },
        _ => return Err(ResourceValidationError::Schema),
    }
    match json_get_member(root, "$schema") {
        None => {},
        Some(JsonValue::Str(d)) => {
            if !str_eq(d.as_str(), "https://json-schema.org/draft/2020-12/schema") {
                return Err(ResourceValidationError::Schema);
            }
        },
        Some(_) => return Err(ResourceValidationError::Schema),
    }
    match json_get_member(root, "additionalProperties") {
        None => return Err(ResourceValidationError::Schema),
        Some(JsonValue::Bool(false)) => {},
        Some(_) => {
            if input {
                return Err(ResourceValidationError::Schema);
            }
        },
    }
    reject_forbidden_keywords(root)
}

// ----------------------------------------------------------------------
// Property types, for argument bindings.
// ----------------------------------------------------------------------

/// Whether the `type` keyword of a schema object (its members) admits
/// `expected`, directly or as one of a list.
pub open spec fn type_keyword_admits(v: JsonView, expected: Seq<char>) -> bool {
    match json_get(v, "type"@) {
        Some(JsonView::Str(t)) => t == expected,
        Some(JsonView::Array(kinds)) => exists|k: int| 0 <= k < kinds.len() && kinds[k] == JsonView::Str(expected),
        _ => false,
    }
}

/// Whether a schema admits values of JSON type `expected`, by its own
/// `type` keyword or by one of its `allOf` branches.
pub open spec fn allows_type(v: JsonView, expected: Seq<char>) -> bool
    decreases v,
{
    type_keyword_admits(v, expected) || match v {
        JsonView::Object(members) => all_of_allows(members, expected),
        _ => false,
    }
}

/// The first `allOf` member of an object, when it is an array, has a
/// branch that admits `expected`.
pub open spec fn all_of_allows(members: Seq<(Seq<char>, JsonView)>, expected: Seq<char>) -> bool
    decreases members,
{
    if members.len() == 0 {
        false
    } else if members[0].0 == "allOf"@ {
        proof {
            assert(decreases_to!(members => members[0]));
        }
        match members[0].1 {
            JsonView::Array(branches) => any_allows(branches, expected),
            _ => false,
        }
    } else {
        all_of_allows(members.drop_first(), expected)
    }
}

pub open spec fn any_allows(branches: Seq<JsonView>, expected: Seq<char>) -> bool
    decreases branches,
{
    if branches.len() == 0 {
        false
    } else {
        proof {
            assert(decreases_to!(branches => branches[0]));
        }
        allows_type(branches[0], expected) || any_allows(branches.drop_first(), expected)
    }
}

#[verifier::loop_isolation(false)]
fn type_keyword_admits_exec(v: &JsonValue, expected: &str) -> (result: bool)
    ensures
        result == type_keyword_admits(v@, expected@),
{
    match json_get_member(v, "type") {
        Some(JsonValue::Str(t)) => str_eq(t.as_str(), expected),
        Some(JsonValue::Array(kinds)) => {
            proof {
                lemma_items_view(kinds@);
            }
            let ghost kv = json_items_view(kinds@);
            let mut i: usize = 0;
            while i < kinds.len()
                invariant
                    i <= kinds@.len(),
                    kv == json_items_view(kinds@),
                    kv.len() == kinds@.len(),
                    forall|j: int| 0 <= j < kinds@.len() ==> #[trigger] kv[j] == json_view(kinds@[j]),
                    forall|j: int| 0 <= j < i ==> kv[j] != JsonView::Str(expected@),
                decreases kinds@.len() - i,
            {
                match &kinds[i] {
                    JsonValue::Str(t) => {
                        if str_eq(t.as_str(), expected) {
                            assert(kv[i as int] == JsonView::Str(expected@));
                            return true;
                        }
                    },
                    _ => {},
                }
                i = i + 1;
            }
            false
        },
        _ => false,
    }
}

/// Whether a schema admits values of JSON type `expected`.
#[verifier::loop_isolation(false)]
pub fn schema_allows_type(schema: &JsonValue, expected: &str) -> (result: bool)
    ensures
        result == allows_type(schema@, expected@),
    decreases schema,
{
    if type_keyword_admits_exec(schema, expected) {
        return true;
    }
    match schema {
        JsonValue::Object(members) => {
            let ghost mv = json_members_view(members@);
            proof {
                lemma_members_view(members@);
            }
            let mut i: usize = 0;
            assert(mv.skip(0) =~= mv);
            while i < members.len()
                invariant
                    i <= members@.len(),
                    mv.len() == members@.len(),
                    forall|j: int| 0 <= j < members@.len() ==> #[trigger] mv[j] == (members@[j].key@, json_view(members@[j].value)),
                    all_of_allows(mv, expected@) == all_of_allows(mv.skip(i as int), expected@),
                decreases members@.len() - i,
            {
                let ghost rest = mv.skip(i as int);
                assert(rest[0] == mv[i as int]);
                assert(rest.drop_first() =~= mv.skip(i + 1));
                if str_eq(members[i].key.as_str(), "allOf") {
                    proof {
                        assert(decreases_to!(*schema => schema->Object_0));
                        assert(decreases_to!(*members => members@));
                        assert(decreases_to!(members@ => members@[i as int]));
                        assert(decreases_to!(members@[i as int] => members@[i as int].value));
                    }
                    match &members[i].value {
                        JsonValue::Array(branches) => {
                            proof {
                                lemma_items_view(branches@);
                            }
                            let ghost bv = json_items_view(branches@);
                            let mut b: usize = 0;
                            assert(bv.skip(0) =~= bv);
                            while b < branches.len()
                                invariant
                                    b <= branches@.len(),
                                    bv.len() == branches@.len(),
                                    forall|j: int| 0 <= j < branches@.len() ==> #[trigger] bv[j] == json_view(branches@[j]),
                                    any_allows(bv, expected@) == any_allows(bv.skip(b as int), expected@),
                                decreases branches@.len() - b,
                            {
                                let ghost brest = bv.skip(b as int);
                                assert(brest[0] == bv[b as int]);
                                assert(brest.drop_first() =~= bv.skip(b + 1));
                                proof {
                                    assert(decreases_to!(members@[i as int].value => members@[i as int].value->Array_0));
                                    assert(decreases_to!(*branches => branches@));
                                    assert(decreases_to!(branches@ => branches@[b as int]));
                                }
                                if schema_allows_type(&branches[b], expected) {
                                    return true;
                                }
                                b = b + 1;
                            }
                            assert(bv.skip(b as int).len() == 0);
                            return false;
                        },
                        _ => return false,
                    }
                }
                i = i + 1;
            }
            false
        },
        _ => false,
    }
}

/// A JSON number, as `serde_json` prints it, that holds an integer: a
/// `u64`, or a negative `i64`.
pub open spec fn is_integer_number(t: Seq<char>) -> bool {
    if t.len() > 0 && t[0] == '-' {
        let rest = t.drop_first();
        rest.len() > 0 && all_digits(rest) && 1 <= digits_value(rest) <= 9223372036854775808
    } else {
        t.len() > 0 && all_digits(t) && digits_value(t) <= u64::MAX
    }
}

/// A string, an integer or a boolean.
pub open spec fn is_cli_scalar_value(v: JsonView) -> bool {
    match v {
        JsonView::Str(_) | JsonView::Bool(_) => true,
        JsonView::Number(t) => is_integer_number(t),
        _ => false,
    }
}

/// Whether a schema admits only values that fit one command-line word: it
/// admits strings, integers or booleans, or enumerates only such values.
pub open spec fn allows_cli_scalar(v: JsonView) -> bool {
    ||| allows_type(v, "string"@)
    ||| allows_type(v, "integer"@)
    ||| allows_type(v, "boolean"@)
    ||| match json_get(v, "enum"@) {
        Some(JsonView::Array(values)) => values.len() > 0
            && forall|k: int| 0 <= k < values.len() ==> is_cli_scalar_value(#[trigger] values[k]),
        _ => false,
    }
}

fn is_integer_number_exec(t: &str) -> (result: bool)
    ensures
        result == is_integer_number(t@),
{
    let chars = chars_of(t);
    if chars.len() > 0 && chars[0] == '-' {
        if chars.len() < 2 || !('0' <= chars[1] && chars[1] <= '9') {
            proof {
                if chars@.len() >= 2 {
                    assert(t@.drop_first()[0] == chars@[1]);
                }
            }
            return false;
        }
        let rest = crate::text::string_from_chars(chars.as_slice().split_at(1).1);
        assert(rest@ =~= t@.drop_first());
        match parse_u64(rest.as_str()) {
            Some(v) => v >= 1 && v <= 9223372036854775808,
            None => false,
        }
    } else {
        if chars.len() == 0 || !('0' <= chars[0] && chars[0] <= '9') {
            return false;
        }
        parse_u64(t).is_some()
    }
}

#[verifier::loop_isolation(false)]
pub fn schema_allows_cli_scalar(schema: &JsonValue) -> (result: bool)
    ensures
        result == allows_cli_scalar(schema@),
{
    if schema_allows_type(schema, "string") || schema_allows_type(schema, "integer") || schema_allows_type(schema, "boolean") {
        return true;
    }
    match json_get_member(schema, "enum") {
        Some(JsonValue::Array(values)) => {
            proof {
                lemma_items_view(values@);
            }
            let ghost vv = json_items_view(values@);
            if values.len() == 0 {
                return false;
            }
            let mut i: usize = 0;
            while i < values.len()
                invariant
                    i <= values@.len(),
                    vv == json_items_view(values@),
                    vv.len() == values@.len(),
                    forall|j: int| 0 <= j < values@.len() ==> #[trigger] vv[j] == json_view(values@[j]),
                    forall|j: int| 0 <= j < i ==> is_cli_scalar_value(#[trigger] vv[j]),
                decreases values@.len() - i,
            {
                let ok = match &values[i] {
                    JsonValue::Str(_) | JsonValue::Bool(_) => true,
                    JsonValue::Number(n) => is_integer_number_exec(n.as_str()),
                    _ => false,
                };
                if !ok {
                    assert(!is_cli_scalar_value(vv[i as int]));
                    return false;
                }
                i = i + 1;
            }
            true
        },
        _ => false,
    }
}

/// The schema of property `name`: from the schema's own `properties`, else
/// from the first `allOf` branch that declares it.
pub open spec fn property_of(v: JsonView, name: Seq<char>) -> Option<JsonView>
    decreases v,
{
    match v {
        JsonView::Object(members) => {
            let own = match json_get(v, "properties"@) {
                Some(JsonView::Object(props)) => member_lookup(props, name),
                _ => None,
            };
            match own {
                Some(p) => Some(p),
                None => all_of_property(members, name),
            }
        },
        _ => None,
    }
}

pub open spec fn all_of_property(members: Seq<(Seq<char>, JsonView)>, name: Seq<char>) -> Option<JsonView>
    decreases members,
{
    if members.len() == 0 {
        None
    } else if members[0].0 == "allOf"@ {
        proof {
            assert(decreases_to!(members => members[0]));
        }
        match members[0].1 {
            JsonView::Array(branches) => first_property(branches, name),
            _ => None,
        }
    } else {
        all_of_property(members.drop_first(), name)
    }
}

pub open spec fn first_property(branches: Seq<JsonView>, name: Seq<char>) -> Option<JsonView>
    decreases branches,
{
    if branches.len() == 0 {
        None
    } else {
        proof {
            assert(decreases_to!(branches => branches[0]));
        }
        match property_of(branches[0], name) {
            Some(p) => Some(p),
            None => first_property(branches.drop_first(), name),
        }
    }
}

/// The schema of property `name` of an object schema.
#[verifier::loop_isolation(false)]
pub fn schema_property<'a>(schema: &'a JsonValue, name: &str) -> (result: Option<&'a JsonValue>)
    ensures
        match result {
            Some(r) => property_of(schema@, name@) == Some(r@),
            None => property_of(schema@, name@) is None,
        },
    decreases schema,
{
    let members = match schema {
        JsonValue::Object(members) => members,
        _ => return None,
    };
    match json_get_member(schema, "properties") {
        Some(props) => {
            match props {
                JsonValue::Object(_) => {
                    match json_get_member(props, name) {
                        Some(p) => return Some(p),
                        None => {},
                    }
                },
                _ => {},
            }
        },
        None => {},
    }
    let ghost mv = json_members_view(members@);
    proof {
        lemma_members_view(members@);
    }
    let mut i: usize = 0;
    assert(mv.skip(0) =~= mv);
    while i < members.len()
        invariant
            i <= members@.len(),
            mv.len() == members@.len(),
            forall|j: int| 0 <= j < members@.len() ==> #[trigger] mv[j] == (members@[j].key@, json_view(members@[j].value)),
            all_of_property(mv, name@) == all_of_property(mv.skip(i as int), name@),
        decreases members@.len() - i,
    {
        let ghost rest = mv.skip(i as int);
        assert(rest[0] == mv[i as int]);
        assert(rest.drop_first() =~= mv.skip(i + 1));
        if str_eq(members[i].key.as_str(), "allOf") {
            proof {
                assert(decreases_to!(*schema => schema->Object_0));
                assert(decreases_to!(*members => members@));
                assert(decreases_to!(members@ => members@[i as int]));
                assert(decreases_to!(members@[i as int] => members@[i as int].value));
            }
            match &members[i].value {
                JsonValue::Array(branches) => {
                    proof {
                        lemma_items_view(branches@);
                    }
                    let ghost bv = json_items_view(branches@);
                    let mut b: usize = 0;
                    assert(bv.skip(0) =~= bv);
                    while b < branches.len()
                        invariant
                            b <= branches@.len(),
                            bv.len() == branches@.len(),
                            forall|j: int| 0 <= j < branches@.len() ==> #[trigger] bv[j] == json_view(branches@[j]),
                            first_property(bv, name@) == first_property(bv.skip(b as int), name@),
                        decreases branches@.len() - b,
                    {
                        let ghost brest = bv.skip(b as int);
                        assert(brest[0] == bv[b as int]);
                        assert(brest.drop_first() =~= bv.skip(b + 1));
                        proof {
                            assert(decreases_to!(members@[i as int].value => members@[i as int].value->Array_0));
                            assert(decreases_to!(*branches => branches@));
                            assert(decreases_to!(branches@ => branches@[b as int]));
                        }
                        match schema_property(&branches[b], name) {
                            Some(p) => return Some(p),
                            None => {},
                        }
                        b = b + 1;
                    }
                    assert(bv.skip(b as int).len() == 0);
                    return None;
                },
                _ => return None,
            }
        }
        i = i + 1;
    }
    None
}

// ----------------------------------------------------------------------
// Defaults.
// ----------------------------------------------------------------------

/// `instance` with the `default` of every declared property it lacks
/// filled in, through `allOf` branches, nested properties and array items.
pub open spec fn with_defaults(schema: JsonView, instance: JsonView) -> JsonView
    decreases schema, 0int,
{
    match schema {
        JsonView::Object(sm) => items_defaults(sm, properties_defaults(sm, all_of_defaults(sm, instance))),
        _ => instance,
    }
}

/// Applies the branches of the first `allOf` member, in order.
pub open spec fn all_of_defaults(sm: Seq<(Seq<char>, JsonView)>, instance: JsonView) -> JsonView
    decreases sm, 0int,
{
    if sm.len() == 0 {
        instance
    } else if sm[0].0 == "allOf"@ {
        proof {
            assert(decreases_to!(sm => sm[0]));
        }
        match sm[0].1 {
            JsonView::Array(branches) => branches_defaults(branches, instance),
            _ => instance,
        }
    } else {
        all_of_defaults(sm.drop_first(), instance)
    }
}

pub open spec fn branches_defaults(branches: Seq<JsonView>, instance: JsonView) -> JsonView
    decreases branches, 0int,
{
    if branches.len() == 0 {
        instance
    } else {
        proof {
            assert(decreases_to!(branches => branches[0]));
        }
        branches_defaults(branches.drop_first(), with_defaults(branches[0], instance))
    }
}

/// Applies the first `properties` member to an object instance.
pub open spec fn properties_defaults(sm: Seq<(Seq<char>, JsonView)>, instance: JsonView) -> JsonView
    decreases sm, 0int,
{
    if sm.len() == 0 {
        instance
    } else if sm[0].0 == "properties"@ {
        proof {
            assert(decreases_to!(sm => sm[0]));
        }
        match (sm[0].1, instance) {
            (JsonView::Object(props), JsonView::Object(im)) => JsonView::Object(props_defaults(props, im)),
            _ => instance,
        }
    } else {
        properties_defaults(sm.drop_first(), instance)
    }
}

/// For each declared property in order: add its default when the instance
/// lacks it, then fill in the property's own defaults.
pub open spec fn props_defaults(props: Seq<(Seq<char>, JsonView)>, im: Seq<(Seq<char>, JsonView)>) -> Seq<(Seq<char>, JsonView)>
    decreases props, 0int,
{
    if props.len() == 0 {
        im
    } else {
        proof {
            assert(decreases_to!(props => props[0]));
        }
        let name = props[0].0;
        let ps = props[0].1;
        let im1 = match json_get(ps, "default"@) {
            Some(d) => if member_lookup(im, name) is None { im.push((name, d)) } else { im },
            None => im,
        };
        let im2 = match member_lookup(im1, name) {
            Some(cur) => update_member(im1, name, with_defaults(ps, cur)),
            None => im1,
        };
        props_defaults(props.drop_first(), im2)
    }
}

/// Applies the first `items` member to each element of an array instance.
pub open spec fn items_defaults(sm: Seq<(Seq<char>, JsonView)>, instance: JsonView) -> JsonView
    decreases sm, 0int,
{
    if sm.len() == 0 {
        instance
    } else if sm[0].0 == "items"@ {
        proof {
            assert(decreases_to!(sm => sm[0]));
        }
        match instance {
            JsonView::Array(items) => JsonView::Array(map_defaults(sm[0].1, items)),
            _ => instance,
        }
    } else {
        items_defaults(sm.drop_first(), instance)
    }
}

pub open spec fn map_defaults(schema: JsonView, items: Seq<JsonView>) -> Seq<JsonView>
    decreases schema, items.len(),
{
    if items.len() == 0 {
        Seq::empty()
    } else {
        seq![with_defaults(schema, items[0])] + map_defaults(schema, items.drop_first())
    }
}

/// Fills in the declared defaults of one property of an object instance.
#[verifier::loop_isolation(false)]
fn property_step(name: &str, property_schema: &JsonValue, im: &mut Vec<JsonMember>)
    ensures
        json_members_view(final(im)@) == ({
            let iv = json_members_view(old(im)@);
            let im1 = match json_get(property_schema@, "default"@) {
                Some(d) => if member_lookup(iv, name@) is None { iv.push((name@, d)) } else { iv },
                None => iv,
            };
            match member_lookup(im1, name@) {
                Some(cur) => update_member(im1, name@, with_defaults(property_schema@, cur)),
                None => im1,
            }
        }),
    decreases property_schema, 1int,
{
    let ghost iv = json_members_view(im@);
    proof {
        lemma_members_view(im@);
    }
    match json_get_member(property_schema, "default") {
        Some(d) => {
            match find_member(im, name) {
                None => {
                    proof {
                        assert forall|j: int| 0 <= j < iv.len() implies iv[j].0 != name@ by {}
                        lemma_no_member(iv, name@);
                    }
                    let ghost before = im@;
                    im.push(JsonMember { key: name.to_owned(), value: clone_json(d) });
                    proof {
                        lemma_members_view(im@);
                        lemma_members_view(before);
                        assert(json_members_view(im@) =~= iv.push((name@, d@)));
                    }
                },
                Some(k) => {
                    proof {
                        lemma_first_member(iv, name@, k as int, JsonView::Null);
                    }
                },
            }
        },
        None => {},
    }
    let ghost im1 = json_members_view(im@);
    proof {
        lemma_members_view(im@);
    }
    match find_member(im, name) {
        Some(k) => {
            proof {
                lemma_first_member(im1, name@, k as int, JsonView::Null);
            }
            let updated = with_defaults_exec(property_schema, &im[k].value);
            let ghost before = im@;
            proof {
                lemma_first_member(im1, name@, k as int, updated@);
            }
            let key = im[k].key.clone();
            im.set(k, JsonMember { key, value: updated });
            proof {
                lemma_members_view(im@);
                lemma_members_view(before);
                assert(json_members_view(im@) =~= im1.update(k as int, (name@, updated@)));
            }
        },
        None => {
            proof {
                assert forall|j: int| 0 <= j < im1.len() implies im1[j].0 != name@ by {}
                lemma_no_member(im1, name@);
            }
        },
    }
}

/// `instance` with the defaults of `schema` filled in.
#[verifier::loop_isolation(false)]
pub fn with_defaults_exec(schema: &JsonValue, instance: &JsonValue) -> (result: JsonValue)
    ensures
        result@ == with_defaults(schema@, instance@),
    decreases schema, 0int,
{
    let sm = match schema {
        JsonValue::Object(sm) => sm,
        _ => return clone_json(instance),
    };
    let ghost smv = json_members_view(sm@);
    proof {
        lemma_members_view(sm@);
    }
    // `allOf` branches, in order.
    let mut current = clone_json(instance);
    let mut i: usize = 0;
    let mut done = false;
    assert(smv.skip(0) =~= smv);
    while i < sm.len() && !done
        invariant
            i <= sm@.len(),
            smv.len() == sm@.len(),
            forall|j: int| 0 <= j < sm@.len() ==> #[trigger] smv[j] == (sm@[j].key@, json_view(sm@[j].value)),
            done ==> current@ == all_of_defaults(smv, instance@),
            !done ==> all_of_defaults(smv, instance@) == all_of_defaults(smv.skip(i as int), current@),
            !done ==> current@ == instance@,
        decreases sm@.len() - i + (if done { 0int } else { 1int }),
    {
        let ghost rest = smv.skip(i as int);
        assert(rest[0] == smv[i as int]);
        assert(rest.drop_first() =~= smv.skip(i + 1));
        if str_eq(sm[i].key.as_str(), "allOf") {
            proof {
                assert(decreases_to!(*schema => schema->Object_0));
                assert(decreases_to!(*sm => sm@));
                assert(decreases_to!(sm@ => sm@[i as int]));
                assert(decreases_to!(sm@[i as int] => sm@[i as int].value));
            }
            match &sm[i].value {
                JsonValue::Array(branches) => {
                    let ghost bv = json_items_view(branches@);
                    proof {
                        lemma_items_view(branches@);
                    }
                    let mut b: usize = 0;
                    assert(bv.skip(0) =~= bv);
                    while b < branches.len()
                        invariant
                            b <= branches@.len(),
                            bv.len() == branches@.len(),
                            forall|j: int| 0 <= j < branches@.len() ==> #[trigger] bv[j] == json_view(branches@[j]),
                            branches_defaults(bv, instance@) == branches_defaults(bv.skip(b as int), current@),
                        decreases branches@.len() - b,
                    {
                        let ghost brest = bv.skip(b as int);
                        assert(brest[0] == bv[b as int]);
                        assert(brest.drop_first() =~= bv.skip(b + 1));
                        proof {
                            assert(decreases_to!(sm@[i as int].value => sm@[i as int].value->Array_0));
                            assert(decreases_to!(*branches => branches@));
                            assert(decreases_to!(branches@ => branches@[b as int]));
                        }
                        current = with_defaults_exec(&branches[b], &current);
                        b = b + 1;
                    }
                    assert(bv.skip(b as int).len() == 0);
                },
                _ => {},
            }
            done = true;
        } else {
            i = i + 1;
        }
    }
    let ghost after_all_of = current@;
    assert(after_all_of == all_of_defaults(smv, instance@)) by {
        if !done {
            assert(smv.skip(i as int).len() == 0);
        }
    }
    // `properties`, for an object instance.
    let mut i: usize = 0;
    let mut done = false;
    assert(smv.skip(0) =~= smv);
    while i < sm.len() && !done
        invariant
            i <= sm@.len(),
            smv.len() == sm@.len(),
            forall|j: int| 0 <= j < sm@.len() ==> #[trigger] smv[j] == (sm@[j].key@, json_view(sm@[j].value)),
            done ==> current@ == properties_defaults(smv, after_all_of),
            !done ==> properties_defaults(smv, after_all_of) == properties_defaults(smv.skip(i as int), after_all_of),
            !done ==> current@ == after_all_of,
        decreases sm@.len() - i + (if done { 0int } else { 1int }),
    {
        let ghost rest = smv.skip(i as int);
        assert(rest[0] == smv[i as int]);
        assert(rest.drop_first() =~= smv.skip(i + 1));
        if str_eq(sm[i].key.as_str(), "properties") {
            proof {
                assert(decreases_to!(*schema => schema->Object_0));
                assert(decreases_to!(*sm => sm@));
                assert(decreases_to!(sm@ => sm@[i as int]));
                assert(decreases_to!(sm@[i as int] => sm@[i as int].value));
            }
            match (&sm[i].value, current) {
                (JsonValue::Object(props), JsonValue::Object(members)) => {
                    let mut im = members;
                    let ghost im0 = json_members_view(im@);
                    let ghost pv = json_members_view(props@);
                    proof {
                        lemma_members_view(props@);
                    }
                    let mut p: usize = 0;
                    assert(pv.skip(0) =~= pv);
                    while p < props.len()
                        invariant
                            p <= props@.len(),
                            pv.len() == props@.len(),
                            forall|j: int| 0 <= j < props@.len() ==> #[trigger] pv[j] == (props@[j].key@, json_view(props@[j].value)),
                            props_defaults(pv, im0) == props_defaults(pv.skip(p as int), json_members_view(im@)),
                        decreases props@.len() - p,
                    {
                        let ghost prest = pv.skip(p as int);
                        assert(prest[0] == pv[p as int]);
                        assert(prest.drop_first() =~= pv.skip(p + 1));
                        proof {
                            assert(decreases_to!(sm@[i as int].value => sm@[i as int].value->Object_0));
                            assert(decreases_to!(*props => props@));
                            assert(decreases_to!(props@ => props@[p as int]));
                            assert(decreases_to!(props@[p as int] => props@[p as int].value));
                        }
                        property_step(props[p].key.as_str(), &props[p].value, &mut im);
                        p = p + 1;
                    }
                    assert(pv.skip(p as int).len() == 0);
                    current = JsonValue::Object(im);
                },
                (_, other) => {
                    current = other;
                },
            }
            done = true;
        } else {
            i = i + 1;
        }
    }
    let ghost after_properties = current@;
    assert(after_properties == properties_defaults(smv, after_all_of)) by {
        if !done {
            assert(smv.skip(i as int).len() == 0);
        }
    }
    // `items`, for an array instance.
    let mut i: usize = 0;
    let mut done = false;
    assert(smv.skip(0) =~= smv);
    while i < sm.len() && !done
        invariant
            i <= sm@.len(),
            smv.len() == sm@.len(),
            forall|j: int| 0 <= j < sm@.len() ==> #[trigger] smv[j] == (sm@[j].key@, json_view(sm@[j].value)),
            done ==> current@ == items_defaults(smv, after_properties),
            !done ==> items_defaults(smv, after_properties) == items_defaults(smv.skip(i as int), after_properties),
            !done ==> current@ == after_properties,
        decreases sm@.len() - i + (if done { 0int } else { 1int }),
    {
        let ghost rest = smv.skip(i as int);
        assert(rest[0] == smv[i as int]);
        assert(rest.drop_first() =~= smv.skip(i + 1));
        if str_eq(sm[i].key.as_str(), "items") {
            proof {
                assert(decreases_to!(*schema => schema->Object_0));
                assert(decreases_to!(*sm => sm@));
                assert(decreases_to!(sm@ => sm@[i as int]));
                assert(decreases_to!(sm@[i as int] => sm@[i as int].value));
            }
            match current {
                JsonValue::Array(items) => {
                    let ghost iv = json_items_view(items@);
                    proof {
                        lemma_items_view(items@);
                    }
                    let mut out: Vec<JsonValue> = Vec::new();
                    let mut k: usize = 0;
                    while k < items.len()
                        invariant
                            k <= items@.len(),
                            iv.len() == items@.len(),
                            forall|j: int| 0 <= j < items@.len() ==> #[trigger] iv[j] == json_view(items@[j]),
                            out@.len() == k,
                            forall|j: int| 0 <= j < k ==> #[trigger] json_view(out@[j]) == with_defaults(smv[i as int].1, iv[j]),
                        decreases items@.len() - k,
                    {
                        out.push(with_defaults_exec(&sm[i].value, &items[k]));
                        k = k + 1;
                    }
                    proof {
                        lemma_items_view(out@);
                        lemma_map_defaults(smv[i as int].1, iv);
                        assert(json_items_view(out@) =~= map_defaults(smv[i as int].1, iv));
                    }
                    current = JsonValue::Array(out);
                },
                other => {
                    current = other;
                },
            }
            done = true;
        } else {
            i = i + 1;
        }
    }
    assert(current@ == items_defaults(smv, after_properties)) by {
        if !done {
            assert(smv.skip(i as int).len() == 0);
        }
    }
    current
}

proof fn lemma_map_defaults(schema: JsonView, items: Seq<JsonView>)
    ensures
        map_defaults(schema, items).len() == items.len(),
        forall|j: int| 0 <= j < items.len() ==> #[trigger] map_defaults(schema, items)[j] == with_defaults(schema, items[j]),
    decreases items.len(),
{
    if items.len() > 0 {
        lemma_map_defaults(schema, items.drop_first());
        assert forall|j: int| 0 <= j < items.len() implies #[trigger] map_defaults(schema, items)[j] == with_defaults(schema, items[j]) by {
            if j > 0 {
                assert(items.drop_first()[j - 1] == items[j]);
            }
        }
    }
}

/// Fills in, in place, the `default` of every declared property that an
/// instance lacks, through `allOf` branches, nested properties and array
/// items.
pub fn apply_schema_defaults(schema: &JsonValue, instance: &mut JsonValue)
    ensures
        final(instance)@ == with_defaults(schema@, old(instance)@),
{
    let updated = with_defaults_exec(schema, instance);
    *instance = updated;
}

// ----------------------------------------------------------------------
// Validating instances (Draft 2020-12).
// ----------------------------------------------------------------------

/// Whether the `jsonschema` crate's Draft 2020-12 validator, built from the
/// schema that `schema_text` holds, accepts the instance that
/// `instance_text` holds; `false` when either text is not JSON or the
/// schema does not build.
pub uninterp spec fn draft202012_accepts(schema_text: Seq<char>, instance_text: Seq<char>) -> bool;

/// Parses both texts with `serde_json::from_str`, builds a validator with
/// `jsonschema::draft202012::options().build` and asks `is_valid`.
/// Trusted: the answer is `draft202012_accepts` of the two texts, a
/// function of the texts alone (this build fetches no remote or file
/// resources, so nothing else enters); what the validator decides is not
/// stated here.
#[verifier::external_body]
fn draft202012_is_valid(schema_text: &str, instance_text: &str) -> (result: bool)
    ensures
        result == draft202012_accepts(schema_text@, instance_text@),
{
    let schema: serde_json::Value = match serde_json::from_str(schema_text) {
        Ok(value) => value,
        Err(_) => return false,
    };
    let instance: serde_json::Value = match serde_json::from_str(instance_text) {
        Ok(value) => value,
        Err(_) => return false,
    };
    match jsonschema::draft202012::options().build(&schema) {
        Ok(validator) => validator.is_valid(&instance),
        Err(_) => false,
    }
}

/// Whether the schema that `schema_text` holds passes the `jsonschema`
/// crate's Draft 2020-12 meta-schema check; `false` when the text is not
/// JSON.
pub uninterp spec fn draft202012_meta_accepts(schema_text: Seq<char>) -> bool;

/// Parses the text with `serde_json::from_str` and calls
/// `jsonschema::draft202012::meta::validate`.  Trusted: the answer is
/// `draft202012_meta_accepts` of the text, a function of the text alone;
/// what the meta-schema accepts is not stated here.
#[verifier::external_body]
fn draft202012_meta_is_valid(schema_text: &str) -> (result: bool)
    ensures
        result == draft202012_meta_accepts(schema_text@),
{
    match serde_json::from_str::<serde_json::Value>(schema_text) {
        Ok(schema) => jsonschema::draft202012::meta::validate(&schema).is_ok(),
        Err(_) => false,
    }
}

/// Whether the `jsonschema` crate builds a Draft 2020-12 validator from the
/// schema that `schema_text` holds; `false` when the text is not JSON.
pub uninterp spec fn draft202012_builds(schema_text: Seq<char>) -> bool;

/// Parses the text with `serde_json::from_str` and calls
/// `jsonschema::draft202012::options().build`.  Trusted: the answer is
/// `draft202012_builds` of the text, a function of the text alone (this
/// build fetches no remote or file resources); which schemas build is not
/// stated here.
#[verifier::external_body]
fn draft202012_build_succeeds(schema_text: &str) -> (result: bool)
    ensures
        result == draft202012_builds(schema_text@),
{
    match serde_json::from_str::<serde_json::Value>(schema_text) {
        Ok(schema) => jsonschema::draft202012::options().build(&schema).is_ok(),
        Err(_) => false,
    }
}

/// A resolved schema passes the Draft 2020-12 meta-schema and builds a
/// validator.
pub open spec fn schema_compiles(resolved: JsonView) -> bool {
    draft202012_meta_accepts(json_text(resolved)) && draft202012_builds(json_text(resolved))
}

/// Checks a resolved schema against the Draft 2020-12 meta-schema and
/// builds a validator from it.
pub fn check_schema_compiles(resolved: &JsonValue) -> (result: Result<(), ResourceValidationError>)
    ensures
        result is Ok <==> schema_compiles(resolved@),
        result matches Err(e) ==> e == ResourceValidationError::Schema,
{
    let text = render_json(resolved);
    if !draft202012_meta_is_valid(text.as_str()) {
        return Err(ResourceValidationError::Schema);
    }
    if !draft202012_build_succeeds(text.as_str()) {
        return Err(ResourceValidationError::Schema);
    }
    Ok(())
}

/// Checks `instance` against `schema` with the Draft 2020-12 validator.
pub fn validate_schema_instance(schema: &JsonValue, instance: &JsonValue) -> (result: Result<(), SchemaInstanceError>)
    ensures
        result is Ok <==> draft202012_accepts(json_text(schema@), json_text(instance@)),
{
    let schema_text = render_json(schema);
    let instance_text = render_json(instance);
    if draft202012_is_valid(schema_text.as_str(), instance_text.as_str()) {
        Ok(())
    } else {
        Err(SchemaInstanceError)
    }
}

/// The arguments with the schema's defaults applied, when they are an
/// object that then satisfies the schema.
pub open spec fn normalized_arguments(schema: JsonView, arguments: JsonView) -> Option<JsonView> {
    if !(arguments is Object) {
        None
    } else {
        let normalized = with_defaults(schema, arguments);
        if draft202012_accepts(json_text(schema), json_text(normalized)) { Some(normalized) } else { None }
    }
}

/// Applies the schema's defaults to an argument object and validates the
/// result.
pub fn normalize_schema_arguments(schema: &JsonValue, arguments: &JsonValue) -> (result: Result<JsonValue, SchemaInstanceError>)
    ensures
        match normalized_arguments(schema@, arguments@) {
            Some(n) => result matches Ok(r) && r@ == n,
            None => result is Err,
        },
{
    match arguments {
        JsonValue::Object(_) => {},
        _ => return Err(SchemaInstanceError),
    }
    let normalized = with_defaults_exec(schema, arguments);
    match validate_schema_instance(schema, &normalized) {
        Ok(()) => Ok(normalized),
        Err(e) => Err(e),
    }
}

// ----------------------------------------------------------------------
// Argv bindings against the input schema.
// ----------------------------------------------------------------------

/// One argv binding of an action, as the schema check reads it.
pub struct ArgvBinding {
    pub kind: String,
    pub input: Option<String>,
    pub when_input: Option<String>,
    pub inputs: Vec<String>,
    pub when_equals: Option<JsonValue>,
    pub content_kind: Option<String>,
}

pub struct BindingView {
    pub kind: Seq<char>,
    pub input: Option<Seq<char>>,
    pub when_input: Option<Seq<char>>,
    pub inputs: Seq<Seq<char>>,
    pub when_equals: Option<JsonView>,
    pub content_kind: Option<Seq<char>>,
}

pub open spec fn text_opt(v: Option<String>) -> Option<Seq<char>> {
    match v {
        Some(s) => Some(s@),
        None => None,
    }
}

impl View for ArgvBinding {
    type V = BindingView;

    open spec fn view(&self) -> BindingView {
        BindingView {
            kind: self.kind@,
            input: text_opt(self.input),
            when_input: text_opt(self.when_input),
            inputs: self.inputs@.map_values(|t: String| t@),
            when_equals: match self.when_equals { Some(v) => Some(v@), None => None },
            content_kind: text_opt(self.content_kind),
        }
    }
}

/// Whether the property bound by a binding of `kind` has a type the
/// binding can carry.
pub open spec fn binding_type_ok(kind: Seq<char>, content_kind: Option<Seq<char>>, property: JsonView) -> bool {
    if kind == "flag_if_true"@ || kind == "flag_if_false"@ {
        allows_type(property, "boolean"@)
    } else if kind == "repeat"@ {
        allows_type(property, "array"@) && match json_get(property, "items"@) {
            Some(items) => allows_cli_scalar(items),
            None => false,
        }
    } else if kind == "stdin_text"@ {
        allows_type(property, "string"@)
    } else if kind == "temp_file"@ {
        let content = match content_kind {
            Some(c) => c,
            None => "text"@,
        };
        if content == "text"@ || content == "base64"@ {
            allows_type(property, "string"@)
        } else {
            content == "json"@
        }
    } else if kind == "positional"@ || kind == "option"@ || kind == "joined"@ {
        allows_cli_scalar(property)
    } else {
        true
    }
}

/// A binding fits the input schema: every input it names is a property,
/// a conditional binding's value satisfies its property's schema, and the
/// bound property has a type the binding can carry.
pub open spec fn binding_ok(b: BindingView, schema: JsonView) -> bool {
    &&& (b.input matches Some(n) ==> property_of(schema, n) is Some)
    &&& (b.when_input matches Some(n) ==> property_of(schema, n) is Some)
    &&& (forall|i: int| 0 <= i < b.inputs.len() ==> (#[trigger] property_of(schema, b.inputs[i])) is Some)
    &&& (b.when_input matches Some(n) ==> (b.when_equals matches Some(v)
        && draft202012_accepts(json_text(property_of(schema, n)->0), json_text(v))))
    &&& (b.input matches Some(n) ==> binding_type_ok(b.kind, b.content_kind, property_of(schema, n)->0))
}

pub open spec fn bindings_ok(bindings: Seq<ArgvBinding>, schema: JsonView) -> bool {
    forall|i: int| 0 <= i < bindings.len() ==> binding_ok(#[trigger] bindings[i]@, schema)
}

fn binding_type_check(kind: &str, content_kind: &Option<String>, property: &JsonValue) -> (result: bool)
    ensures
        result == binding_type_ok(kind@, text_opt(*content_kind), property@),
{
    if str_eq(kind, "flag_if_true") || str_eq(kind, "flag_if_false") {
        schema_allows_type(property, "boolean")
    } else if str_eq(kind, "repeat") {
        schema_allows_type(property, "array") && match json_get_member(property, "items") {
            Some(items) => schema_allows_cli_scalar(items),
            None => false,
        }
    } else if str_eq(kind, "stdin_text") {
        schema_allows_type(property, "string")
    } else if str_eq(kind, "temp_file") {
        let content: &str = match content_kind {
            Some(c) => c.as_str(),
            None => "text",
        };
        if str_eq(content, "text") || str_eq(content, "base64") {
            schema_allows_type(property, "string")
        } else {
            str_eq(content, "json")
        }
    } else if str_eq(kind, "positional") || str_eq(kind, "option") || str_eq(kind, "joined") {
        schema_allows_cli_scalar(property)
    } else {
        true
    }
}

fn binding_check(b: &ArgvBinding, schema: &JsonValue) -> (result: bool)
    ensures
        result == binding_ok(b@, schema@),
{
    match &b.input {
        Some(n) => {
            if schema_property(schema, n.as_str()).is_none() {
                return false;
            }
        },
        None => {},
    }
    match &b.when_input {
        Some(n) => {
            if schema_property(schema, n.as_str()).is_none() {
                return false;
            }
        },
        None => {},
    }
    let ghost names = b@.inputs;
    let mut i: usize = 0;
    while i < b.inputs.len()
        invariant
            names == b@.inputs,
            names.len() == b.inputs@.len(),
            i <= b.inputs@.len(),
            forall|k: int| 0 <= k < i ==> (#[trigger] property_of(schema@, names[k])) is Some,
        decreases b.inputs@.len() - i,
    {
        assert(names[i as int] == b.inputs@[i as int]@);
        if schema_property(schema, b.inputs[i].as_str()).is_none() {
            return false;
        }
        i = i + 1;
    }
    match &b.when_input {
        Some(n) => {
            let property = match schema_property(schema, n.as_str()) {
                Some(p) => p,
                None => return false,
            };
            match &b.when_equals {
                Some(v) => {
                    if validate_schema_instance(property, v).is_err() {
                        return false;
                    }
                },
                None => return false,
            }
        },
        None => {},
    }
    match &b.input {
        Some(n) => {
            let property = match schema_property(schema, n.as_str()) {
                Some(p) => p,
                None => return false,
            };
            binding_type_check(b.kind.as_str(), &b.content_kind, property)
        },
        None => true,
    }
}

/// Checks every argv binding of an action against its resolved input
/// schema.
pub fn validate_schema_bindings(bindings: &Vec<ArgvBinding>, input_schema: &JsonValue) -> (result: Result<(), ResourceValidationError>)
    ensures
        result is Ok <==> bindings_ok(bindings@, input_schema@),
        result matches Err(e) ==> e == ResourceValidationError::Schema,
{
    let mut i: usize = 0;
    while i < bindings.len()
        invariant
            i <= bindings@.len(),
            forall|k: int| 0 <= k < i ==> binding_ok(#[trigger] bindings@[k]@, input_schema@),
        decreases bindings@.len() - i,
    {
        if !binding_check(&bindings[i], input_schema) {
            return Err(ResourceValidationError::Schema);
        }
        i = i + 1;
    }
    Ok(())
}

} // verus!
