//! A JSON document as the decision logic reads it.  Numbers keep their
//! source text; object members keep their order.
use vstd::prelude::*;

use crate::text::{str_eq, chars_of, string_push};

verus! {

pub enum JsonValue {
    Null,
    Bool(bool),
    Number(String),
    Str(String),
    Array(Vec<JsonValue>),
    Object(Vec<JsonMember>),
}

pub struct JsonMember {
    pub key: String,
    pub value: JsonValue,
}

/// The mathematical value of a JSON document.
pub enum JsonView {
    Null,
    Bool(bool),
    Number(Seq<char>),
    Str(Seq<char>),
    Array(Seq<JsonView>),
    Object(Seq<(Seq<char>, JsonView)>),
}

pub open spec fn json_view(v: JsonValue) -> JsonView
    decreases v,
{
    match v {
        JsonValue::Null => JsonView::Null,
        JsonValue::Bool(b) => JsonView::Bool(b),
        JsonValue::Number(n) => JsonView::Number(n@),
        JsonValue::Str(s) => JsonView::Str(s@),
        JsonValue::Array(items) => JsonView::Array(json_items_view(items@)),
        JsonValue::Object(members) => JsonView::Object(json_members_view(members@)),
    }
}

pub open spec fn json_items_view(items: Seq<JsonValue>) -> Seq<JsonView>
    decreases items,
{
    if items.len() == 0 {
        Seq::empty()
    } else {
        json_items_view(items.drop_last()).push(json_view(items.last()))
    }
}

pub open spec fn json_members_view(members: Seq<JsonMember>) -> Seq<(Seq<char>, JsonView)>
    decreases members,
{
    if members.len() == 0 {
        Seq::empty()
    } else {
        json_members_view(members.drop_last()).push((members.last().key@, json_view(members.last().value)))
    }
}

impl View for JsonValue {
    type V = JsonView;

    open spec fn view(&self) -> JsonView {
        json_view(*self)
    }
}

pub proof fn lemma_items_view(items: Seq<JsonValue>)
    ensures
        json_items_view(items).len() == items.len(),
        forall|i: int| 0 <= i < items.len() ==> #[trigger] json_items_view(items)[i] == json_view(items[i]),
    decreases items.len(),
{
    if items.len() > 0 {
        lemma_items_view(items.drop_last());
    }
}

pub proof fn lemma_members_view(members: Seq<JsonMember>)
    ensures
        json_members_view(members).len() == members.len(),
        forall|i: int| 0 <= i < members.len() ==> #[trigger] json_members_view(members)[i] == (members[i].key@, json_view(members[i].value)),
    decreases members.len(),
{
    if members.len() > 0 {
        lemma_members_view(members.drop_last());
    }
}

/// The first member of `members` named `key`.
pub open spec fn member_lookup(members: Seq<(Seq<char>, JsonView)>, key: Seq<char>) -> Option<JsonView>
    decreases members.len(),
{
    if members.len() == 0 {
        None
    } else if members[0].0 == key {
        Some(members[0].1)
    } else {
        member_lookup(members.drop_first(), key)
    }
}

/// The value of member `key` when `v` is an object that has one.
pub open spec fn json_get(v: JsonView, key: Seq<char>) -> Option<JsonView> {
    match v {
        JsonView::Object(members) => member_lookup(members, key),
        _ => None,
    }
}

/// A deep copy of a JSON document.
#[verifier::loop_isolation(false)]
pub fn clone_json(v: &JsonValue) -> (result: JsonValue)
    ensures
        result@ == v@,
    decreases v,
{
    match v {
        JsonValue::Null => JsonValue::Null,
        JsonValue::Bool(b) => JsonValue::Bool(*b),
        JsonValue::Number(n) => JsonValue::Number(n.clone()),
        JsonValue::Str(s) => JsonValue::Str(s.clone()),
        JsonValue::Array(items) => {
            let mut out: Vec<JsonValue> = Vec::new();
            let mut i: usize = 0;
            while i < items.len()
                invariant
                    i <= items@.len(),
                    out@.len() == i,
                    forall|j: int| 0 <= j < i ==> #[trigger] json_view(out@[j]) == json_view(items@[j]),
                decreases items@.len() - i,
            {
                proof {
                    assert(decreases_to!(*v => v->Array_0));
                    assert(decreases_to!(*items => items@));
                    assert(decreases_to!(items@ => items@[i as int]));
                }
                let c = clone_json(&items[i]);
                out.push(c);
                i = i + 1;
            }
            proof {
                lemma_items_view(out@);
                lemma_items_view(items@);
                assert(json_items_view(out@) =~= json_items_view(items@));
            }
            JsonValue::Array(out)
        },
        JsonValue::Object(members) => {
            let mut out: Vec<JsonMember> = Vec::new();
            let mut i: usize = 0;
            while i < members.len()
                invariant
                    i <= members@.len(),
                    out@.len() == i,
                    forall|j: int| 0 <= j < i ==> #[trigger] out@[j].key@ == members@[j].key@
                        && json_view(out@[j].value) == json_view(members@[j].value),
                decreases members@.len() - i,
            {
                proof {
                    assert(decreases_to!(*v => v->Object_0));
                    assert(decreases_to!(*members => members@));
                    assert(decreases_to!(members@ => members@[i as int]));
                    assert(decreases_to!(members@[i as int] => members@[i as int].value));
                }
                let c = clone_json(&members[i].value);
                out.push(JsonMember { key: members[i].key.clone(), value: c });
                i = i + 1;
            }
            proof {
                lemma_members_view(out@);
                lemma_members_view(members@);
                assert(json_members_view(out@) =~= json_members_view(members@));
            }
            JsonValue::Object(out)
        },
    }
}

/// Deep copies of a list of JSON values.
pub fn clone_items(items: &Vec<JsonValue>) -> (result: Vec<JsonValue>)
    ensures
        json_items_view(result@) == json_items_view(items@),
{
    let mut out: Vec<JsonValue> = Vec::new();
    let mut i: usize = 0;
    while i < items.len()
        invariant
            i <= items@.len(),
            out@.len() == i,
            forall|j: int| 0 <= j < i ==> #[trigger] json_view(out@[j]) == json_view(items@[j]),
        decreases items@.len() - i,
    {
        out.push(clone_json(&items[i]));
        i = i + 1;
    }
    proof {
        lemma_items_view(out@);
        lemma_items_view(items@);
        assert(json_items_view(out@) =~= json_items_view(items@));
    }
    out
}

/// Deep copies of the members of an object.
pub fn clone_members(members: &Vec<JsonMember>) -> (result: Vec<JsonMember>)
    ensures
        json_members_view(result@) == json_members_view(members@),
{
    let mut out: Vec<JsonMember> = Vec::new();
    let mut i: usize = 0;
    while i < members.len()
        invariant
            i <= members@.len(),
            out@.len() == i,
            forall|j: int| 0 <= j < i ==> #[trigger] out@[j].key@ == members@[j].key@
                && json_view(out@[j].value) == json_view(members@[j].value),
        decreases members@.len() - i,
    {
        out.push(JsonMember { key: members[i].key.clone(), value: clone_json(&members[i].value) });
        i = i + 1;
    }
    proof {
        lemma_members_view(out@);
        lemma_members_view(members@);
        assert(json_members_view(out@) =~= json_members_view(members@));
    }
    out
}

/// The value of member `key` when `v` is an object that has one.
#[verifier::loop_isolation(false)]
pub fn json_get_member<'a>(v: &'a JsonValue, key: &str) -> (result: Option<&'a JsonValue>)
    ensures
        match result {
            Some(r) => json_get(v@, key@) == Some(r@),
            None => json_get(v@, key@) is None,
        },
{
    match v {
        JsonValue::Object(members) => {
            proof {
                lemma_members_view(members@);
            }
            let ghost mv = json_members_view(members@);
            let k: String = key.to_owned();
            let mut i: usize = 0;
            assert(mv.subrange(0, mv.len() as int) =~= mv);
            while i < members.len()
                invariant
                    i <= members@.len(),
                    mv == json_members_view(members@),
                    mv.len() == members@.len(),
                    forall|j: int| 0 <= j < members@.len() ==> #[trigger] mv[j] == (members@[j].key@, json_view(members@[j].value)),
                    member_lookup(mv, k@) == member_lookup(mv.subrange(i as int, mv.len() as int), k@),
                decreases members@.len() - i,
            {
                let ghost rest = mv.subrange(i as int, mv.len() as int);
                assert(rest.drop_first() =~= mv.subrange(i + 1, mv.len() as int));
                if members[i].key == k {
                    assert(rest[0] == mv[i as int]);
                    assert(v@ == JsonView::Object(mv));
                    return Some(&members[i].value);
                }
                i = i + 1;
            }
            None
        },
        _ => None,
    }
}

/// `m` with the value of its first member named `name` replaced by `v`.
pub open spec fn update_member(m: Seq<(Seq<char>, JsonView)>, name: Seq<char>, v: JsonView) -> Seq<(Seq<char>, JsonView)>
    decreases m.len(),
{
    if m.len() == 0 {
        m
    } else if m[0].0 == name {
        m.update(0, (name, v))
    } else {
        seq![m[0]] + update_member(m.drop_first(), name, v)
    }
}

pub proof fn lemma_first_member(m: Seq<(Seq<char>, JsonView)>, name: Seq<char>, k: int, v: JsonView)
    requires
        0 <= k < m.len(),
        m[k].0 == name,
        forall|j: int| 0 <= j < k ==> m[j].0 != name,
    ensures
        member_lookup(m, name) == Some(m[k].1),
        update_member(m, name, v) == m.update(k, (name, v)),
    decreases k,
{
    if k > 0 {
        let rest = m.drop_first();
        assert forall|j: int| 0 <= j < k - 1 implies rest[j].0 != name by {
            assert(rest[j] == m[j + 1]);
        }
        lemma_first_member(rest, name, k - 1, v);
        assert(update_member(m, name, v) =~= m.update(k, (name, v)));
    }
}

pub proof fn lemma_no_member(m: Seq<(Seq<char>, JsonView)>, name: Seq<char>)
    requires
        forall|j: int| 0 <= j < m.len() ==> m[j].0 != name,
    ensures
        member_lookup(m, name) is None,
    decreases m.len(),
{
    if m.len() > 0 {
        let rest = m.drop_first();
        assert forall|j: int| 0 <= j < rest.len() implies rest[j].0 != name by {
            assert(rest[j] == m[j + 1]);
        }
        lemma_no_member(rest, name);
    }
}

/// The first member of `members` named `name`.
pub fn find_member(members: &Vec<JsonMember>, name: &str) -> (result: Option<usize>)
    ensures
        match result {
            Some(k) => k < members@.len() && members@[k as int].key@ == name@
                && forall|j: int| 0 <= j < k ==> members@[j].key@ != name@,
            None => forall|j: int| 0 <= j < members@.len() ==> members@[j].key@ != name@,
        },
{
    let mut i: usize = 0;
    while i < members.len()
        invariant
            i <= members@.len(),
            forall|j: int| 0 <= j < i ==> members@[j].key@ != name@,
        decreases members@.len() - i,
    {
        if str_eq(members[i].key.as_str(), name) {
            return Some(i);
        }
        i = i + 1;
    }
    None
}

/// `m` with member `name` set to `v`: the first member of that name is
/// replaced, or a new member is appended (`Map::insert`).
pub open spec fn set_member(m: Seq<(Seq<char>, JsonView)>, name: Seq<char>, v: JsonView) -> Seq<(Seq<char>, JsonView)> {
    if member_lookup(m, name) is Some { update_member(m, name, v) } else { m.push((name, v)) }
}

/// `m` without its first member named `name` (`Map::remove`).
pub open spec fn remove_member(m: Seq<(Seq<char>, JsonView)>, name: Seq<char>) -> Seq<(Seq<char>, JsonView)>
    decreases m.len(),
{
    if m.len() == 0 {
        m
    } else if m[0].0 == name {
        m.drop_first()
    } else {
        seq![m[0]] + remove_member(m.drop_first(), name)
    }
}

proof fn lemma_remove_first(m: Seq<(Seq<char>, JsonView)>, name: Seq<char>, k: int)
    requires
        0 <= k < m.len(),
        m[k].0 == name,
        forall|j: int| 0 <= j < k ==> m[j].0 != name,
    ensures
        remove_member(m, name) == m.remove(k),
    decreases k,
{
    if k > 0 {
        let rest = m.drop_first();
        assert forall|j: int| 0 <= j < k - 1 implies rest[j].0 != name by {
            assert(rest[j] == m[j + 1]);
        }
        lemma_remove_first(rest, name, k - 1);
        assert(remove_member(m, name) =~= m.remove(k));
    } else {
        assert(m.drop_first() =~= m.remove(0));
    }
}

proof fn lemma_remove_absent(m: Seq<(Seq<char>, JsonView)>, name: Seq<char>)
    requires
        forall|j: int| 0 <= j < m.len() ==> m[j].0 != name,
    ensures
        remove_member(m, name) == m,
    decreases m.len(),
{
    if m.len() > 0 {
        let rest = m.drop_first();
        assert forall|j: int| 0 <= j < rest.len() implies rest[j].0 != name by {
            assert(rest[j] == m[j + 1]);
        }
        lemma_remove_absent(rest, name);
        assert(seq![m[0]] + rest =~= m);
    }
}

/// Sets member `name` of an object's members to `value`.
pub fn set_member_value(members: &mut Vec<JsonMember>, name: &str, value: JsonValue)
    ensures
        json_members_view(final(members)@) == set_member(json_members_view(old(members)@), name@, value@),
{
    let ghost before = members@;
    let ghost mv = json_members_view(before);
    proof {
        lemma_members_view(before);
    }
    match find_member(members, name) {
        Some(k) => {
            proof {
                lemma_first_member(mv, name@, k as int, value@);
            }
            let key = members[k].key.clone();
            members.set(k, JsonMember { key, value });
            proof {
                lemma_members_view(members@);
                assert(json_members_view(members@) =~= mv.update(k as int, (name@, value@)));
            }
        },
        None => {
            proof {
                lemma_no_member(mv, name@);
            }
            let ghost v = value@;
            members.push(JsonMember { key: name.to_owned(), value });
            proof {
                lemma_members_view(members@);
                assert(json_members_view(members@) =~= mv.push((name@, v)));
            }
        },
    }
}

/// Removes member `name` of an object's members, if there is one.
pub fn remove_member_value(members: &mut Vec<JsonMember>, name: &str)
    ensures
        json_members_view(final(members)@) == remove_member(json_members_view(old(members)@), name@),
{
    let ghost before = members@;
    let ghost mv = json_members_view(before);
    proof {
        lemma_members_view(before);
    }
    match find_member(members, name) {
        Some(k) => {
            proof {
                lemma_remove_first(mv, name@, k as int);
            }
            members.remove(k);
            proof {
                lemma_members_view(members@);
                assert(json_members_view(members@) =~= mv.remove(k as int));
            }
        },
        None => {
            proof {
                lemma_remove_absent(mv, name@);
            }
        },
    }
}

// ----------------------------------------------------------------------
// JSON text.
// ----------------------------------------------------------------------

/// The lowercase hexadecimal digit of `d` (below 16).
pub open spec fn hex_char(d: int) -> char {
    if d == 0 { '0' } else if d == 1 { '1' } else if d == 2 { '2' } else if d == 3 { '3' }
    else if d == 4 { '4' } else if d == 5 { '5' } else if d == 6 { '6' } else if d == 7 { '7' }
    else if d == 8 { '8' } else if d == 9 { '9' } else if d == 10 { 'a' } else if d == 11 { 'b' }
    else if d == 12 { 'c' } else if d == 13 { 'd' } else if d == 14 { 'e' } else { 'f' }
}

/// How one character of a string stands in JSON text: quote and
/// backslash escaped, control characters as short or `\u00XX` escapes, the
/// rest as themselves.
pub open spec fn escape_char(c: char) -> Seq<char> {
    if c == '"' {
        seq!['\\', '"']
    } else if c == '\\' {
        seq!['\\', '\\']
    } else if c == '\n' {
        seq!['\\', 'n']
    } else if c == '\r' {
        seq!['\\', 'r']
    } else if c == '\t' {
        seq!['\\', 't']
    } else if c == '\x08' {
        seq!['\\', 'b']
    } else if c == '\x0c' {
        seq!['\\', 'f']
    } else if (c as u32) < 0x20 {
        seq!['\\', 'u', '0', '0', hex_char((c as u32) as int / 16), hex_char((c as u32) as int % 16)]
    } else {
        seq![c]
    }
}

pub open spec fn escaped(s: Seq<char>) -> Seq<char>
    decreases s.len(),
{
    if s.len() == 0 {
        Seq::empty()
    } else {
        escaped(s.drop_last()) + escape_char(s.last())
    }
}

/// A string as JSON text.
pub open spec fn quoted(s: Seq<char>) -> Seq<char> {
    seq!['"'] + escaped(s) + seq!['"']
}

/// Compact JSON text of a document: no whitespace, members in their
/// order, numbers as their source text.
pub open spec fn json_text(v: JsonView) -> Seq<char>
    decreases v,
{
    match v {
        JsonView::Null => seq!['n', 'u', 'l', 'l'],
        JsonView::Bool(b) => if b { seq!['t', 'r', 'u', 'e'] } else { seq!['f', 'a', 'l', 's', 'e'] },
        JsonView::Number(t) => t,
        JsonView::Str(s) => quoted(s),
        JsonView::Array(items) => seq!['['] + items_text(items) + seq![']'],
        JsonView::Object(m) => seq!['{'] + members_text(m) + seq!['}'],
    }
}

pub open spec fn items_text(items: Seq<JsonView>) -> Seq<char>
    decreases items,
{
    if items.len() == 0 {
        Seq::empty()
    } else if items.len() == 1 {
        json_text(items[0])
    } else {
        items_text(items.drop_last()) + seq![','] + json_text(items.last())
    }
}

pub open spec fn members_text(m: Seq<(Seq<char>, JsonView)>) -> Seq<char>
    decreases m,
{
    if m.len() == 0 {
        Seq::empty()
    } else if m.len() == 1 {
        quoted(m[0].0) + seq![':'] + json_text(m[0].1)
    } else {
        members_text(m.drop_last()) + seq![','] + quoted(m.last().0) + seq![':'] + json_text(m.last().1)
    }
}

fn hex_digit(d: u32) -> (result: char)
    requires
        d < 16,
    ensures
        result == hex_char(d as int),
{
    if d == 0 { '0' } else if d == 1 { '1' } else if d == 2 { '2' } else if d == 3 { '3' }
    else if d == 4 { '4' } else if d == 5 { '5' } else if d == 6 { '6' } else if d == 7 { '7' }
    else if d == 8 { '8' } else if d == 9 { '9' } else if d == 10 { 'a' } else if d == 11 { 'b' }
    else if d == 12 { 'c' } else if d == 13 { 'd' } else if d == 14 { 'e' } else { 'f' }
}

fn push_chars(out: &mut String, c0: char, c1: char)
    ensures
        final(out)@ == old(out)@ + seq![c0, c1],
{
    let ghost start = out@;
    string_push(out, c0);
    string_push(out, c1);
    assert(out@ =~= start + seq![c0, c1]);
}

fn push_escaped_char(out: &mut String, c: char)
    ensures
        final(out)@ == old(out)@ + escape_char(c),
{
    let ghost start = out@;
    if c == '"' {
        push_chars(out, '\\', '"');
    } else if c == '\\' {
        push_chars(out, '\\', '\\');
    } else if c == '\n' {
        push_chars(out, '\\', 'n');
    } else if c == '\r' {
        push_chars(out, '\\', 'r');
    } else if c == '\t' {
        push_chars(out, '\\', 't');
    } else if c == '\x08' {
        push_chars(out, '\\', 'b');
    } else if c == '\x0c' {
        push_chars(out, '\\', 'f');
    } else if (c as u32) < 0x20 {
        let code = c as u32;
        string_push(out, '\\');
        string_push(out, 'u');
        string_push(out, '0');
        string_push(out, '0');
        string_push(out, hex_digit(code / 16));
        string_push(out, hex_digit(code % 16));
        assert(out@ =~= start + escape_char(c));
    } else {
        string_push(out, c);
        assert(out@ =~= start + escape_char(c));
    }
}

fn push_quoted(out: &mut String, s: &str)
    ensures
        final(out)@ == old(out)@ + quoted(s@),
{
    let ghost start = out@;
    let chars = chars_of(s);
    string_push(out, '"');
    let mut i: usize = 0;
    assert(chars@.take(0) =~= Seq::<char>::empty());
    while i < chars.len()
        invariant
            chars@ == s@,
            i <= chars@.len(),
            out@ == start + seq!['"'] + escaped(chars@.take(i as int)),
        decreases chars@.len() - i,
    {
        push_escaped_char(out, chars[i]);
        assert(chars@.take(i + 1).drop_last() =~= chars@.take(i as int));
        assert(chars@.take(i + 1).last() == chars@[i as int]);
        i = i + 1;
    }
    assert(chars@.take(chars@.len() as int) =~= chars@);
    string_push(out, '"');
    assert(out@ =~= start + quoted(s@));
}

fn push_literal(out: &mut String, text: &str)
    ensures
        final(out)@ == old(out)@ + text@,
{
    let ghost start = out@;
    let chars = chars_of(text);
    let mut i: usize = 0;
    while i < chars.len()
        invariant
            chars@ == text@,
            i <= chars@.len(),
            out@ == start + chars@.take(i as int),
        decreases chars@.len() - i,
    {
        string_push(out, chars[i]);
        assert(chars@.take(i + 1) =~= chars@.take(i as int).push(chars@[i as int]));
        i = i + 1;
    }
    assert(chars@.take(chars@.len() as int) =~= chars@);
}

/// Appends the compact JSON text of `v`.
#[verifier::loop_isolation(false)]
#[verifier::rlimit(40)]
pub fn render_json_into(v: &JsonValue, out: &mut String)
    ensures
        final(out)@ == old(out)@ + json_text(v@),
    decreases v,
{
    let ghost start = out@;
    match v {
        JsonValue::Null => {
            push_literal(out, "null");
            proof {
                reveal_strlit("null");
            }
            assert(out@ =~= start + json_text(v@));
        },
        JsonValue::Bool(b) => {
            if *b {
                push_literal(out, "true");
                proof {
                    reveal_strlit("true");
                }
            } else {
                push_literal(out, "false");
                proof {
                    reveal_strlit("false");
                }
            }
            assert(out@ =~= start + json_text(v@));
        },
        JsonValue::Number(t) => {
            push_literal(out, t.as_str());
        },
        JsonValue::Str(s) => {
            push_quoted(out, s.as_str());
        },
        JsonValue::Array(items) => {
            proof {
                lemma_items_view(items@);
            }
            let ghost iv = json_items_view(items@);
            string_push(out, '[');
            let mut i: usize = 0;
            assert(iv.take(0) =~= Seq::<JsonView>::empty());
            while i < items.len()
                invariant
                    i <= items@.len(),
                    iv.len() == items@.len(),
                    out@ == start + seq!['['] + items_text(iv.take(i as int)),
                decreases items@.len() - i,
            {
                proof {
                    assert(decreases_to!(*v => v->Array_0));
                    assert(decreases_to!(*items => items@));
                    assert(decreases_to!(items@ => items@[i as int]));
                }
                if i > 0 {
                    string_push(out, ',');
                }
                render_json_into(&items[i], out);
                proof {
                    let t = iv.take(i + 1);
                    assert(t.drop_last() =~= iv.take(i as int));
                    assert(t.last() == json_view(items@[i as int]));
                    if i == 0 {
                        assert(t.len() == 1);
                        assert(t[0] == t.last());
                    }
                    assert(out@ =~= start + seq!['['] + items_text(t));
                }
                i = i + 1;
            }
            assert(iv.take(items@.len() as int) =~= iv);
            string_push(out, ']');
            assert(out@ =~= start + json_text(v@));
        },
        JsonValue::Object(members) => {
            proof {
                lemma_members_view(members@);
            }
            let ghost mv = json_members_view(members@);
            string_push(out, '{');
            let mut i: usize = 0;
            assert(mv.take(0) =~= Seq::<(Seq<char>, JsonView)>::empty());
            while i < members.len()
                invariant
                    i <= members@.len(),
                    mv.len() == members@.len(),
                    out@ == start + seq!['{'] + members_text(mv.take(i as int)),
                decreases members@.len() - i,
            {
                proof {
                    assert(decreases_to!(*v => v->Object_0));
                    assert(decreases_to!(*members => members@));
                    assert(decreases_to!(members@ => members@[i as int]));
                    assert(decreases_to!(members@[i as int] => members@[i as int].value));
                }
                if i > 0 {
                    string_push(out, ',');
                }
                push_quoted(out, members[i].key.as_str());
                string_push(out, ':');
                render_json_into(&members[i].value, out);
                proof {
                    let t = mv.take(i + 1);
                    assert(t.drop_last() =~= mv.take(i as int));
                    assert(t.last() == (members@[i as int].key@, json_view(members@[i as int].value)));
                    if i == 0 {
                        assert(t.len() == 1);
                        assert(t[0] == t.last());
                    }
                    assert(out@ =~= start + seq!['{'] + members_text(t));
                }
                i = i + 1;
            }
            assert(mv.take(members@.len() as int) =~= mv);
            string_push(out, '}');
            assert(out@ =~= start + json_text(v@));
        },
    }
}

/// The compact JSON text of `v`.
pub fn render_json(v: &JsonValue) -> (result: String)
    ensures
        result@ == json_text(v@),
{
    let mut out = String::new();
    render_json_into(v, &mut out);
    assert(out@ =~= json_text(v@));
    out
}

} // verus!
