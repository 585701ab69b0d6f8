//! The PostToolUse terminal-state guard: non-terminal markers and Operation
//! ids found anywhere in a tool response, and the context that reminds the
//! agent not to claim completion on them.
use vstd::prelude::*;

use crate::json::{JsonValue, JsonMember, JsonView, json_view, json_items_view, json_members_view, lemma_items_view, lemma_members_view};
use crate::text::{lower_seq, lower_chars, chars_of, chars_eq, string_from_chars};
use crate::listing::{sorted_strict, sorted_listing, lemma_sorted_listing, insert_sorted, join_commas, join_with_commas};
use crate::shell::strings_view;
use crate::hook::{byte_len, ValidatedHookInput};

verus! {

/// What the guard finds in a tool response.
pub struct Findings {
    pub markers: Set<Seq<char>>,
    pub operation_ids: Set<Seq<char>>,
}

pub open spec fn no_findings() -> Findings {
    Findings { markers: Set::empty(), operation_ids: Set::empty() }
}

pub open spec fn merge(a: Findings, b: Findings) -> Findings {
    Findings { markers: a.markers.union(b.markers), operation_ids: a.operation_ids.union(b.operation_ids) }
}

/// Keys whose string value reports a status.
pub open spec fn is_status_key(k: Seq<char>) -> bool {
    k == "status"@ || k == "state"@ || k == "outcome"@ || k == "completeness"@ || k == "decision"@
        || k == "result"@ || k == "verification"@
}

/// Status words that do not mean completion.
pub open spec fn is_non_terminal_word(w: Seq<char>) -> bool {
    w == "accepted"@ || w == "approval_required"@ || w == "partial"@ || w == "stale"@ || w == "unverified"@
        || w == "flaky"@ || w == "outcome_unknown"@ || w == "not_run"@
}

/// What one object member contributes besides its value's own findings.
pub open spec fn member_findings(key: Seq<char>, value: JsonView) -> Findings {
    let k = lower_seq(key);
    let ids = match value {
        JsonView::Str(id) => if k == "operation_id"@ && id.len() > 0 && byte_len(id) <= 256 {
            set![id]
        } else {
            Set::empty()
        },
        _ => Set::empty(),
    };
    let approval = if k == "approval_required"@ && value == JsonView::Bool(true) {
        set!["approval_required"@]
    } else {
        Set::empty()
    };
    let terminal = if k == "terminal"@ && value == JsonView::Bool(false) {
        set!["terminal=false"@]
    } else {
        Set::empty()
    };
    Findings { markers: approval.union(terminal), operation_ids: ids }
}

/// The findings in `v`, whose enclosing member key (lower-cased) is
/// `parent`.
pub open spec fn value_findings(v: JsonView, parent: Option<Seq<char>>) -> Findings
    decreases v,
{
    match v {
        JsonView::Object(members) => members_findings(members),
        JsonView::Array(items) => items_findings(items, parent),
        JsonView::Str(t) => {
            let w = lower_seq(t);
            if parent matches Some(k) && is_status_key(k) && is_non_terminal_word(w) {
                Findings { markers: set![w], operation_ids: Set::empty() }
            } else {
                no_findings()
            }
        },
        _ => no_findings(),
    }
}

pub open spec fn members_findings(members: Seq<(Seq<char>, JsonView)>) -> Findings
    decreases members,
{
    if members.len() == 0 {
        no_findings()
    } else {
        let last = members.last();
        proof {
            assert(decreases_to!(members => members[members.len() - 1]));
        }
        merge(
            merge(members_findings(members.drop_last()), member_findings(last.0, last.1)),
            value_findings(last.1, Some(lower_seq(last.0))),
        )
    }
}

pub open spec fn items_findings(items: Seq<JsonView>, parent: Option<Seq<char>>) -> Findings
    decreases items,
{
    if items.len() == 0 {
        no_findings()
    } else {
        proof {
            assert(decreases_to!(items => items[items.len() - 1]));
        }
        merge(items_findings(items.drop_last(), parent), value_findings(items.last(), parent))
    }
}

pub open spec fn set_of(list: Seq<String>) -> Set<Seq<char>> {
    strings_view(list).to_set()
}

fn is_status_key_exec(k: &[char]) -> (result: bool)
    ensures
        result == is_status_key(k@),
{
    chars_eq(k, chars_of("status").as_slice()) || chars_eq(k, chars_of("state").as_slice())
        || chars_eq(k, chars_of("outcome").as_slice()) || chars_eq(k, chars_of("completeness").as_slice())
        || chars_eq(k, chars_of("decision").as_slice()) || chars_eq(k, chars_of("result").as_slice())
        || chars_eq(k, chars_of("verification").as_slice())
}

fn is_non_terminal_word_exec(w: &[char]) -> (result: bool)
    ensures
        result == is_non_terminal_word(w@),
{
    chars_eq(w, chars_of("accepted").as_slice()) || chars_eq(w, chars_of("approval_required").as_slice())
        || chars_eq(w, chars_of("partial").as_slice()) || chars_eq(w, chars_of("stale").as_slice())
        || chars_eq(w, chars_of("unverified").as_slice()) || chars_eq(w, chars_of("flaky").as_slice())
        || chars_eq(w, chars_of("outcome_unknown").as_slice()) || chars_eq(w, chars_of("not_run").as_slice())
}

/// Adds what one member contributes besides its value's own findings.
fn collect_member(key: &[char], value: &JsonValue, markers: &mut Vec<String>, operation_ids: &mut Vec<String>)
    requires
        sorted_strict(strings_view(old(markers)@)),
        sorted_strict(strings_view(old(operation_ids)@)),
    ensures
        sorted_strict(strings_view(final(markers)@)),
        sorted_strict(strings_view(final(operation_ids)@)),
        set_of(final(markers)@) == set_of(old(markers)@).union(member_findings(key@, value@).markers),
        set_of(final(operation_ids)@) == set_of(old(operation_ids)@).union(member_findings(key@, value@).operation_ids),
{
    let ghost f = member_findings(key@, value@);
    let lowered = lower_chars(key);
    let key = lowered.as_slice();
    match value {
        JsonValue::Str(id) => {
            let ghost s = set_of(operation_ids@);
            if chars_eq(key, chars_of("operation_id").as_slice()) && !id.as_str().is_empty()
                && id.as_str().as_bytes().len() <= 256 {
                insert_sorted(operation_ids, id.clone());
                assert(set_of(operation_ids@) =~= s.union(f.operation_ids));
            } else {
                assert(set_of(operation_ids@) =~= s.union(f.operation_ids));
            }
            assert(set_of(markers@) =~= set_of(markers@).union(f.markers));
        },
        JsonValue::Bool(b) => {
            let ghost s = set_of(markers@);
            if *b && chars_eq(key, chars_of("approval_required").as_slice()) {
                insert_sorted(markers, "approval_required".to_owned());
                assert(set_of(markers@) =~= s.union(f.markers));
            } else if !*b && chars_eq(key, chars_of("terminal").as_slice()) {
                insert_sorted(markers, "terminal=false".to_owned());
                assert(set_of(markers@) =~= s.union(f.markers));
            } else {
                assert(set_of(markers@) =~= s.union(f.markers));
            }
            assert(set_of(operation_ids@) =~= set_of(operation_ids@).union(f.operation_ids));
        },
        _ => {
            assert(set_of(markers@) =~= set_of(markers@).union(f.markers));
            assert(set_of(operation_ids@) =~= set_of(operation_ids@).union(f.operation_ids));
        },
    }
}

pub open spec fn parent_view(parent: Option<&[char]>) -> Option<Seq<char>> {
    match parent {
        Some(k) => Some(k@),
        None => None,
    }
}

/// Adds to `markers` and `operation_ids`, kept as ascending lists of
/// distinct texts, what the guard finds in `value`.
#[verifier::loop_isolation(false)]
pub fn collect_post_tool_markers(
    value: &JsonValue,
    parent_key: Option<&[char]>,
    markers: &mut Vec<String>,
    operation_ids: &mut Vec<String>,
)
    requires
        sorted_strict(strings_view(old(markers)@)),
        sorted_strict(strings_view(old(operation_ids)@)),
    ensures
        sorted_strict(strings_view(final(markers)@)),
        sorted_strict(strings_view(final(operation_ids)@)),
        set_of(final(markers)@) == set_of(old(markers)@).union(value_findings(value@, parent_view(parent_key)).markers),
        set_of(final(operation_ids)@) == set_of(old(operation_ids)@).union(
            value_findings(value@, parent_view(parent_key)).operation_ids,
        ),
    decreases value,
{
    let ghost m0 = set_of(markers@);
    let ghost o0 = set_of(operation_ids@);
    match value {
        JsonValue::Object(members) => {
            let ghost mv = json_members_view(members@);
            proof {
                lemma_members_view(members@);
                assert(mv.take(0) =~= Seq::<(Seq<char>, JsonView)>::empty());
                assert(m0 =~= m0.union(Set::empty()));
                assert(o0 =~= o0.union(Set::empty()));
            }
            let mut i: usize = 0;
            while i < members.len()
                invariant
                    i <= members@.len(),
                    mv.len() == members@.len(),
                    forall|j: int| 0 <= j < members@.len() ==> #[trigger] mv[j] == (members@[j].key@, json_view(members@[j].value)),
                    sorted_strict(strings_view(markers@)),
                    sorted_strict(strings_view(operation_ids@)),
                    set_of(markers@) == m0.union(members_findings(mv.take(i as int)).markers),
                    set_of(operation_ids@) == o0.union(members_findings(mv.take(i as int)).operation_ids),
                decreases members@.len() - i,
            {
                proof {
                    assert(decreases_to!(*value => value->Object_0));
                    assert(decreases_to!(*members => members@));
                    assert(decreases_to!(members@ => members@[i as int]));
                    assert(decreases_to!(members@[i as int] => members@[i as int].value));
                }
                let key = chars_of(members[i].key.as_str());
                let lowered = lower_chars(key.as_slice());
                collect_member(key.as_slice(), &members[i].value, markers, operation_ids);
                collect_post_tool_markers(&members[i].value, Some(lowered.as_slice()), markers, operation_ids);
                proof {
                    let t = mv.take(i + 1);
                    assert(t.drop_last() =~= mv.take(i as int));
                    assert(t.last() == mv[i as int]);
                    let prev = members_findings(mv.take(i as int));
                    let own = member_findings(mv[i as int].0, mv[i as int].1);
                    let inner = value_findings(mv[i as int].1, Some(lower_seq(mv[i as int].0)));
                    assert(members_findings(t) == merge(merge(prev, own), inner));
                    assert(set_of(markers@) =~= m0.union(members_findings(t).markers));
                    assert(set_of(operation_ids@) =~= o0.union(members_findings(t).operation_ids));
                }
                i = i + 1;
            }
            assert(mv.take(mv.len() as int) =~= mv);
        },
        JsonValue::Array(items) => {
            let ghost iv = json_items_view(items@);
            let ghost p = parent_view(parent_key);
            proof {
                lemma_items_view(items@);
                assert(iv.take(0) =~= Seq::<JsonView>::empty());
                assert(m0 =~= m0.union(Set::empty()));
                assert(o0 =~= o0.union(Set::empty()));
            }
            let mut i: usize = 0;
            while i < items.len()
                invariant
                    i <= items@.len(),
                    iv.len() == items@.len(),
                    forall|j: int| 0 <= j < items@.len() ==> #[trigger] iv[j] == json_view(items@[j]),
                    sorted_strict(strings_view(markers@)),
                    sorted_strict(strings_view(operation_ids@)),
                    set_of(markers@) == m0.union(items_findings(iv.take(i as int), p).markers),
                    set_of(operation_ids@) == o0.union(items_findings(iv.take(i as int), p).operation_ids),
                decreases items@.len() - i,
            {
                proof {
                    assert(decreases_to!(*value => value->Array_0));
                    assert(decreases_to!(*items => items@));
                    assert(decreases_to!(items@ => items@[i as int]));
                }
                collect_post_tool_markers(&items[i], parent_key, markers, operation_ids);
                proof {
                    let t = iv.take(i + 1);
                    assert(t.drop_last() =~= iv.take(i as int));
                    assert(t.last() == iv[i as int]);
                    assert(set_of(markers@) =~= m0.union(items_findings(t, p).markers));
                    assert(set_of(operation_ids@) =~= o0.union(items_findings(t, p).operation_ids));
                }
                i = i + 1;
            }
            assert(iv.take(iv.len() as int) =~= iv);
        },
        JsonValue::Str(text) => {
            let word = lower_chars(chars_of(text.as_str()).as_slice());
            let status = match parent_key {
                Some(k) => is_status_key_exec(k),
                None => false,
            };
            if status && is_non_terminal_word_exec(word.as_slice()) {
                insert_sorted(markers, string_from_chars(word.as_slice()));
                assert(set_of(markers@) =~= m0.union(set![word@]));
            } else {
                assert(set_of(markers@) =~= m0.union(Set::empty()));
            }
            assert(set_of(operation_ids@) =~= o0.union(Set::empty()));
        },
        _ => {
            assert(set_of(markers@) =~= m0.union(Set::empty()));
            assert(set_of(operation_ids@) =~= o0.union(Set::empty()));
        },
    }
}

/// The context the guard adds after a tool call.
pub open spec fn guard_context(markers: Seq<Seq<char>>, operation_ids: Seq<Seq<char>>) -> Seq<char> {
    "Star-Control terminal-state guard: markers=["@ + join_commas(markers) + "] operation_ids=["@
        + join_commas(operation_ids)
        + "]. accepted/approval_required/partial/stale/unverified/flaky/outcome_unknown/not_run 또는 Operation ID만으로 완료를 선언하지 말고 terminal receipt와 exact readback을 확인한다. PostToolUse는 이미 발생한 side effect를 되돌리지 않는다."@
}

pub open spec fn post_tool_output_spec(markers: Seq<Seq<char>>, operation_ids: Seq<Seq<char>>) -> JsonView {
    JsonView::Object(seq![(
        "hookSpecificOutput"@,
        JsonView::Object(seq![
            ("hookEventName"@, JsonView::Str("PostToolUse"@)),
            ("additionalContext"@, JsonView::Str(guard_context(markers, operation_ids))),
        ]),
    )])
}

/// The hook output of a PostToolUse call: nothing when the tool response
/// holds no non-terminal marker and no Operation id; otherwise a reminder
/// that lists both, each in ascending order.
pub fn post_tool_use_context(input: &ValidatedHookInput) -> (result: Option<JsonValue>)
    ensures
        match input.tool_response {
            None => result is None,
            Some(response) => {
                let f = value_findings(response@, None);
                if f.markers == Set::<Seq<char>>::empty() && f.operation_ids == Set::<Seq<char>>::empty() {
                    result is None
                } else {
                    result matches Some(o) && o@ == post_tool_output_spec(
                        sorted_listing(f.markers),
                        sorted_listing(f.operation_ids),
                    )
                }
            },
        },
{
    let response = match &input.tool_response {
        Some(r) => r,
        None => return None,
    };
    let mut markers: Vec<String> = Vec::new();
    let mut operation_ids: Vec<String> = Vec::new();
    proof {
        assert(set_of(markers@) =~= Set::<Seq<char>>::empty());
        assert(set_of(operation_ids@) =~= Set::<Seq<char>>::empty());
    }
    collect_post_tool_markers(response, None, &mut markers, &mut operation_ids);
    let ghost f = value_findings(response@, None);
    proof {
        assert(set_of(markers@) =~= f.markers);
        assert(set_of(operation_ids@) =~= f.operation_ids);
        lemma_sorted_listing(strings_view(markers@));
        lemma_sorted_listing(strings_view(operation_ids@));
    }
    if markers.len() == 0 && operation_ids.len() == 0 {
        assert(f.markers =~= Set::<Seq<char>>::empty());
        assert(f.operation_ids =~= Set::<Seq<char>>::empty());
        return None;
    }
    proof {
        if markers.len() > 0 {
            assert(f.markers.contains(strings_view(markers@)[0]));
        } else {
            assert(f.operation_ids.contains(strings_view(operation_ids@)[0]));
        }
    }
    let mut text: String = "Star-Control terminal-state guard: markers=[".to_owned();
    let joined_markers = join_with_commas(&markers);
    text.append(joined_markers.as_str());
    text.append("] operation_ids=[");
    let joined_ids = join_with_commas(&operation_ids);
    text.append(joined_ids.as_str());
    text.append(
        "]. accepted/approval_required/partial/stale/unverified/flaky/outcome_unknown/not_run 또는 Operation ID만으로 완료를 선언하지 말고 terminal receipt와 exact readback을 확인한다. PostToolUse는 이미 발생한 side effect를 되돌리지 않는다.",
    );
    let mut inner: Vec<JsonMember> = Vec::new();
    inner.push(JsonMember { key: "hookEventName".to_owned(), value: JsonValue::Str("PostToolUse".to_owned()) });
    inner.push(JsonMember { key: "additionalContext".to_owned(), value: JsonValue::Str(text) });
    proof {
        lemma_members_view(inner@);
        assert(json_members_view(inner@) =~= seq![
            ("hookEventName"@, JsonView::Str("PostToolUse"@)),
            ("additionalContext"@, JsonView::Str(guard_context(strings_view(markers@), strings_view(operation_ids@)))),
        ]);
        assert(json_view(JsonValue::Object(inner)) == JsonView::Object(json_members_view(inner@)));
    }
    let mut outer: Vec<JsonMember> = Vec::new();
    outer.push(JsonMember { key: "hookSpecificOutput".to_owned(), value: JsonValue::Object(inner) });
    proof {
        lemma_members_view(outer@);
        assert(json_members_view(outer@) =~= seq![("hookSpecificOutput"@, json_view(outer@[0].value))]);
    }
    Some(JsonValue::Object(outer))
}


proof fn lemma_member_value_findings_kept(members: Seq<(Seq<char>, JsonView)>, i: int)
    requires
        0 <= i < members.len(),
    ensures
        value_findings(members[i].1, Some(lower_seq(members[i].0))).markers.subset_of(members_findings(members).markers),
    decreases members.len(),
{
    if i < members.len() - 1 {
        lemma_member_value_findings_kept(members.drop_last(), i);
        assert(members.drop_last()[i] == members[i]);
    }
}

/// A status member (status, state, outcome, completeness, decision, result
/// or verification, in any case) whose text is one of the words that do
/// not mean completion (accepted, approval_required, partial, stale,
/// unverified, flaky, outcome_unknown, not_run, in any case) is reported
/// as a marker of the object that holds it, so the guard speaks up.
pub proof fn law_non_terminal_status_words_are_reported(
    members: Seq<(Seq<char>, JsonView)>,
    i: int,
    text: Seq<char>,
    parent: Option<Seq<char>>,
)
    requires
        0 <= i < members.len(),
        members[i].1 == JsonView::Str(text),
        ({
            let k = lower_seq(members[i].0);
            k == "status"@ || k == "state"@ || k == "outcome"@ || k == "completeness"@ || k == "decision"@
                || k == "result"@ || k == "verification"@
        }),
        ({
            let w = lower_seq(text);
            w == "accepted"@ || w == "approval_required"@ || w == "partial"@ || w == "stale"@
                || w == "unverified"@ || w == "flaky"@ || w == "outcome_unknown"@ || w == "not_run"@
        }),
    ensures
        value_findings(JsonView::Object(members), parent).markers.contains(lower_seq(text)),
        value_findings(JsonView::Object(members), parent).markers != Set::<Seq<char>>::empty(),
{
    lemma_member_value_findings_kept(members, i);
    assert(value_findings(members[i].1, Some(lower_seq(members[i].0))).markers.contains(lower_seq(text)));
}

} // verus!
