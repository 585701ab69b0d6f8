//! Paged Controller listings: the `star` CLI fetches every page of a full
//! tool search or registry status and merges them into one answer, refusing
//! pages that disagree about the snapshot, repeat an item or a cursor, or
//! exceed the item and page bounds.
use vstd::prelude::*;

use crate::json::{JsonValue, JsonView, json_get, json_get_member, clone_json, clone_items, json_view, json_items_view, lemma_items_view, set_member, remove_member, set_member_value, remove_member_value};
use crate::text::{str_eq, chars_of};
use crate::cli::{all_digits, digits_value, decimal, decimal_string, parse_u64};

verus! {

/// How one listing command is paged.
pub struct PageRules {
    pub page_size: u64,
    pub max_items: usize,
    pub max_pages: usize,
    /// The member that identifies an item.
    pub item_id_key: String,
    pub require_diagnostic_revision: bool,
}

pub struct RulesView {
    pub page_size: u64,
    pub max_items: usize,
    pub max_pages: usize,
    pub item_id_key: Seq<char>,
    pub require_diagnostic_revision: bool,
}

impl View for PageRules {
    type V = RulesView;

    open spec fn view(&self) -> RulesView {
        RulesView {
            page_size: self.page_size,
            max_items: self.max_items,
            max_pages: self.max_pages,
            item_id_key: self.item_id_key@,
            require_diagnostic_revision: self.require_diagnostic_revision,
        }
    }
}

/// Full tool searches (an empty query) come in pages of 50, at most 11
/// pages and 512 tools; full registry status (no package) in pages of 200,
/// at most 3 pages and 512 packages, with a diagnostic revision.  Other
/// commands are not paged.
pub open spec fn rules_for(command: Seq<char>, payload: JsonView) -> Option<RulesView> {
    if command == "tool.search"@ && json_get(payload, "query"@) == Some(JsonView::Str(""@)) {
        Some(RulesView { page_size: 50, max_items: 512, max_pages: 11, item_id_key: "tool_id"@, require_diagnostic_revision: false })
    } else if command == "tool.registry.status"@ && (json_get(payload, "package_id"@) is None
        || json_get(payload, "package_id"@) == Some(JsonView::Null)) {
        Some(RulesView { page_size: 200, max_items: 512, max_pages: 3, item_id_key: "package_id"@, require_diagnostic_revision: true })
    } else {
        None
    }
}

pub fn pagination_rules(command: &str, payload: &JsonValue) -> (result: Option<PageRules>)
    ensures
        match rules_for(command@, payload@) {
            Some(r) => result matches Some(rules) && rules@ == r,
            None => result is None,
        },
{
    if str_eq(command, "tool.search") {
        match json_get_member(payload, "query") {
            Some(JsonValue::Str(q)) => {
                if str_eq(q.as_str(), "") {
                    return Some(PageRules {
                        page_size: 50,
                        max_items: 512,
                        max_pages: 11,
                        item_id_key: "tool_id".to_owned(),
                        require_diagnostic_revision: false,
                    });
                }
            },
            _ => {},
        }
    }
    if str_eq(command, "tool.registry.status") {
        let unpinned = match json_get_member(payload, "package_id") {
            None => true,
            Some(JsonValue::Null) => true,
            Some(_) => false,
        };
        if unpinned {
            proof {
                reveal_strlit("tool.search");
                reveal_strlit("tool.registry.status");
                assert("tool.search"@.len() != "tool.registry.status"@.len());
            }
            return Some(PageRules {
                page_size: 200,
                max_items: 512,
                max_pages: 3,
                item_id_key: "package_id".to_owned(),
                require_diagnostic_revision: true,
            });
        }
    }
    None
}

/// The payload of the first page request: the page size as `limit`, and no
/// `cursor`.  `None` when the payload is not an object.
pub open spec fn first_page_spec(payload: JsonView, r: RulesView) -> Option<JsonView> {
    match payload {
        JsonView::Object(m) => Some(JsonView::Object(remove_member(
            set_member(m, "limit"@, JsonView::Number(decimal(r.page_size as nat))),
            "cursor"@,
        ))),
        _ => None,
    }
}

pub fn first_page_payload(payload: &JsonValue, rules: &PageRules) -> (result: Option<JsonValue>)
    ensures
        match first_page_spec(payload@, rules@) {
            Some(p) => result matches Some(r) && r@ == p,
            None => result is None,
        },
{
    match clone_json(payload) {
        JsonValue::Object(members) => {
            let mut members = members;
            set_member_value(&mut members, "limit", JsonValue::Number(decimal_string(rules.page_size)));
            remove_member_value(&mut members, "cursor");
            Some(JsonValue::Object(members))
        },
        _ => None,
    }
}

// ----------------------------------------------------------------------
// Merging pages.
// ----------------------------------------------------------------------

pub open spec fn str_of(v: Option<JsonView>) -> Option<Seq<char>> {
    match v {
        Some(JsonView::Str(s)) => Some(s),
        _ => None,
    }
}

/// A JSON number that is a `u64` (`Value::as_u64`).
pub open spec fn u64_of(v: Option<JsonView>) -> Option<nat> {
    match v {
        Some(JsonView::Number(t)) => if t.len() > 0 && all_digits(t) && digits_value(t) <= u64::MAX {
            Some(digits_value(t))
        } else {
            None
        },
        _ => None,
    }
}

/// Appends the items of one page, each identified by its `key` member; an
/// item without a string id, a repeated id, or one item too many refuses
/// the page.
pub open spec fn take_items(
    items: Seq<JsonView>,
    ids: Seq<Seq<char>>,
    page: Seq<JsonView>,
    key: Seq<char>,
    max: nat,
) -> Option<(Seq<JsonView>, Seq<Seq<char>>)>
    decreases page.len(),
{
    if page.len() == 0 {
        Some((items, ids))
    } else {
        match str_of(json_get(page[0], key)) {
            None => None,
            Some(id) => if ids.contains(id) || items.len() >= max {
                None
            } else {
                take_items(items.push(page[0]), ids.push(id), page.drop_first(), key, max)
            },
        }
    }
}

/// What the merge has seen so far.
pub struct MergeView {
    pub pages: nat,
    pub items: Seq<JsonView>,
    pub ids: Seq<Seq<char>>,
    pub cursors: Seq<Seq<char>>,
    pub snapshot_hash: Option<Seq<char>>,
    pub registry_revision: Option<nat>,
    pub diagnostic_revision: Option<nat>,
    pub first_data: Option<JsonView>,
}

pub enum PageOutcomeView {
    /// Request the next page with this payload.
    Next(JsonView),
    /// All pages are in: the first page's data, holding every item.
    Complete(JsonView),
    Malformed,
}

pub open spec fn agrees<T>(seen: Option<T>, page: T) -> bool {
    seen is None || seen == Some(page)
}

pub open spec fn keep_first<T>(seen: Option<T>, page: T) -> Option<T> {
    if seen is Some { seen } else { Some(page) }
}

/// One page's data, accepted into the merge: the new merge state and what
/// comes next.
pub open spec fn accept_spec(r: RulesView, m: MergeView, payload: JsonView, data: JsonView) -> (MergeView, PageOutcomeView) {
    let malformed = (m, PageOutcomeView::Malformed);
    if !(data is Object) {
        malformed
    } else {
        match (str_of(json_get(data, "snapshot_hash"@)), u64_of(json_get(data, "registry_revision"@))) {
            (Some(snapshot), Some(revision)) => {
                let diagnostic = u64_of(json_get(data, "diagnostic_revision"@));
                if r.require_diagnostic_revision && diagnostic is None {
                    malformed
                } else {
                    let page_diagnostic = if r.require_diagnostic_revision { diagnostic } else { None };
                    if !agrees(m.snapshot_hash, snapshot) || !agrees(m.registry_revision, revision)
                        || (page_diagnostic matches Some(d) && !agrees(m.diagnostic_revision, d)) {
                        malformed
                    } else {
                        match json_get(data, "items"@) {
                            Some(JsonView::Array(page_items)) => match take_items(m.items, m.ids, page_items, r.item_id_key, r.max_items as nat) {
                                None => malformed,
                                Some((items, ids)) => {
                                    let first = match m.first_data {
                                        Some(f) => f,
                                        None => data,
                                    };
                                    let next = MergeView {
                                        pages: m.pages + 1,
                                        items,
                                        ids,
                                        cursors: m.cursors,
                                        snapshot_hash: keep_first(m.snapshot_hash, snapshot),
                                        registry_revision: keep_first(m.registry_revision, revision),
                                        diagnostic_revision: match page_diagnostic {
                                            Some(d) => keep_first(m.diagnostic_revision, d),
                                            None => m.diagnostic_revision,
                                        },
                                        first_data: Some(first),
                                    };
                                    match json_get(data, "next_cursor"@) {
                                        None | Some(JsonView::Null) => match first {
                                            JsonView::Object(fm) => (next, PageOutcomeView::Complete(JsonView::Object(set_member(
                                                set_member(fm, "items"@, JsonView::Array(items)),
                                                "next_cursor"@,
                                                JsonView::Null,
                                            )))),
                                            _ => malformed,
                                        },
                                        Some(JsonView::Str(cursor)) => if m.cursors.contains(cursor) || next.pages >= r.max_pages {
                                            malformed
                                        } else {
                                            match payload {
                                                JsonView::Object(pm) => (
                                                    MergeView { cursors: m.cursors.push(cursor), ..next },
                                                    PageOutcomeView::Next(JsonView::Object(set_member(pm, "cursor"@, JsonView::Str(cursor)))),
                                                ),
                                                _ => malformed,
                                            }
                                        },
                                        Some(_) => malformed,
                                    }
                                },
                            },
                            _ => malformed,
                        }
                    }
                }
            },
            _ => malformed,
        }
    }
}

pub enum PageOutcome {
    Next(JsonValue),
    Complete(JsonValue),
    Malformed,
}

pub open spec fn outcome_view(o: PageOutcome) -> PageOutcomeView {
    match o {
        PageOutcome::Next(p) => PageOutcomeView::Next(p@),
        PageOutcome::Complete(d) => PageOutcomeView::Complete(d@),
        PageOutcome::Malformed => PageOutcomeView::Malformed,
    }
}

pub open spec fn strings_of(v: Seq<String>) -> Seq<Seq<char>> {
    v.map_values(|s: String| s@)
}

/// The pages merged so far.
pub struct PageMerge {
    pub rules: PageRules,
    pub pages: usize,
    pub items: Vec<JsonValue>,
    pub item_ids: Vec<String>,
    pub cursors: Vec<String>,
    pub snapshot_hash: Option<String>,
    pub registry_revision: Option<u64>,
    pub diagnostic_revision: Option<u64>,
    pub first_data: Option<JsonValue>,
}

impl View for PageMerge {
    type V = MergeView;

    open spec fn view(&self) -> MergeView {
        MergeView {
            pages: self.pages as nat,
            items: json_items_view(self.items@),
            ids: strings_of(self.item_ids@),
            cursors: strings_of(self.cursors@),
            snapshot_hash: match self.snapshot_hash { Some(s) => Some(s@), None => None },
            registry_revision: match self.registry_revision { Some(r) => Some(r as nat), None => None },
            diagnostic_revision: match self.diagnostic_revision { Some(r) => Some(r as nat), None => None },
            first_data: match self.first_data { Some(d) => Some(d@), None => None },
        }
    }
}

fn u64_member(data: &JsonValue, key: &str) -> (result: Option<u64>)
    ensures
        match u64_of(json_get(data@, key@)) {
            Some(n) => result == Some(n as u64),
            None => result is None,
        },
{
    match json_get_member(data, key) {
        Some(JsonValue::Number(t)) => {
            let chars = chars_of(t.as_str());
            if chars.len() == 0 || !('0' <= chars[0] && chars[0] <= '9') {
                return None;
            }
            parse_u64(t.as_str())
        },
        _ => None,
    }
}

fn contains_string(v: &Vec<String>, s: &str) -> (result: bool)
    ensures
        result == strings_of(v@).contains(s@),
{
    let mut i: usize = 0;
    while i < v.len()
        invariant
            i <= v@.len(),
            forall|j: int| 0 <= j < i ==> v@[j]@ != s@,
        decreases v@.len() - i,
    {
        if str_eq(v[i].as_str(), s) {
            assert(strings_of(v@)[i as int] == s@);
            return true;
        }
        i = i + 1;
    }
    proof {
        if strings_of(v@).contains(s@) {
            let j = choose|j: int| 0 <= j < strings_of(v@).len() && #[trigger] strings_of(v@)[j] == s@;
            assert(v@[j]@ == s@);
        }
    }
    false
}

proof fn lemma_concat_contains(a: Seq<Seq<char>>, b: Seq<Seq<char>>, x: Seq<char>)
    ensures
        (a.contains(x) || b.contains(x)) ==> (a + b).contains(x),
{
    if a.contains(x) {
        let j = choose|j: int| 0 <= j < a.len() && a[j] == x;
        assert((a + b)[j] == x);
    } else if b.contains(x) {
        let j = choose|j: int| 0 <= j < b.len() && b[j] == x;
        assert((a + b)[a.len() + j] == x);
    }
}


impl PageMerge {
    /// A merge that has seen no page.
    pub fn new(rules: PageRules) -> (result: Self)
        ensures
            result.rules@ == rules@,
            result@ == (MergeView {
                pages: 0,
                items: Seq::empty(),
                ids: Seq::empty(),
                cursors: Seq::empty(),
                snapshot_hash: None,
                registry_revision: None,
                diagnostic_revision: None,
                first_data: None,
            }),
    {
        let result = PageMerge {
            rules,
            pages: 0,
            items: Vec::new(),
            item_ids: Vec::new(),
            cursors: Vec::new(),
            snapshot_hash: None,
            registry_revision: None,
            diagnostic_revision: None,
            first_data: None,
        };
        assert(json_items_view(result.items@) =~= Seq::<JsonView>::empty());
        assert(strings_of(result.item_ids@) =~= Seq::<Seq<char>>::empty());
        assert(strings_of(result.cursors@) =~= Seq::<Seq<char>>::empty());
        result
    }

    /// Accepts the data of one page answered for `payload`.
    #[verifier::loop_isolation(false)]
    pub fn accept_page(&mut self, payload: &JsonValue, data: &JsonValue) -> (result: PageOutcome)
        requires
            old(self).pages < usize::MAX,
        ensures
            final(self).rules@ == old(self).rules@,
            outcome_view(result) == accept_spec(old(self).rules@, old(self)@, payload@, data@).1,
            !(result is Malformed) ==> final(self)@ == accept_spec(old(self).rules@, old(self)@, payload@, data@).0,
    {
        let ghost m0 = self@;
        let ghost r = self.rules@;
        match data {
            JsonValue::Object(_) => {},
            _ => return PageOutcome::Malformed,
        }
        let snapshot = match json_get_member(data, "snapshot_hash") {
            Some(JsonValue::Str(s)) => s,
            _ => return PageOutcome::Malformed,
        };
        let revision = match u64_member(data, "registry_revision") {
            Some(n) => n,
            None => return PageOutcome::Malformed,
        };
        let diagnostic = u64_member(data, "diagnostic_revision");
        if self.rules.require_diagnostic_revision && diagnostic.is_none() {
            return PageOutcome::Malformed;
        }
        let page_diagnostic = if self.rules.require_diagnostic_revision { diagnostic } else { None };
        let snapshot_agrees = match &self.snapshot_hash {
            Some(seen) => str_eq(seen.as_str(), snapshot.as_str()),
            None => true,
        };
        let revision_agrees = match self.registry_revision {
            Some(seen) => seen == revision,
            None => true,
        };
        let diagnostic_agrees = match (self.diagnostic_revision, page_diagnostic) {
            (Some(seen), Some(d)) => seen == d,
            _ => true,
        };
        if !snapshot_agrees || !revision_agrees || !diagnostic_agrees {
            return PageOutcome::Malformed;
        }
        let page_items = match json_get_member(data, "items") {
            Some(JsonValue::Array(items)) => items,
            _ => return PageOutcome::Malformed,
        };
        let ghost pv = json_items_view(page_items@);
        proof {
            lemma_items_view(page_items@);
            lemma_items_view(self.items@);
        }
        // Items of this page, checked one by one.
        let mut new_items: Vec<JsonValue> = Vec::new();
        let mut new_ids: Vec<String> = Vec::new();
        let mut k: usize = 0;
        let ghost base_items = json_items_view(self.items@);
        let ghost base_ids = strings_of(self.item_ids@);
        assert(pv.skip(0) =~= pv);
        while k < page_items.len()
            invariant
                k <= page_items@.len(),
                pv.len() == page_items@.len(),
                forall|j: int| 0 <= j < page_items@.len() ==> #[trigger] pv[j] == json_view(page_items@[j]),
                take_items(base_items, base_ids, pv, r.item_id_key, r.max_items as nat) == take_items(
                    base_items + json_items_view(new_items@),
                    base_ids + strings_of(new_ids@),
                    pv.skip(k as int),
                    r.item_id_key,
                    r.max_items as nat,
                ),
                self.items@.len() + new_items@.len() == (base_items + json_items_view(new_items@)).len(),
                json_items_view(new_items@).len() == new_items@.len(),
            decreases page_items@.len() - k,
        {
            proof {
                lemma_items_view(new_items@);
            }
            let ghost rest = pv.skip(k as int);
            assert(rest[0] == pv[k as int]);
            assert(rest.drop_first() =~= pv.skip(k + 1));
            let id = match json_get_member(&page_items[k], self.rules.item_id_key.as_str()) {
                Some(JsonValue::Str(id)) => id,
                _ => return PageOutcome::Malformed,
            };
            let seen_before = contains_string(&self.item_ids, id.as_str());
            let seen_here = contains_string(&new_ids, id.as_str());
            let full = self.items.len() >= self.rules.max_items
                || new_items.len() >= self.rules.max_items - self.items.len();
            if seen_before || seen_here || full {
                proof {
                    lemma_concat_contains(base_ids, strings_of(new_ids@), id@);
                }
                return PageOutcome::Malformed;
            }
            let ghost before_items = new_items@;
            let ghost before_ids = new_ids@;
            new_items.push(clone_json(&page_items[k]));
            new_ids.push(id.clone());
            proof {
                lemma_items_view(new_items@);
                lemma_items_view(before_items);
                assert(json_items_view(new_items@) =~= json_items_view(before_items).push(pv[k as int]));
                assert(strings_of(new_ids@) =~= strings_of(before_ids).push(id@));
                assert(base_items + json_items_view(new_items@) =~= (base_items + json_items_view(before_items)).push(pv[k as int]));
                assert(base_ids + strings_of(new_ids@) =~= (base_ids + strings_of(before_ids)).push(id@));
            }
            k = k + 1;
        }
        assert(pv.skip(k as int).len() == 0);
        let ghost added_items = new_items@;
        let ghost added_ids = new_ids@;
        let ghost merged_items = base_items + json_items_view(added_items);
        let ghost merged_ids = base_ids + strings_of(added_ids);
        let ghost old_items = self.items@;
        let ghost old_ids = self.item_ids@;
        self.items.append(&mut new_items);
        self.item_ids.append(&mut new_ids);
        proof {
            lemma_items_view(self.items@);
            lemma_items_view(old_items);
            lemma_items_view(added_items);
            assert(self.items@ == old_items + added_items);
            assert(json_items_view(self.items@) =~= merged_items);
            assert(strings_of(self.item_ids@) =~= merged_ids);
        }
        self.pages = self.pages + 1;
        if self.first_data.is_none() {
            self.first_data = Some(clone_json(data));
        }
        if self.snapshot_hash.is_none() {
            self.snapshot_hash = Some(snapshot.clone());
        }
        if self.registry_revision.is_none() {
            self.registry_revision = Some(revision);
        }
        match page_diagnostic {
            Some(d) => {
                if self.diagnostic_revision.is_none() {
                    self.diagnostic_revision = Some(d);
                }
            },
            None => {},
        }
        match json_get_member(data, "next_cursor") {
            None | Some(JsonValue::Null) => {
                let first = match &self.first_data {
                    Some(f) => clone_json(f),
                    None => return PageOutcome::Malformed,
                };
                match first {
                    JsonValue::Object(members) => {
                        let mut members = members;
                        let all = clone_items(&self.items);
                        set_member_value(&mut members, "items", JsonValue::Array(all));
                        set_member_value(&mut members, "next_cursor", JsonValue::Null);
                        PageOutcome::Complete(JsonValue::Object(members))
                    },
                    _ => PageOutcome::Malformed,
                }
            },
            Some(JsonValue::Str(cursor)) => {
                if contains_string(&self.cursors, cursor.as_str()) || self.pages >= self.rules.max_pages {
                    return PageOutcome::Malformed;
                }
                match clone_json(payload) {
                    JsonValue::Object(members) => {
                        let mut members = members;
                        set_member_value(&mut members, "cursor", JsonValue::Str(cursor.clone()));
                        let ghost before = self.cursors@;
                        self.cursors.push(cursor.clone());
                        proof {
                            assert(strings_of(self.cursors@) =~= strings_of(before).push(cursor@));
                        }
                        PageOutcome::Next(JsonValue::Object(members))
                    },
                    _ => PageOutcome::Malformed,
                }
            },
            Some(_) => PageOutcome::Malformed,
        }
    }
}

// ----------------------------------------------------------------------
// What every accepted page keeps.
// ----------------------------------------------------------------------

/// A merge state that paging can reach: no item id or cursor twice, one id
/// per item, and no more items than the rules allow.
pub open spec fn merge_sound(r: RulesView, m: MergeView) -> bool {
    &&& m.ids.no_duplicates()
    &&& m.cursors.no_duplicates()
    &&& m.items.len() == m.ids.len()
    &&& m.items.len() <= r.max_items
}

proof fn lemma_take_items_sound(
    items: Seq<JsonView>,
    ids: Seq<Seq<char>>,
    page: Seq<JsonView>,
    key: Seq<char>,
    max: nat,
)
    requires
        ids.no_duplicates(),
        items.len() == ids.len(),
        items.len() <= max,
    ensures
        take_items(items, ids, page, key, max) matches Some((i2, d2)) ==> {
            &&& d2.no_duplicates()
            &&& i2.len() == d2.len()
            &&& i2.len() <= max
            &&& i2.len() == items.len() + page.len()
            &&& i2.subrange(0, items.len() as int) == items
            &&& i2.subrange(items.len() as int, i2.len() as int) == page
        },
    decreases page.len(),
{
    if page.len() > 0 {
        match str_of(json_get(page[0], key)) {
            None => {},
            Some(id) => {
                if !(ids.contains(id) || items.len() >= max) {
                    let ids2 = ids.push(id);
                    assert forall|a: int, b: int| 0 <= a < b < ids2.len() implies ids2[a] != ids2[b] by {
                        if b == ids.len() {
                            assert(ids[a] == ids2[a]);
                        }
                    }
                    lemma_take_items_sound(items.push(page[0]), ids2, page.drop_first(), key, max);
                    match take_items(items, ids, page, key, max) {
                        Some((i2, d2)) => {
                            assert(i2.subrange(0, items.len() as int) =~= items.push(page[0]).subrange(0, items.len() as int)) by {
                                assert(i2.subrange(0, items.len() + 1int) == items.push(page[0]));
                            }
                            assert(i2.subrange(items.len() as int, i2.len() as int) =~= page) by {
                                let n = items.len() as int;
                                let head = i2.subrange(0, n + 1);
                                let tail = i2.subrange(n + 1, i2.len() as int);
                                assert(head == items.push(page[0]));
                                assert(tail == page.drop_first());
                                assert(i2.len() == n + page.len());
                                assert forall|j: int| 0 <= j < page.len() implies #[trigger] i2.subrange(n, i2.len() as int)[j] == page[j] by {
                                    assert(i2.subrange(n, i2.len() as int)[j] == i2[n + j]);
                                    if j == 0 {
                                        assert(head[n] == i2[n]);
                                    } else {
                                        assert(tail[j - 1] == i2[n + j]);
                                    }
                                }
                            }
                        },
                        None => {},
                    }
                }
            },
        }
    }
}

/// Merging keeps its bounds: after any page that is not refused, the merged
/// list still names no item twice and holds at most the allowed number of
/// items, the page's items follow the earlier ones in order, every
/// requested cursor is new, and another page is requested only while fewer
/// than the allowed number of pages are in.
pub proof fn law_accepted_pages_keep_the_merge_bounded(r: RulesView, m: MergeView, payload: JsonView, data: JsonView)
    requires
        merge_sound(r, m),
    ensures
        accept_spec(r, m, payload, data).1 !is Malformed ==> {
            let next = accept_spec(r, m, payload, data).0;
            &&& merge_sound(r, next)
            &&& next.pages == m.pages + 1
            &&& next.items.subrange(0, m.items.len() as int) == m.items
            &&& data matches JsonView::Object(_)
            &&& json_get(data, "items"@) matches Some(JsonView::Array(page))
                && next.items.subrange(m.items.len() as int, next.items.len() as int) == page
        },
        accept_spec(r, m, payload, data).1 is Next ==> accept_spec(r, m, payload, data).0.pages < r.max_pages,
{
    if data is Object {
        match json_get(data, "items"@) {
            Some(JsonView::Array(page)) => {
                lemma_take_items_sound(m.items, m.ids, page, r.item_id_key, r.max_items as nat);
                match json_get(data, "next_cursor"@) {
                    Some(JsonView::Str(cursor)) => {
                        if !m.cursors.contains(cursor) {
                            let c2 = m.cursors.push(cursor);
                            assert forall|a: int, b: int| 0 <= a < b < c2.len() implies c2[a] != c2[b] by {
                                if b == m.cursors.len() {
                                    assert(m.cursors[a] == c2[a]);
                                }
                            }
                        }
                    },
                    _ => {},
                }
            },
            _ => {},
        }
    }
}

/// Every page of one merged listing describes one snapshot: a page whose
/// snapshot hash or registry revision differs from the first page's is
/// refused, and the merge keeps the first page's values.
pub proof fn law_pages_agree_on_the_snapshot(r: RulesView, m: MergeView, payload: JsonView, data: JsonView)
    ensures
        accept_spec(r, m, payload, data).1 !is Malformed ==> {
            let next = accept_spec(r, m, payload, data).0;
            &&& next.snapshot_hash == Some(str_of(json_get(data, "snapshot_hash"@))->0)
            &&& next.registry_revision == Some(u64_of(json_get(data, "registry_revision"@))->0)
            &&& m.snapshot_hash is Some ==> next.snapshot_hash == m.snapshot_hash
            &&& m.registry_revision is Some ==> next.registry_revision == m.registry_revision
        },
{
}

} // verus!
