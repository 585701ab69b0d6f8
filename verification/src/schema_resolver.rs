//! Resolving the JSON Schema resources of a tool package: every `$ref` is
//! local to the package, acyclic and at most `max_ref_depth` deep, and is
//! inlined, so the published snapshot never reopens package files.
//!
//! Locating a referenced file and reading it are the Controller's file
//! work.  The resolver is handed the answers it has been given so far and
//! stops with the question it needs answered next; asked again with that
//! answer added, it goes one step further.
use vstd::prelude::*;

use crate::json::{JsonValue, JsonView, JsonMember, json_view, json_items_view, json_members_view, lemma_items_view,
    lemma_members_view, member_lookup, json_get, json_get_member, clone_json, lemma_no_member};
use crate::cli::{all_digits, digits_value, is_digit};
use crate::text::{chars_of, string_from_chars, str_eq, starts_with, starts_with_str, string_push};
use crate::schema::{ResourceValidationError, SchemaLimits, has_forbidden_keyword, reject_forbidden_keywords, schema_root_ok,
    validate_schema_root, schema_compiles, check_schema_compiles, ArgvBinding, bindings_ok, validate_schema_bindings,
    normalized_arguments, normalize_schema_arguments};
use crate::json::{json_text, render_json};
use crate::hook::byte_len;
use crate::shell::strings_view;
use crate::hook::concat_str;

verus! {

// ----------------------------------------------------------------------
// JSON Pointer fragments.
// ----------------------------------------------------------------------

/// `s` with each `a b` pair, scanned from the left without overlap,
/// replaced by `r` (`str::replace` with a two-character pattern).
pub open spec fn replace_pair(s: Seq<char>, a: char, b: char, r: char) -> Seq<char>
    decreases s.len(),
{
    if s.len() == 0 {
        s
    } else if s.len() >= 2 && s[0] == a && s[1] == b {
        seq![r] + replace_pair(s.skip(2), a, b, r)
    } else {
        seq![s[0]] + replace_pair(s.drop_first(), a, b, r)
    }
}

/// A pointer token with `~1` read as `/`, then `~0` as `~`.
pub open spec fn unescape_token(t: Seq<char>) -> Seq<char> {
    replace_pair(replace_pair(t, '~', '1', '/'), '~', '0', '~')
}

/// The pieces of `s` between `/` characters (`str::split('/')`).
pub open spec fn split_slash(s: Seq<char>) -> Seq<Seq<char>>
    decreases s.len(),
{
    if s.len() == 0 {
        seq![Seq::empty()]
    } else {
        let p = split_slash(s.drop_last());
        if s.last() == '/' {
            p.push(Seq::empty())
        } else {
            p.update(p.len() - 1, p.last().push(s.last()))
        }
    }
}

/// The tokens of a pointer that starts with `/`.
pub open spec fn pointer_tokens(p: Seq<char>) -> Seq<Seq<char>> {
    split_slash(p).drop_first().map_values(|t: Seq<char>| unescape_token(t))
}

/// An array index token: decimal digits without a sign or a leading zero.
pub open spec fn index_token(t: Seq<char>) -> Option<nat> {
    if t.len() == 0 || t[0] == '+' || (t[0] == '0' && t.len() != 1) || !all_digits(t) {
        None
    } else {
        Some(digits_value(t))
    }
}

/// Follows pointer tokens into a document.
pub open spec fn pointer_walk(v: JsonView, tokens: Seq<Seq<char>>) -> Option<JsonView>
    decreases tokens.len(),
{
    if tokens.len() == 0 {
        Some(v)
    } else {
        match v {
            JsonView::Object(m) => match member_lookup(m, tokens[0]) {
                Some(c) => pointer_walk(c, tokens.drop_first()),
                None => None,
            },
            JsonView::Array(items) => match index_token(tokens[0]) {
                Some(i) => if i < items.len() { pointer_walk(items[i as int], tokens.drop_first()) } else { None },
                None => None,
            },
            _ => None,
        }
    }
}

/// The part of a document that a `$ref` fragment names: the whole
/// document for an empty fragment, else the JSON Pointer target.
pub open spec fn fragment_target(document: JsonView, fragment: Seq<char>) -> Option<JsonView> {
    if fragment.len() == 0 {
        Some(document)
    } else if fragment[0] != '/' {
        None
    } else {
        pointer_walk(document, pointer_tokens(fragment))
    }
}

fn replace_pair_chars(s: &Vec<char>, a: char, b: char, r: char) -> (result: Vec<char>)
    ensures
        result@ == replace_pair(s@, a, b, r),
{
    let mut out: Vec<char> = Vec::new();
    let mut i: usize = 0;
    assert(s@.skip(0) =~= s@);
    while i < s.len()
        invariant
            i <= s@.len(),
            out@ + replace_pair(s@.skip(i as int), a, b, r) == replace_pair(s@, a, b, r),
        decreases s@.len() - i,
    {
        let ghost rest = s@.skip(i as int);
        if i + 1 < s.len() && s[i] == a && s[i + 1] == b {
            assert(rest[0] == a && rest[1] == b);
            assert(rest.skip(2) =~= s@.skip(i + 2));
            out.push(r);
            proof {
                assert(out@ + replace_pair(s@.skip(i + 2), a, b, r) =~= out@.drop_last() + (seq![r] + replace_pair(rest.skip(2), a, b, r)));
            }
            i = i + 2;
        } else {
            assert(rest[0] == s@[i as int]);
            assert(rest.drop_first() =~= s@.skip(i + 1));
            proof {
                if rest.len() >= 2 {
                    assert(rest[1] == s@[i + 1]);
                }
            }
            out.push(s[i]);
            proof {
                assert(out@ + replace_pair(s@.skip(i + 1), a, b, r) =~= out@.drop_last() + (seq![s@[i as int]] + replace_pair(rest.drop_first(), a, b, r)));
            }
            i = i + 1;
        }
    }
    assert(s@.skip(i as int).len() == 0);
    assert(out@ + replace_pair(s@.skip(i as int), a, b, r) =~= out@);
    out
}

fn split_slash_chars(s: &Vec<char>) -> (result: Vec<Vec<char>>)
    ensures
        result@.map_values(|p: Vec<char>| p@) == split_slash(s@),
{
    let mut pieces: Vec<Vec<char>> = Vec::new();
    let mut current: Vec<char> = Vec::new();
    let mut i: usize = 0;
    assert(s@.take(0) =~= Seq::<char>::empty());
    while i < s.len()
        invariant
            i <= s@.len(),
            pieces@.map_values(|p: Vec<char>| p@).push(current@) == split_slash(s@.take(i as int)),
        decreases s@.len() - i,
    {
        let ghost before = pieces@.map_values(|p: Vec<char>| p@).push(current@);
        assert(s@.take(i + 1).drop_last() =~= s@.take(i as int));
        assert(s@.take(i + 1).last() == s@[i as int]);
        if s[i] == '/' {
            let done = current;
            pieces.push(done);
            current = Vec::new();
            assert(pieces@.map_values(|p: Vec<char>| p@).push(current@) =~= before.push(Seq::empty()));
        } else {
            current.push(s[i]);
            assert(pieces@.map_values(|p: Vec<char>| p@).push(current@) =~= before.update(before.len() - 1, before.last().push(s@[i as int])));
        }
        i = i + 1;
    }
    assert(s@.take(s@.len() as int) =~= s@);
    pieces.push(current);
    assert(pieces@.map_values(|p: Vec<char>| p@) =~= split_slash(s@));
    pieces
}

/// Pointer tokens of a fragment that starts with `/`, unescaped.
fn fragment_tokens(fragment: &Vec<char>) -> (result: Vec<Vec<char>>)
    ensures
        result@.map_values(|t: Vec<char>| t@) == pointer_tokens(fragment@),
{
    let pieces = split_slash_chars(fragment);
    let ghost pv = pieces@.map_values(|p: Vec<char>| p@);
    let mut tokens: Vec<Vec<char>> = Vec::new();
    let mut i: usize = 1;
    assert(pv.len() >= 1) by {
        lemma_split_nonempty(fragment@);
    }
    while i < pieces.len()
        invariant
            1 <= i <= pieces@.len(),
            pv == pieces@.map_values(|p: Vec<char>| p@),
            tokens@.map_values(|t: Vec<char>| t@) == pv.subrange(1, i as int).map_values(|t: Seq<char>| unescape_token(t)),
        decreases pieces@.len() - i,
    {
        let once = replace_pair_chars(&pieces[i], '~', '1', '/');
        let token = replace_pair_chars(&once, '~', '0', '~');
        let ghost before = tokens@.map_values(|t: Vec<char>| t@);
        tokens.push(token);
        assert(pv[i as int] == pieces@[i as int]@);
        assert(tokens@.map_values(|t: Vec<char>| t@) =~= before.push(unescape_token(pv[i as int])));
        assert(pv.subrange(1, i + 1).map_values(|t: Seq<char>| unescape_token(t))
            =~= pv.subrange(1, i as int).map_values(|t: Seq<char>| unescape_token(t)).push(unescape_token(pv[i as int])));
        i = i + 1;
    }
    assert(pv.subrange(1, pv.len() as int) =~= pv.drop_first());
    tokens
}

proof fn lemma_split_nonempty(s: Seq<char>)
    ensures
        split_slash(s).len() >= 1,
    decreases s.len(),
{
    if s.len() > 0 {
        lemma_split_nonempty(s.drop_last());
    }
}

/// Follows pointer tokens into a document.
#[verifier::loop_isolation(false)]
fn walk_pointer<'a>(v: &'a JsonValue, tokens: &Vec<Vec<char>>) -> (result: Option<&'a JsonValue>)
    ensures
        match result {
            Some(r) => pointer_walk(v@, tokens@.map_values(|t: Vec<char>| t@)) == Some(r@),
            None => pointer_walk(v@, tokens@.map_values(|t: Vec<char>| t@)) is None,
        },
{
    let ghost tv = tokens@.map_values(|t: Vec<char>| t@);
    let mut current: &JsonValue = v;
    let mut i: usize = 0;
    assert(tv.skip(0) =~= tv);
    while i < tokens.len()
        invariant
            i <= tokens@.len(),
            tv.len() == tokens@.len(),
            pointer_walk(v@, tv) == pointer_walk(current@, tv.skip(i as int)),
        decreases tokens@.len() - i,
    {
        let ghost rest = tv.skip(i as int);
        assert(rest[0] == tokens@[i as int]@);
        assert(rest.drop_first() =~= tv.skip(i + 1));
        let token = string_from_chars(tokens[i].as_slice());
        match current {
            JsonValue::Object(_) => {
                match json_get_member(current, token.as_str()) {
                    Some(child) => {
                        current = child;
                    },
                    None => return None,
                }
            },
            JsonValue::Array(items) => {
                let t = &tokens[i];
                if t.len() == 0 || t[0] == '+' || (t[0] == '0' && t.len() != 1) {
                    return None;
                }
                proof {
                    lemma_items_view(items@);
                }
                match crate::cli::parse_u64(token.as_str()) {
                    Some(n) => {
                        if n < items.len() as u64 {
                            current = &items[n as usize];
                        } else {
                            return None;
                        }
                    },
                    None => {
                        proof {
                            assert(token@ == tokens@[i as int]@);
                            assert(items.len() <= usize::MAX);
                            if all_digits(token@) {
                                assert(digits_value(token@) > u64::MAX);
                                assert(digits_value(token@) >= json_items_view(items@).len());
                            }
                        }
                        return None;
                    },
                }
            },
            _ => return None,
        }
        i = i + 1;
    }
    assert(tv.skip(i as int).len() == 0);
    Some(current)
}

/// The part of `document` that `fragment` names.
pub fn resolve_fragment<'a>(document: &'a JsonValue, fragment: &str) -> (result: Option<&'a JsonValue>)
    ensures
        match result {
            Some(r) => fragment_target(document@, fragment@) == Some(r@),
            None => fragment_target(document@, fragment@) is None,
        },
{
    let chars = chars_of(fragment);
    if chars.len() == 0 {
        return Some(document);
    }
    if chars[0] != '/' {
        return None;
    }
    let tokens = fragment_tokens(&chars);
    walk_pointer(document, &tokens)
}

// ----------------------------------------------------------------------
// What the Controller found on disk.
// ----------------------------------------------------------------------

/// Where the schema path `relative`, named from the schema file `document`
/// (from the package root when `document` is `None`), leads: its final
/// path, or why it cannot be used.
pub struct SchemaLocation {
    pub document: Option<String>,
    pub relative: String,
    pub found: Result<String, ResourceValidationError>,
}

/// What reading the schema file at `final_path` gave: its size in bytes, or
/// the error met before the size was known; then its JSON document, or the
/// error met reading or parsing it.
pub struct SchemaFile {
    pub final_path: String,
    pub size: Result<u64, ResourceValidationError>,
    pub document: Result<JsonValue, ResourceValidationError>,
}

/// The answers gathered so far.
pub struct SchemaSources {
    pub locations: Vec<SchemaLocation>,
    pub files: Vec<SchemaFile>,
}

/// Why resolution stopped: a failure, or a question for the Controller.
pub enum ResolveStop {
    Failed(ResourceValidationError),
    NeedLocation { document: Option<String>, relative: String },
    NeedFile { final_path: String },
}

/// The files loaded so far (each counted once) and their bytes.
pub struct ResolverState {
    pub loaded: Vec<String>,
    pub package_bytes: u64,
}

pub struct LocationView {
    pub document: Option<Seq<char>>,
    pub relative: Seq<char>,
    pub found: Result<Seq<char>, ResourceValidationError>,
}

pub struct FileView {
    pub final_path: Seq<char>,
    pub size: Result<u64, ResourceValidationError>,
    pub document: Result<JsonView, ResourceValidationError>,
}

pub struct SourcesView {
    pub locations: Seq<LocationView>,
    pub files: Seq<FileView>,
}

pub enum StopView {
    Failed(ResourceValidationError),
    NeedLocation { document: Option<Seq<char>>, relative: Seq<char> },
    NeedFile { final_path: Seq<char> },
}

pub struct StateView {
    pub loaded: Seq<Seq<char>>,
    pub package_bytes: u64,
}

pub open spec fn opt_text(v: Option<String>) -> Option<Seq<char>> {
    match v {
        Some(s) => Some(s@),
        None => None,
    }
}

impl View for SchemaLocation {
    type V = LocationView;

    open spec fn view(&self) -> LocationView {
        LocationView {
            document: opt_text(self.document),
            relative: self.relative@,
            found: match self.found {
                Ok(p) => Ok(p@),
                Err(e) => Err(e),
            },
        }
    }
}

impl View for SchemaFile {
    type V = FileView;

    open spec fn view(&self) -> FileView {
        FileView {
            final_path: self.final_path@,
            size: self.size,
            document: match self.document {
                Ok(d) => Ok(d@),
                Err(e) => Err(e),
            },
        }
    }
}

impl View for SchemaSources {
    type V = SourcesView;

    open spec fn view(&self) -> SourcesView {
        SourcesView {
            locations: self.locations@.map_values(|l: SchemaLocation| l@),
            files: self.files@.map_values(|f: SchemaFile| f@),
        }
    }
}

impl View for ResolverState {
    type V = StateView;

    open spec fn view(&self) -> StateView {
        StateView { loaded: strings_view(self.loaded@), package_bytes: self.package_bytes }
    }
}

pub open spec fn stop_view(s: ResolveStop) -> StopView {
    match s {
        ResolveStop::Failed(e) => StopView::Failed(e),
        ResolveStop::NeedLocation { document, relative } => StopView::NeedLocation { document: opt_text(document), relative: relative@ },
        ResolveStop::NeedFile { final_path } => StopView::NeedFile { final_path: final_path@ },
    }
}

pub open spec fn outcome_view(r: Result<JsonValue, ResolveStop>) -> Result<JsonView, StopView> {
    match r {
        Ok(v) => Ok(v@),
        Err(s) => Err(stop_view(s)),
    }
}

/// The first answer for `relative` named from `document`.
pub open spec fn location_of(ls: Seq<LocationView>, document: Option<Seq<char>>, relative: Seq<char>) -> Option<Result<Seq<char>, ResourceValidationError>>
    decreases ls.len(),
{
    if ls.len() == 0 {
        None
    } else if ls[0].document == document && ls[0].relative == relative {
        Some(ls[0].found)
    } else {
        location_of(ls.drop_first(), document, relative)
    }
}

/// The first answer for the file at `path`.
pub open spec fn file_at(fs: Seq<FileView>, path: Seq<char>) -> Option<FileView>
    decreases fs.len(),
{
    if fs.len() == 0 {
        None
    } else if fs[0].final_path == path {
        Some(fs[0])
    } else {
        file_at(fs.drop_first(), path)
    }
}

/// Locating a schema path: the final path, or a stop.
pub open spec fn locate_step(env: SourcesView, document: Option<Seq<char>>, relative: Seq<char>) -> Result<Seq<char>, StopView> {
    match location_of(env.locations, document, relative) {
        None => Err(StopView::NeedLocation { document, relative }),
        Some(Ok(p)) => Ok(p),
        Some(Err(e)) => Err(StopView::Failed(e)),
    }
}

/// Loading the schema file at `path`: a file already loaded is not counted
/// again; a new one adds its size to the package's bytes, which must stay
/// within the limit.
pub open spec fn load_step(env: SourcesView, limits: SchemaLimits, st: StateView, path: Seq<char>) -> (StateView, Result<JsonView, StopView>) {
    match file_at(env.files, path) {
        None => (st, Err(StopView::NeedFile { final_path: path })),
        Some(f) => if st.loaded.contains(path) {
            (st, match f.document {
                Ok(d) => Ok(d),
                Err(e) => Err(StopView::Failed(e)),
            })
        } else {
            match f.size {
                Err(e) => (st, Err(StopView::Failed(e))),
                Ok(n) => if st.package_bytes + n > u64::MAX || st.package_bytes + n > limits.package_bytes {
                    (st, Err(StopView::Failed(ResourceValidationError::PackageSize)))
                } else {
                    match f.document {
                        Err(e) => (st, Err(StopView::Failed(e))),
                        Ok(d) => (StateView { loaded: st.loaded.push(path), package_bytes: (st.package_bytes + n) as u64 }, Ok(d)),
                    }
                },
            }
        },
    }
}

fn opt_string_eq(a: &Option<String>, b: &Option<String>) -> (result: bool)
    ensures
        result == (opt_text(*a) == opt_text(*b)),
{
    match (a, b) {
        (Some(x), Some(y)) => *x == *y,
        (None, None) => true,
        _ => false,
    }
}

fn find_location(env: &SchemaSources, document: &Option<String>, relative: &str) -> (result: Option<usize>)
    ensures
        match result {
            Some(i) => i < env.locations@.len() && location_of(env@.locations, opt_text(*document), relative@) == Some(env.locations@[i as int]@.found),
            None => location_of(env@.locations, opt_text(*document), relative@) is None,
        },
{
    let ghost ls = env@.locations;
    let rel: String = relative.to_owned();
    let mut i: usize = 0;
    assert(ls.skip(0) =~= ls);
    while i < env.locations.len()
        invariant
            ls == env@.locations,
            ls.len() == env.locations@.len(),
            rel@ == relative@,
            i <= ls.len(),
            location_of(ls, opt_text(*document), relative@) == location_of(ls.skip(i as int), opt_text(*document), relative@),
        decreases ls.len() - i,
    {
        let ghost rest = ls.skip(i as int);
        assert(rest[0] == env.locations@[i as int]@);
        assert(rest.drop_first() =~= ls.skip(i + 1));
        if opt_string_eq(&env.locations[i].document, document) && env.locations[i].relative == rel {
            return Some(i);
        }
        i = i + 1;
    }
    None
}

fn find_file(env: &SchemaSources, path: &String) -> (result: Option<usize>)
    ensures
        match result {
            Some(i) => i < env.files@.len() && file_at(env@.files, path@) == Some(env.files@[i as int]@),
            None => file_at(env@.files, path@) is None,
        },
{
    let ghost fs = env@.files;
    let mut i: usize = 0;
    assert(fs.skip(0) =~= fs);
    while i < env.files.len()
        invariant
            fs == env@.files,
            fs.len() == env.files@.len(),
            i <= fs.len(),
            file_at(fs, path@) == file_at(fs.skip(i as int), path@),
        decreases fs.len() - i,
    {
        let ghost rest = fs.skip(i as int);
        assert(rest[0] == env.files@[i as int]@);
        assert(rest.drop_first() =~= fs.skip(i + 1));
        if env.files[i].final_path == *path {
            return Some(i);
        }
        i = i + 1;
    }
    None
}

fn locate(env: &SchemaSources, document: &Option<String>, relative: &str) -> (result: Result<String, ResolveStop>)
    ensures
        match (result, locate_step(env@, opt_text(*document), relative@)) {
            (Ok(p), Ok(q)) => p@ == q,
            (Err(s), Err(t)) => stop_view(s) == t,
            _ => false,
        },
{
    match find_location(env, document, relative) {
        None => Err(ResolveStop::NeedLocation {
            document: match document {
                Some(d) => Some(d.clone()),
                None => None,
            },
            relative: relative.to_owned(),
        }),
        Some(i) => match &env.locations[i].found {
            Ok(p) => Ok(p.clone()),
            Err(e) => Err(ResolveStop::Failed(*e)),
        },
    }
}

fn contains_text(v: &Vec<String>, s: &String) -> (result: bool)
    ensures
        result == strings_view(v@).contains(s@),
{
    let mut i: usize = 0;
    while i < v.len()
        invariant
            i <= v@.len(),
            forall|j: int| 0 <= j < i ==> v@[j]@ != s@,
        decreases v@.len() - i,
    {
        if v[i] == *s {
            assert(strings_view(v@)[i as int] == s@);
            return true;
        }
        i = i + 1;
    }
    proof {
        if strings_view(v@).contains(s@) {
            let j = choose|j: int| 0 <= j < strings_view(v@).len() && #[trigger] strings_view(v@)[j] == s@;
            assert(v@[j]@ == s@);
        }
    }
    false
}

fn load(env: &SchemaSources, limits: &SchemaLimits, state: &mut ResolverState, path: &String) -> (result: Result<JsonValue, ResolveStop>)
    ensures
        outcome_view(result) == load_step(env@, *limits, old(state)@, path@).1,
        final(state)@ == load_step(env@, *limits, old(state)@, path@).0,
{
    let i = match find_file(env, path) {
        None => return Err(ResolveStop::NeedFile { final_path: path.clone() }),
        Some(i) => i,
    };
    let file = &env.files[i];
    if contains_text(&state.loaded, path) {
        return match &file.document {
            Ok(d) => Ok(clone_json(d)),
            Err(e) => Err(ResolveStop::Failed(*e)),
        };
    }
    let n = match file.size {
        Err(e) => return Err(ResolveStop::Failed(e)),
        Ok(n) => n,
    };
    if state.package_bytes > u64::MAX - n || state.package_bytes + n > limits.package_bytes {
        return Err(ResolveStop::Failed(ResourceValidationError::PackageSize));
    }
    match &file.document {
        Err(e) => Err(ResolveStop::Failed(*e)),
        Ok(d) => {
            let ghost before = state.loaded@;
            state.loaded.push(path.clone());
            state.package_bytes = state.package_bytes + n;
            assert(strings_view(state.loaded@) =~= strings_view(before).push(path@));
            Ok(clone_json(d))
        },
    }
}

// ----------------------------------------------------------------------
// Resolving references.
// ----------------------------------------------------------------------

/// A reference that names a remote or absolute resource.
pub open spec fn is_remote(r: Seq<char>) -> bool {
    starts_with(r, "http:"@) || starts_with(r, "https:"@) || starts_with(r, "file:"@) || starts_with(r, "urn:"@)
        || starts_with(r, "//"@)
}

/// Index of the first `#` of `r`, or -1.
pub open spec fn hash_pos(r: Seq<char>) -> int
    decreases r.len(),
{
    if r.len() == 0 {
        -1
    } else if r[0] == '#' {
        0
    } else {
        let p = hash_pos(r.drop_first());
        if p < 0 { -1 } else { p + 1 }
    }
}

/// The path part of a reference: what stands before its first `#`.
pub open spec fn ref_path(r: Seq<char>) -> Seq<char> {
    if hash_pos(r) < 0 { r } else { r.take(hash_pos(r)) }
}

/// The fragment of a reference: what follows its first `#`.
pub open spec fn ref_fragment(r: Seq<char>) -> Seq<char> {
    if hash_pos(r) < 0 { Seq::empty() } else { r.skip(hash_pos(r) + 1) }
}

/// How many more nested references may be followed at `depth`.
pub open spec fn ref_fuel(limits: SchemaLimits, depth: nat) -> nat {
    if depth <= limits.max_ref_depth { (limits.max_ref_depth + 1 - depth) as nat } else { 0 }
}

/// Resolves a schema value found in file `doc`, at reference depth
/// `depth`, inside the references `stack` (each `final-path#fragment`):
/// too deep is a reference error; a forbidden keyword anywhere in the value
/// is a schema error; an object with `$ref` is replaced by its resolved
/// target (combined with its other members as an `allOf` when there are
/// any), after checking that the reference is local and not already on
/// the stack; other objects and arrays are resolved member by member.
pub open spec fn resolve_value(
    env: SourcesView,
    limits: SchemaLimits,
    st: StateView,
    v: JsonView,
    doc: Seq<char>,
    depth: nat,
    stack: Seq<Seq<char>>,
) -> (StateView, Result<JsonView, StopView>)
    decreases ref_fuel(limits, depth), v,
{
    if depth > limits.max_ref_depth {
        (st, Err(StopView::Failed(ResourceValidationError::Reference)))
    } else if has_forbidden_keyword(v) {
        (st, Err(StopView::Failed(ResourceValidationError::Schema)))
    } else {
        match v {
            JsonView::Object(m) => match member_lookup(m, "$ref"@) {
                None => {
                    let (st1, r) = resolve_members(env, limits, st, m, doc, depth, stack, false);
                    (st1, match r {
                        Ok(ms) => Ok(JsonView::Object(ms)),
                        Err(s) => Err(s),
                    })
                },
                Some(JsonView::Str(reference)) => if is_remote(reference) {
                    (st, Err(StopView::Failed(ResourceValidationError::Reference)))
                } else {
                    let path = ref_path(reference);
                    let fragment = ref_fragment(reference);
                    let located = if path.len() == 0 { Ok(doc) } else { locate_step(env, Some(doc), path) };
                    match located {
                        Err(s) => (st, Err(s)),
                        Ok(target) => {
                            let identity = target + seq!['#'] + fragment;
                            if stack.contains(identity) {
                                (st, Err(StopView::Failed(ResourceValidationError::Reference)))
                            } else {
                                let (st1, loaded) = load_step(env, limits, st, target);
                                match loaded {
                                    Err(s) => (st1, Err(s)),
                                    Ok(document) => match fragment_target(document, fragment) {
                                        None => (st1, Err(StopView::Failed(ResourceValidationError::Reference))),
                                        Some(t) => {
                                            let (st2, rt) = resolve_value(env, limits, st1, t, target, depth + 1, stack.push(identity));
                                            match rt {
                                                Err(s) => (st2, Err(s)),
                                                Ok(resolved) => {
                                                    let (st3, sib) = resolve_members(env, limits, st2, m, doc, depth, stack, true);
                                                    match sib {
                                                        Err(s) => (st3, Err(s)),
                                                        Ok(sm) => (st3, Ok(if sm.len() == 0 {
                                                            resolved
                                                        } else {
                                                            JsonView::Object(seq![("allOf"@, JsonView::Array(seq![resolved, JsonView::Object(sm)]))])
                                                        })),
                                                    }
                                                },
                                            }
                                        },
                                    },
                                }
                            }
                        },
                    }
                },
                Some(_) => (st, Err(StopView::Failed(ResourceValidationError::Schema))),
            },
            JsonView::Array(items) => {
                let (st1, r) = resolve_items(env, limits, st, items, doc, depth, stack);
                (st1, match r {
                    Ok(xs) => Ok(JsonView::Array(xs)),
                    Err(s) => Err(s),
                })
            },
            _ => (st, Ok(v)),
        }
    }
}

/// Resolves the members of an object in order (without its `$ref`
/// members when `skip_ref`).
pub open spec fn resolve_members(
    env: SourcesView,
    limits: SchemaLimits,
    st: StateView,
    m: Seq<(Seq<char>, JsonView)>,
    doc: Seq<char>,
    depth: nat,
    stack: Seq<Seq<char>>,
    skip_ref: bool,
) -> (StateView, Result<Seq<(Seq<char>, JsonView)>, StopView>)
    decreases ref_fuel(limits, depth), m,
{
    if m.len() == 0 {
        (st, Ok(Seq::empty()))
    } else {
        let (st1, r) = resolve_members(env, limits, st, m.drop_last(), doc, depth, stack, skip_ref);
        match r {
            Err(s) => (st1, Err(s)),
            Ok(prev) => if skip_ref && m.last().0 == "$ref"@ {
                (st1, Ok(prev))
            } else {
                proof {
                    assert(decreases_to!(m => m[m.len() - 1]));
                }
                let (st2, c) = resolve_value(env, limits, st1, m.last().1, doc, depth, stack);
                match c {
                    Err(s) => (st2, Err(s)),
                    Ok(x) => (st2, Ok(prev.push((m.last().0, x)))),
                }
            },
        }
    }
}

/// Resolves the items of an array in order.
pub open spec fn resolve_items(
    env: SourcesView,
    limits: SchemaLimits,
    st: StateView,
    items: Seq<JsonView>,
    doc: Seq<char>,
    depth: nat,
    stack: Seq<Seq<char>>,
) -> (StateView, Result<Seq<JsonView>, StopView>)
    decreases ref_fuel(limits, depth), items,
{
    if items.len() == 0 {
        (st, Ok(Seq::empty()))
    } else {
        let (st1, r) = resolve_items(env, limits, st, items.drop_last(), doc, depth, stack);
        match r {
            Err(s) => (st1, Err(s)),
            Ok(prev) => {
                let (st2, c) = resolve_value(env, limits, st1, items.last(), doc, depth, stack);
                match c {
                    Err(s) => (st2, Err(s)),
                    Ok(x) => (st2, Ok(prev.push(x))),
                }
            },
        }
    }
}

proof fn lemma_hash_pos(r: Seq<char>)
    ensures
        hash_pos(r) == -1 ==> forall|j: int| 0 <= j < r.len() ==> r[j] != '#',
        hash_pos(r) != -1 ==> 0 <= hash_pos(r) < r.len() && r[hash_pos(r)] == '#'
            && forall|j: int| 0 <= j < hash_pos(r) ==> r[j] != '#',
    decreases r.len(),
{
    if r.len() > 0 && r[0] != '#' {
        lemma_hash_pos(r.drop_first());
        assert forall|j: int| 1 <= j < r.len() implies r[j] == r.drop_first()[j - 1] by {}
    }
}

/// The path and fragment of a reference.
fn split_reference(r: &str) -> (result: (String, String))
    ensures
        result.0@ == ref_path(r@),
        result.1@ == ref_fragment(r@),
{
    let chars = chars_of(r);
    proof {
        lemma_hash_pos(r@);
    }
    let mut k: usize = 0;
    while k < chars.len() && chars[k] != '#'
        invariant
            chars@ == r@,
            k <= chars@.len(),
            forall|j: int| 0 <= j < k ==> chars@[j] != '#',
        decreases chars@.len() - k,
    {
        k = k + 1;
    }
    if k == chars.len() {
        assert(hash_pos(r@) == -1) by {
            if hash_pos(r@) != -1 {
                assert(r@[hash_pos(r@)] == '#');
            }
        }
        (string_from_chars(chars.as_slice()), String::new())
    } else {
        assert(hash_pos(r@) == k) by {
            if hash_pos(r@) == -1 {
                assert(r@[k as int] == '#');
            } else if hash_pos(r@) < k {
                assert(chars@[hash_pos(r@)] != '#');
            } else if hash_pos(r@) > k {
                assert(r@[k as int] != '#');
            }
        }
        let mut path: Vec<char> = Vec::new();
        let mut i: usize = 0;
        while i < k
            invariant
                chars@ == r@,
                k < chars@.len(),
                i <= k,
                path@ == chars@.take(i as int),
            decreases k - i,
        {
            path.push(chars[i]);
            assert(chars@.take(i + 1) =~= chars@.take(i as int).push(chars@[i as int]));
            i = i + 1;
        }
        let mut fragment: Vec<char> = Vec::new();
        let mut j: usize = k + 1;
        while j < chars.len()
            invariant
                chars@ == r@,
                k < chars@.len(),
                k + 1 <= j <= chars@.len(),
                fragment@ == chars@.subrange(k + 1, j as int),
            decreases chars@.len() - j,
        {
            fragment.push(chars[j]);
            assert(chars@.subrange(k + 1, j + 1) =~= chars@.subrange(k + 1, j as int).push(chars@[j as int]));
            j = j + 1;
        }
        assert(chars@.subrange(k + 1, chars@.len() as int) =~= chars@.skip(k + 1));
        (string_from_chars(path.as_slice()), string_from_chars(fragment.as_slice()))
    }
}

fn is_remote_reference(r: &str) -> (result: bool)
    ensures
        result == is_remote(r@),
{
    starts_with_str(r, "http:") || starts_with_str(r, "https:") || starts_with_str(r, "file:")
        || starts_with_str(r, "urn:") || starts_with_str(r, "//")
}

proof fn lemma_members_error_stays(
    env: SourcesView,
    limits: SchemaLimits,
    st: StateView,
    m: Seq<(Seq<char>, JsonView)>,
    doc: Seq<char>,
    depth: nat,
    stack: Seq<Seq<char>>,
    skip_ref: bool,
    k: int,
    n: int,
)
    requires
        0 <= k <= n <= m.len(),
        resolve_members(env, limits, st, m.take(k), doc, depth, stack, skip_ref).1 is Err,
    ensures
        resolve_members(env, limits, st, m.take(n), doc, depth, stack, skip_ref).1
            == resolve_members(env, limits, st, m.take(k), doc, depth, stack, skip_ref).1,
    decreases n - k,
{
    if n > k {
        lemma_members_error_stays(env, limits, st, m, doc, depth, stack, skip_ref, k, n - 1);
        assert(m.take(n).drop_last() =~= m.take(n - 1));
    }
}

proof fn lemma_items_error_stays(
    env: SourcesView,
    limits: SchemaLimits,
    st: StateView,
    items: Seq<JsonView>,
    doc: Seq<char>,
    depth: nat,
    stack: Seq<Seq<char>>,
    k: int,
    n: int,
)
    requires
        0 <= k <= n <= items.len(),
        resolve_items(env, limits, st, items.take(k), doc, depth, stack).1 is Err,
    ensures
        resolve_items(env, limits, st, items.take(n), doc, depth, stack).1
            == resolve_items(env, limits, st, items.take(k), doc, depth, stack).1,
    decreases n - k,
{
    if n > k {
        lemma_items_error_stays(env, limits, st, items, doc, depth, stack, k, n - 1);
        assert(items.take(n).drop_last() =~= items.take(n - 1));
    }
}

#[verifier::loop_isolation(false)]
fn resolve_members_exec(
    env: &SchemaSources,
    limits: &SchemaLimits,
    state: &mut ResolverState,
    members: &Vec<JsonMember>,
    doc: &String,
    depth: usize,
    stack: &Vec<String>,
    skip_ref: bool,
) -> (result: Result<Vec<JsonMember>, ResolveStop>)
    ensures
        match (result, resolve_members(env@, *limits, old(state)@, json_members_view(members@), doc@, depth as nat, strings_view(stack@), skip_ref).1) {
            (Ok(out), Ok(ms)) => json_members_view(out@) == ms,
            (Err(x), Err(y)) => stop_view(x) == y,
            _ => false,
        },
        result is Ok ==> final(state)@ == resolve_members(env@, *limits, old(state)@, json_members_view(members@), doc@, depth as nat,
            strings_view(stack@), skip_ref).0,
    decreases ref_fuel(*limits, depth as nat), *members, 0int,
{
    let ghost st0 = state@;
    let ghost sv = strings_view(stack@);
    let ghost mv = json_members_view(members@);
    proof {
        lemma_members_view(members@);
    }
    let mut out: Vec<JsonMember> = Vec::new();
    let mut i: usize = 0;
    assert(mv.take(0) =~= Seq::<(Seq<char>, JsonView)>::empty());
    assert(json_members_view(out@) =~= Seq::<(Seq<char>, JsonView)>::empty());
    while i < members.len()
        invariant
            i <= members@.len(),
            mv == json_members_view(members@),
            mv.len() == members@.len(),
            forall|j: int| 0 <= j < members@.len() ==> #[trigger] mv[j] == (members@[j].key@, json_view(members@[j].value)),
            sv == strings_view(stack@),
            resolve_members(env@, *limits, st0, mv.take(i as int), doc@, depth as nat, sv, skip_ref)
                == (state@, Ok::<Seq<(Seq<char>, JsonView)>, StopView>(json_members_view(out@))),
        decreases members@.len() - i,
    {
        let ghost t = mv.take(i + 1);
        assert(t.drop_last() =~= mv.take(i as int));
        assert(t.last() == mv[i as int]);
        if skip_ref && str_eq(members[i].key.as_str(), "$ref") {
            i = i + 1;
        } else {
            proof {
                assert(decreases_to!(*members => members@));
                assert(decreases_to!(members@ => members@[i as int]));
                assert(decreases_to!(members@[i as int] => members@[i as int].value));
            }
            let ghost old_out = out@;
            let ghost st_before = state@;
            match resolve_value_exec(env, limits, state, &members[i].value, doc, depth, stack) {
                Ok(x) => {
                    let ghost xv = x@;
                    out.push(JsonMember { key: members[i].key.clone(), value: x });
                    proof {
                        assert(out@.drop_last() =~= old_out);
                        assert(json_members_view(out@) =~= json_members_view(old_out).push((members@[i as int].key@, xv)));
                    }
                    i = i + 1;
                },
                Err(e) => {
                    proof {
                        assert(resolve_value(env@, *limits, st_before, mv[i as int].1, doc@, depth as nat, sv).1 == Err::<JsonView, StopView>(stop_view(e)));
                        assert(resolve_members(env@, *limits, st0, t, doc@, depth as nat, sv, skip_ref).1 == Err::<Seq<(Seq<char>, JsonView)>, StopView>(stop_view(e)));
                        lemma_members_error_stays(env@, *limits, st0, mv, doc@, depth as nat, sv, skip_ref, i + 1, mv.len() as int);
                        assert(mv.take(mv.len() as int) =~= mv);
                    }
                    return Err(e);
                },
            }
        }
    }
    assert(mv.take(mv.len() as int) =~= mv);
    Ok(out)
}

#[verifier::loop_isolation(false)]
fn resolve_items_exec(
    env: &SchemaSources,
    limits: &SchemaLimits,
    state: &mut ResolverState,
    items: &Vec<JsonValue>,
    doc: &String,
    depth: usize,
    stack: &Vec<String>,
) -> (result: Result<Vec<JsonValue>, ResolveStop>)
    ensures
        match (result, resolve_items(env@, *limits, old(state)@, json_items_view(items@), doc@, depth as nat, strings_view(stack@)).1) {
            (Ok(out), Ok(xs)) => json_items_view(out@) == xs,
            (Err(x), Err(y)) => stop_view(x) == y,
            _ => false,
        },
        result is Ok ==> final(state)@ == resolve_items(env@, *limits, old(state)@, json_items_view(items@), doc@, depth as nat,
            strings_view(stack@)).0,
    decreases ref_fuel(*limits, depth as nat), *items, 0int,
{
    let ghost st0 = state@;
    let ghost sv = strings_view(stack@);
    let ghost iv = json_items_view(items@);
    proof {
        lemma_items_view(items@);
    }
    let mut out: Vec<JsonValue> = Vec::new();
    let mut i: usize = 0;
    assert(iv.take(0) =~= Seq::<JsonView>::empty());
    assert(json_items_view(out@) =~= Seq::<JsonView>::empty());
    while i < items.len()
        invariant
            i <= items@.len(),
            iv == json_items_view(items@),
            iv.len() == items@.len(),
            forall|j: int| 0 <= j < items@.len() ==> #[trigger] iv[j] == json_view(items@[j]),
            sv == strings_view(stack@),
            resolve_items(env@, *limits, st0, iv.take(i as int), doc@, depth as nat, sv)
                == (state@, Ok::<Seq<JsonView>, StopView>(json_items_view(out@))),
        decreases items@.len() - i,
    {
        let ghost t = iv.take(i + 1);
        assert(t.drop_last() =~= iv.take(i as int));
        assert(t.last() == iv[i as int]);
        proof {
            assert(decreases_to!(*items => items@));
            assert(decreases_to!(items@ => items@[i as int]));
        }
        let ghost old_out = out@;
        let ghost st_before = state@;
        match resolve_value_exec(env, limits, state, &items[i], doc, depth, stack) {
            Ok(x) => {
                let ghost xv = x@;
                out.push(x);
                proof {
                    assert(out@.drop_last() =~= old_out);
                    assert(json_items_view(out@) =~= json_items_view(old_out).push(xv));
                }
                i = i + 1;
            },
            Err(e) => {
                proof {
                    assert(resolve_value(env@, *limits, st_before, iv[i as int], doc@, depth as nat, sv).1 == Err::<JsonView, StopView>(stop_view(e)));
                    assert(resolve_items(env@, *limits, st0, t, doc@, depth as nat, sv).1 == Err::<Seq<JsonView>, StopView>(stop_view(e)));
                    lemma_items_error_stays(env@, *limits, st0, iv, doc@, depth as nat, sv, i + 1, iv.len() as int);
                    assert(iv.take(iv.len() as int) =~= iv);
                }
                return Err(e);
            },
        }
    }
    assert(iv.take(iv.len() as int) =~= iv);
    Ok(out)
}

/// Resolves one schema value (see `resolve_value`).
fn resolve_value_exec(
    env: &SchemaSources,
    limits: &SchemaLimits,
    state: &mut ResolverState,
    v: &JsonValue,
    doc: &String,
    depth: usize,
    stack: &Vec<String>,
) -> (result: Result<JsonValue, ResolveStop>)
    ensures
        outcome_view(result) == resolve_value(env@, *limits, old(state)@, v@, doc@, depth as nat, strings_view(stack@)).1,
        result is Ok ==> final(state)@ == resolve_value(env@, *limits, old(state)@, v@, doc@, depth as nat, strings_view(stack@)).0,
    decreases ref_fuel(*limits, depth as nat), *v, 1int,
{
    if depth > limits.max_ref_depth {
        return Err(ResolveStop::Failed(ResourceValidationError::Reference));
    }
    if reject_forbidden_keywords(v).is_err() {
        return Err(ResolveStop::Failed(ResourceValidationError::Schema));
    }
    match v {
        JsonValue::Object(members) => {
            proof {
                assert(decreases_to!(*v => v->Object_0));
            }
            match json_get_member(v, "$ref") {
                None => match resolve_members_exec(env, limits, state, members, doc, depth, stack, false) {
                    Ok(ms) => Ok(JsonValue::Object(ms)),
                    Err(e) => Err(e),
                },
                Some(JsonValue::Str(reference)) => {
                    if is_remote_reference(reference.as_str()) {
                        return Err(ResolveStop::Failed(ResourceValidationError::Reference));
                    }
                    let (path, fragment) = split_reference(reference.as_str());
                    proof {
                        reveal_strlit("");
                    }
                    let target: String = if str_eq(path.as_str(), "") {
                        proof {
                            assert(path@.len() == 0);
                        }
                        doc.clone()
                    } else {
                        proof {
                            if path@.len() == 0 {
                                assert(path@ =~= ""@);
                            }
                        }
                        match locate(env, &Some(doc.clone()), path.as_str()) {
                            Ok(p) => p,
                            Err(e) => return Err(e),
                        }
                    };
                    let mut identity = target.clone();
                    string_push(&mut identity, '#');
                    let identity = concat_str(identity.as_str(), fragment.as_str());
                    assert(identity@ =~= target@ + seq!['#'] + fragment@);
                    if contains_text(stack, &identity) {
                        return Err(ResolveStop::Failed(ResourceValidationError::Reference));
                    }
                    let document = match load(env, limits, state, &target) {
                        Ok(d) => d,
                        Err(e) => return Err(e),
                    };
                    let t = match resolve_fragment(&document, fragment.as_str()) {
                        Some(t) => t,
                        None => return Err(ResolveStop::Failed(ResourceValidationError::Reference)),
                    };
                    if depth == usize::MAX {
                        proof {
                            let inner_stack = strings_view(stack@).push(identity@);
                            assert(resolve_value(env@, *limits, state@, t@, target@, (depth + 1) as nat, inner_stack).1
                                == Err::<JsonView, StopView>(StopView::Failed(ResourceValidationError::Reference)));
                        }
                        return Err(ResolveStop::Failed(ResourceValidationError::Reference));
                    }
                    let mut inner = crate::shell::clone_strings_from(stack, 0);
                    let ghost inner_before = inner@;
                    inner.push(identity);
                    proof {
                        assert(strings_view(stack@).skip(0) =~= strings_view(stack@));
                        assert(strings_view(inner@) =~= strings_view(inner_before).push(identity@));
                    }
                    let resolved = match resolve_value_exec(env, limits, state, t, &target, depth + 1, &inner) {
                        Ok(r) => r,
                        Err(e) => return Err(e),
                    };
                    let siblings = match resolve_members_exec(env, limits, state, members, doc, depth, stack, true) {
                        Ok(s) => s,
                        Err(e) => return Err(e),
                    };
                    if siblings.len() == 0 {
                        proof {
                            lemma_members_view(siblings@);
                        }
                        Ok(resolved)
                    } else {
                        let mut branches: Vec<JsonValue> = Vec::new();
                        branches.push(resolved);
                        branches.push(JsonValue::Object(siblings));
                        let mut combined: Vec<JsonMember> = Vec::new();
                        combined.push(JsonMember { key: "allOf".to_owned(), value: JsonValue::Array(branches) });
                        proof {
                            lemma_members_view(siblings@);
                            lemma_items_view(branches@);
                            lemma_members_view(combined@);
                        }
                        let result = JsonValue::Object(combined);
                        assert(json_items_view(branches@) =~= seq![branches@[0]@, branches@[1]@]);
                        assert(json_members_view(combined@) =~= seq![("allOf"@, combined@[0].value@)]);
                        Ok(result)
                    }
                },
                Some(_) => Err(ResolveStop::Failed(ResourceValidationError::Schema)),
            }
        },
        JsonValue::Array(items) => {
            proof {
                assert(decreases_to!(*v => v->Array_0));
            }
            match resolve_items_exec(env, limits, state, items, doc, depth, stack) {
                Ok(xs) => Ok(JsonValue::Array(xs)),
                Err(e) => Err(e),
            }
        },
        _ => Ok(clone_json(v)),
    }
}

// ----------------------------------------------------------------------
// Actions and packages.
// ----------------------------------------------------------------------

/// What the schema check reads of one manifest action: its tool id, its
/// input and output schema files, its argv bindings and the arguments of
/// its examples.
pub struct ActionSchemaFiles {
    pub tool_id: String,
    pub input_schema_file: Option<String>,
    pub output_schema_file: Option<String>,
    pub argv: Vec<ArgvBinding>,
    pub examples: Vec<JsonValue>,
}

pub struct ActionFilesView {
    pub tool_id: Seq<char>,
    pub input_schema_file: Option<Seq<char>>,
    pub output_schema_file: Option<Seq<char>>,
    pub argv: Seq<ArgvBinding>,
    pub examples: Seq<JsonView>,
}

impl View for ActionSchemaFiles {
    type V = ActionFilesView;

    open spec fn view(&self) -> ActionFilesView {
        ActionFilesView {
            tool_id: self.tool_id@,
            input_schema_file: opt_text(self.input_schema_file),
            output_schema_file: opt_text(self.output_schema_file),
            argv: self.argv@,
            examples: json_items_view(self.examples@),
        }
    }
}

/// The resolved input and output schemas of one action.
pub struct ResolvedActionSchemas {
    pub input: Option<JsonValue>,
    pub output: Option<JsonValue>,
}

pub open spec fn opt_json(v: Option<JsonValue>) -> Option<JsonView> {
    match v {
        Some(j) => Some(j@),
        None => None,
    }
}

/// One schema file of an action, named relative to the package root:
/// located, loaded, checked at its root, resolved, and compiled.
pub open spec fn resolve_file(env: SourcesView, limits: SchemaLimits, st: StateView, path: Seq<char>, input: bool) -> (StateView, Result<JsonView, StopView>) {
    match locate_step(env, None, path) {
        Err(s) => (st, Err(s)),
        Ok(final_path) => {
            let (st1, loaded) = load_step(env, limits, st, final_path);
            match loaded {
                Err(s) => (st1, Err(s)),
                Ok(root) => if !(schema_root_ok(root, input) && !has_forbidden_keyword(root)) {
                    (st1, Err(StopView::Failed(ResourceValidationError::Schema)))
                } else {
                    let (st2, r) = resolve_value(env, limits, st1, root, final_path, 0, Seq::empty());
                    match r {
                        Err(s) => (st2, Err(s)),
                        Ok(resolved) => if schema_compiles(resolved) {
                            (st2, Ok(resolved))
                        } else {
                            (st2, Err(StopView::Failed(ResourceValidationError::Schema)))
                        },
                    }
                },
            }
        },
    }
}

/// Bytes of a resolved schema as compact JSON text.
pub open spec fn resolved_bytes(v: Option<JsonView>) -> nat {
    match v {
        Some(x) => byte_len(json_text(x)),
        None => 0,
    }
}

/// An action's schemas: its input schema, then its output schema, whose
/// compact texts together stay within the action limit; then its argv
/// bindings are checked against the input schema.
#[verifier::opaque]
pub open spec fn action_resolution(env: SourcesView, limits: SchemaLimits, st: StateView, a: ActionFilesView)
    -> (StateView, Result<(Option<JsonView>, Option<JsonView>), StopView>)
{
    let (st1, input) = match a.input_schema_file {
        None => (st, Ok(None)),
        Some(p) => {
            let (s1, r) = resolve_file(env, limits, st, p, true);
            (s1, match r {
                Ok(x) => Ok(Some(x)),
                Err(e) => Err(e),
            })
        },
    };
    match input {
        Err(s) => (st1, Err(s)),
        Ok(inp) => if resolved_bytes(inp) > limits.action_resolved_bytes {
            (st1, Err(StopView::Failed(ResourceValidationError::ActionSize)))
        } else {
            let (st2, output) = match a.output_schema_file {
                None => (st1, Ok(None)),
                Some(p) => {
                    let (s2, r) = resolve_file(env, limits, st1, p, false);
                    (s2, match r {
                        Ok(x) => Ok(Some(x)),
                        Err(e) => Err(e),
                    })
                },
            };
            match output {
                Err(s) => (st2, Err(s)),
                Ok(out) => if resolved_bytes(inp) + resolved_bytes(out) > limits.action_resolved_bytes {
                    (st2, Err(StopView::Failed(ResourceValidationError::ActionSize)))
                } else {
                    match inp {
                        Some(i) => if bindings_ok(a.argv, i) {
                            (st2, Ok((inp, out)))
                        } else {
                            (st2, Err(StopView::Failed(ResourceValidationError::Schema)))
                        },
                        None => (st2, Ok((inp, out))),
                    }
                },
            }
        },
    }
}

/// Every example of an action satisfies its input schema once defaults
/// are applied.
pub open spec fn examples_ok(input: Option<JsonView>, examples: Seq<JsonView>) -> bool {
    match input {
        Some(i) => forall|k: int| 0 <= k < examples.len() ==> (#[trigger] normalized_arguments(i, examples[k])) is Some,
        None => true,
    }
}

/// The schemas of a package's actions, in order, each paired with its tool
/// id.
pub open spec fn manifest_resolution(env: SourcesView, limits: SchemaLimits, st: StateView, actions: Seq<ActionFilesView>)
    -> (StateView, Result<Seq<(Seq<char>, (Option<JsonView>, Option<JsonView>))>, StopView>)
    decreases actions.len(),
{
    if actions.len() == 0 {
        (st, Ok(Seq::empty()))
    } else {
        let (st1, prev) = manifest_resolution(env, limits, st, actions.drop_last());
        match prev {
            Err(s) => (st1, Err(s)),
            Ok(done) => {
                let a = actions.last();
                let (st2, r) = action_resolution(env, limits, st1, a);
                match r {
                    Err(s) => (st2, Err(s)),
                    Ok((inp, out)) => if examples_ok(inp, a.examples) {
                        (st2, Ok(done.push((a.tool_id, (inp, out)))))
                    } else {
                        (st2, Err(StopView::Failed(ResourceValidationError::Schema)))
                    },
                }
            },
        }
    }
}

fn resolve_file_exec(env: &SchemaSources, limits: &SchemaLimits, state: &mut ResolverState, path: &String, input: bool)
    -> (result: Result<JsonValue, ResolveStop>)
    ensures
        outcome_view(result) == resolve_file(env@, *limits, old(state)@, path@, input).1,
        result is Ok ==> final(state)@ == resolve_file(env@, *limits, old(state)@, path@, input).0,
{
    let final_path = match locate(env, &None, path.as_str()) {
        Ok(p) => p,
        Err(e) => return Err(e),
    };
    let root = match load(env, limits, state, &final_path) {
        Ok(r) => r,
        Err(e) => return Err(e),
    };
    if validate_schema_root(&root, input).is_err() {
        return Err(ResolveStop::Failed(ResourceValidationError::Schema));
    }
    let empty: Vec<String> = Vec::new();
    assert(strings_view(empty@) =~= Seq::<Seq<char>>::empty());
    let resolved = match resolve_value_exec(env, limits, state, &root, &final_path, 0, &empty) {
        Ok(r) => r,
        Err(e) => return Err(e),
    };
    if check_schema_compiles(&resolved).is_err() {
        return Err(ResolveStop::Failed(ResourceValidationError::Schema));
    }
    Ok(resolved)
}

fn text_bytes(v: &JsonValue) -> (result: usize)
    ensures
        result == byte_len(json_text(v@)),
{
    let text = render_json(v);
    text.as_str().as_bytes().len()
}

fn resolve_action_exec(env: &SchemaSources, limits: &SchemaLimits, state: &mut ResolverState, action: &ActionSchemaFiles)
    -> (result: Result<ResolvedActionSchemas, ResolveStop>)
    ensures
        match (result, action_resolution(env@, *limits, old(state)@, action@).1) {
            (Ok(r), Ok((i, o))) => opt_json(r.input) == i && opt_json(r.output) == o,
            (Err(x), Err(y)) => stop_view(x) == y,
            _ => false,
        },
        result is Ok ==> final(state)@ == action_resolution(env@, *limits, old(state)@, action@).0,
{
    reveal(action_resolution);
    let input = match &action.input_schema_file {
        None => None,
        Some(p) => match resolve_file_exec(env, limits, state, p, true) {
            Ok(x) => Some(x),
            Err(e) => return Err(e),
        },
    };
    let input_bytes: usize = match &input {
        Some(x) => text_bytes(x),
        None => 0,
    };
    if input_bytes > limits.action_resolved_bytes {
        return Err(ResolveStop::Failed(ResourceValidationError::ActionSize));
    }
    let output = match &action.output_schema_file {
        None => None,
        Some(p) => match resolve_file_exec(env, limits, state, p, false) {
            Ok(x) => Some(x),
            Err(e) => return Err(e),
        },
    };
    let output_bytes: usize = match &output {
        Some(x) => text_bytes(x),
        None => 0,
    };
    if output_bytes > limits.action_resolved_bytes - input_bytes {
        return Err(ResolveStop::Failed(ResourceValidationError::ActionSize));
    }
    match &input {
        Some(i) => {
            if validate_schema_bindings(&action.argv, i).is_err() {
                return Err(ResolveStop::Failed(ResourceValidationError::Schema));
            }
        },
        None => {},
    }
    Ok(ResolvedActionSchemas { input, output })
}

fn examples_check(input: &Option<JsonValue>, examples: &Vec<JsonValue>) -> (result: bool)
    ensures
        result == examples_ok(opt_json(*input), json_items_view(examples@)),
{
    let schema = match input {
        Some(s) => s,
        None => return true,
    };
    proof {
        lemma_items_view(examples@);
    }
    let ghost ev = json_items_view(examples@);
    let mut k: usize = 0;
    while k < examples.len()
        invariant
            k <= examples@.len(),
            ev == json_items_view(examples@),
            ev.len() == examples@.len(),
            forall|j: int| 0 <= j < examples@.len() ==> #[trigger] ev[j] == json_view(examples@[j]),
            forall|j: int| 0 <= j < k ==> (#[trigger] normalized_arguments(schema@, ev[j])) is Some,
            opt_json(*input) == Some(schema@),
        decreases examples@.len() - k,
    {
        if normalize_schema_arguments(schema, &examples[k]).is_err() {
            assert(normalized_arguments(schema@, ev[k as int]) is None);
            assert(!examples_ok(opt_json(*input), json_items_view(examples@))) by {
                assert(opt_json(*input) == Some(schema@));
                assert(json_items_view(examples@)[k as int] == ev[k as int]);
            }
            return false;
        }
        k = k + 1;
    }
    assert(opt_json(*input) == Some(schema@));
    true
}

pub open spec fn actions_view(actions: Seq<ActionSchemaFiles>) -> Seq<ActionFilesView> {
    actions.map_values(|a: ActionSchemaFiles| a@)
}

/// `out` holds, in order, the tool ids and schemas that `rs` describes.
pub open spec fn resolved_match(out: Seq<(String, ResolvedActionSchemas)>, rs: Seq<(Seq<char>, (Option<JsonView>, Option<JsonView>))>) -> bool {
    &&& out.len() == rs.len()
    &&& forall|k: int| 0 <= k < rs.len() ==> #[trigger] out[k].0@ == rs[k].0 && opt_json(out[k].1.input) == rs[k].1.0
        && opt_json(out[k].1.output) == rs[k].1.1
}

/// Resolves the schemas of every action of a package under the default
/// limits (see `load_manifest_resources_with_limits`).
pub fn load_manifest_resources(actions: &Vec<ActionSchemaFiles>, sources: &SchemaSources)
    -> (result: Result<Vec<(String, ResolvedActionSchemas)>, ResolveStop>)
    ensures
        match (result, manifest_resolution(sources@, SchemaLimits { package_bytes: 4194304, action_resolved_bytes: 1048576, max_ref_depth: 64 },
            StateView { loaded: Seq::empty(), package_bytes: 0 }, actions_view(actions@)).1) {
            (Ok(r), Ok(rs)) => resolved_match(r@, rs),
            (Err(x), Err(y)) => stop_view(x) == y,
            _ => false,
        },
{
    let limits = SchemaLimits { package_bytes: 4194304, action_resolved_bytes: 1048576, max_ref_depth: 64 };
    load_manifest_resources_with_limits(actions, sources, &limits)
}

/// Resolves the schemas of every action of a package, with the answers
/// gathered so far, from a fresh start: the resolved schemas paired with
/// their tool ids, or the failure, or the next question.
#[verifier::rlimit(80)]
pub fn load_manifest_resources_with_limits(actions: &Vec<ActionSchemaFiles>, sources: &SchemaSources, limits: &SchemaLimits)
    -> (result: Result<Vec<(String, ResolvedActionSchemas)>, ResolveStop>)
    ensures
        match (result, manifest_resolution(sources@, *limits, StateView { loaded: Seq::empty(), package_bytes: 0 },
            actions_view(actions@)).1) {
            (Ok(r), Ok(rs)) => resolved_match(r@, rs),
            (Err(x), Err(y)) => stop_view(x) == y,
            _ => false,
        },
{
    let ghost av = actions_view(actions@);
    let ghost st0 = StateView { loaded: Seq::empty(), package_bytes: 0 };
    let mut state = ResolverState { loaded: Vec::new(), package_bytes: 0 };
    assert(state@ =~= st0) by {
        assert(strings_view(state.loaded@) =~= Seq::<Seq<char>>::empty());
    }
    let mut out: Vec<(String, ResolvedActionSchemas)> = Vec::new();
    let ghost mut rs: Seq<(Seq<char>, (Option<JsonView>, Option<JsonView>))> = Seq::empty();
    let mut i: usize = 0;
    assert(av.take(0) =~= Seq::<ActionFilesView>::empty());
    while i < actions.len()
        invariant
            i <= actions@.len(),
            av == actions_view(actions@),
            av.len() == actions@.len(),
            st0 == (StateView { loaded: Seq::<Seq<char>>::empty(), package_bytes: 0 }),
            manifest_resolution(sources@, *limits, st0, av.take(i as int))
                == (state@, Ok::<Seq<(Seq<char>, (Option<JsonView>, Option<JsonView>))>, StopView>(rs)),
            resolved_match(out@, rs),
        decreases actions@.len() - i,
    {
        let ghost t = av.take(i + 1);
        assert(t.drop_last() =~= av.take(i as int));
        assert(t.last() == actions@[i as int]@);
        let ghost st_before = state@;
        let action = &actions[i];
        let schemas = match resolve_action_exec(sources, limits, &mut state, action) {
            Ok(s) => s,
            Err(e) => {
                proof {
                    assert(action_resolution(sources@, *limits, st_before, t.last()).1
                        == Err::<(Option<JsonView>, Option<JsonView>), StopView>(stop_view(e)));
                    assert(manifest_resolution(sources@, *limits, st0, t).1
                        == Err::<Seq<(Seq<char>, (Option<JsonView>, Option<JsonView>))>, StopView>(stop_view(e)));
                    lemma_manifest_error_stays(sources@, *limits, st0, av, i + 1, av.len() as int);
                    assert(av.take(av.len() as int) =~= av);
                    assert(manifest_resolution(sources@, *limits, st0, av).1
                        == Err::<Seq<(Seq<char>, (Option<JsonView>, Option<JsonView>))>, StopView>(stop_view(e)));
                }
                return Err(e);
            },
        };
        if !examples_check(&schemas.input, &action.examples) {
            proof {
                assert(manifest_resolution(sources@, *limits, st0, t).1
                    == Err::<Seq<(Seq<char>, (Option<JsonView>, Option<JsonView>))>, StopView>(StopView::Failed(ResourceValidationError::Schema)));
                lemma_manifest_error_stays(sources@, *limits, st0, av, i + 1, av.len() as int);
                assert(av.take(av.len() as int) =~= av);
            }
            return Err(ResolveStop::Failed(ResourceValidationError::Schema));
        }
        let ghost entry = (action@.tool_id, (opt_json(schemas.input), opt_json(schemas.output)));
        let ghost old_out = out@;
        let id = action.tool_id.clone();
        let ghost pushed = (id, schemas);
        out.push((id, schemas));
        assert(out@ == old_out.push(pushed));
        proof {
            let next = rs.push(entry);
            assert(manifest_resolution(sources@, *limits, st0, t) == (state@, Ok::<Seq<(Seq<char>, (Option<JsonView>, Option<JsonView>))>, StopView>(next)));
            assert forall|k: int| 0 <= k < next.len() implies #[trigger] out@[k].0@ == next[k].0
                && opt_json(out@[k].1.input) == next[k].1.0 && opt_json(out@[k].1.output) == next[k].1.1 by {
                if k < rs.len() {
                    assert(out@[k] == old_out[k]);
                } else {
                    assert(out@[k] == pushed);
                }
            }
            rs = next;
        }
        i = i + 1;
    }
    assert(av.take(av.len() as int) =~= av);
    Ok(out)
}

proof fn lemma_manifest_error_stays(env: SourcesView, limits: SchemaLimits, st: StateView, actions: Seq<ActionFilesView>, k: int, n: int)
    requires
        0 <= k <= n <= actions.len(),
        manifest_resolution(env, limits, st, actions.take(k)).1 is Err,
    ensures
        manifest_resolution(env, limits, st, actions.take(n)).1 == manifest_resolution(env, limits, st, actions.take(k)).1,
    decreases n - k,
{
    if n > k {
        lemma_manifest_error_stays(env, limits, st, actions, k, n - 1);
        assert(actions.take(n).drop_last() =~= actions.take(n - 1));
    }
}

// ----------------------------------------------------------------------
// What resolution guarantees.
// ----------------------------------------------------------------------

/// Whether `v` holds, at any depth, an object with a `$ref` member.
pub open spec fn mentions_ref(v: JsonView) -> bool
    decreases v,
{
    match v {
        JsonView::Object(m) => member_lookup(m, "$ref"@) is Some || members_mention_ref(m),
        JsonView::Array(items) => items_mention_ref(items),
        _ => false,
    }
}

pub open spec fn members_mention_ref(m: Seq<(Seq<char>, JsonView)>) -> bool
    decreases m,
{
    if m.len() == 0 {
        false
    } else {
        proof {
            assert(decreases_to!(m => m[m.len() - 1]));
        }
        members_mention_ref(m.drop_last()) || mentions_ref(m.last().1)
    }
}

pub open spec fn items_mention_ref(items: Seq<JsonView>) -> bool
    decreases items,
{
    if items.len() == 0 {
        false
    } else {
        items_mention_ref(items.drop_last()) || mentions_ref(items.last())
    }
}

/// The resolver's bookkeeping is sound: no file is counted twice and the
/// package's schema bytes stay within the limit.
pub open spec fn resolver_state_ok(limits: SchemaLimits, st: StateView) -> bool {
    st.loaded.no_duplicates() && st.package_bytes <= limits.package_bytes
}

proof fn lemma_lookup_none(m: Seq<(Seq<char>, JsonView)>, name: Seq<char>)
    ensures
        member_lookup(m, name) is None ==> forall|j: int| 0 <= j < m.len() ==> m[j].0 != name,
    decreases m.len(),
{
    if m.len() > 0 {
        lemma_lookup_none(m.drop_first(), name);
        assert forall|j: int| 1 <= j < m.len() implies m[j] == m.drop_first()[j - 1] by {}
    }
}

proof fn lemma_load_keeps_state(env: SourcesView, limits: SchemaLimits, st: StateView, path: Seq<char>)
    requires
        resolver_state_ok(limits, st),
    ensures
        resolver_state_ok(limits, load_step(env, limits, st, path).0),
{
    let next = load_step(env, limits, st, path).0;
    if next != st {
        let l2 = st.loaded.push(path);
        assert(!st.loaded.contains(path));
        assert forall|a: int, b: int| 0 <= a < l2.len() && 0 <= b < l2.len() && a != b implies l2[a] != l2[b] by {
            if a == st.loaded.len() {
                assert(l2[b] == st.loaded[b]);
            } else if b == st.loaded.len() {
                assert(l2[a] == st.loaded[a]);
            } else {
                assert(l2[a] == st.loaded[a] && l2[b] == st.loaded[b]);
            }
        }
    }
}

proof fn lemma_value_facts(
    env: SourcesView,
    limits: SchemaLimits,
    st: StateView,
    v: JsonView,
    doc: Seq<char>,
    depth: nat,
    stack: Seq<Seq<char>>,
)
    requires
        resolver_state_ok(limits, st),
    ensures
        resolver_state_ok(limits, resolve_value(env, limits, st, v, doc, depth, stack).0),
        resolve_value(env, limits, st, v, doc, depth, stack).1 matches Ok(r) ==> !mentions_ref(r),
    decreases ref_fuel(limits, depth), v, 1int,
{
    if depth <= limits.max_ref_depth && !has_forbidden_keyword(v) {
        match v {
            JsonView::Object(m) => match member_lookup(m, "$ref"@) {
                None => {
                    lemma_members_facts(env, limits, st, m, doc, depth, stack, false);
                    let (st1, r) = resolve_members(env, limits, st, m, doc, depth, stack, false);
                    if let Ok(ms) = r {
                        lemma_no_member(ms, "$ref"@);
                    }
                },
                Some(JsonView::Str(reference)) => {
                    if !is_remote(reference) {
                        let path = ref_path(reference);
                        let fragment = ref_fragment(reference);
                        let located = if path.len() == 0 { Ok(doc) } else { locate_step(env, Some(doc), path) };
                        if let Ok(target) = located {
                            let identity = target + seq!['#'] + fragment;
                            if !stack.contains(identity) {
                                lemma_load_keeps_state(env, limits, st, target);
                                let (st1, loaded) = load_step(env, limits, st, target);
                                if let Ok(document) = loaded {
                                    if let Some(t) = fragment_target(document, fragment) {
                                        lemma_value_facts(env, limits, st1, t, target, depth + 1, stack.push(identity));
                                        let (st2, rt) = resolve_value(env, limits, st1, t, target, depth + 1, stack.push(identity));
                                        if rt is Ok {
                                            lemma_members_facts(env, limits, st2, m, doc, depth, stack, true);
                                            let (st3, sib) = resolve_members(env, limits, st2, m, doc, depth, stack, true);
                                            if let Ok(sm) = sib {
                                                if sm.len() != 0 {
                                                    let x = rt->Ok_0;
                                                    let arr = seq![x, JsonView::Object(sm)];
                                                    let outer = seq![("allOf"@, JsonView::Array(arr))];
                                                    lemma_no_member(sm, "$ref"@);
                                                    reveal_strlit("allOf");
                                                    reveal_strlit("$ref");
                                                    assert("allOf"@.len() != "$ref"@.len());
                                                    assert(outer[0].0 != "$ref"@);
                                                    lemma_no_member(outer, "$ref"@);
                                                    assert(!mentions_ref(x));
                                                    assert(!mentions_ref(JsonView::Object(sm)));
                                                    assert(!items_mention_ref(Seq::<JsonView>::empty()));
                                                    assert(!members_mention_ref(Seq::<(Seq<char>, JsonView)>::empty()));
                                                    assert(seq![x].drop_last() =~= Seq::<JsonView>::empty());
                                                    assert(seq![x].last() == x);
                                                    assert(!items_mention_ref(seq![x]));
                                                    assert(arr.drop_last() =~= seq![x]);
                                                    assert(arr.last() == JsonView::Object(sm));
                                                    assert(!items_mention_ref(arr));
                                                    assert(!mentions_ref(JsonView::Array(arr)));
                                                    assert(outer.drop_last() =~= Seq::<(Seq<char>, JsonView)>::empty());
                                                    assert(outer.last().1 == JsonView::Array(arr));
                                                    assert(!members_mention_ref(outer));
                                                }
                                            }
                                        }
                                    }
                                }
                            }
                        }
                    }
                },
                Some(_) => {},
            },
            JsonView::Array(items) => {
                lemma_items_facts(env, limits, st, items, doc, depth, stack);
            },
            _ => {},
        }
    }
}

proof fn lemma_members_facts(
    env: SourcesView,
    limits: SchemaLimits,
    st: StateView,
    m: Seq<(Seq<char>, JsonView)>,
    doc: Seq<char>,
    depth: nat,
    stack: Seq<Seq<char>>,
    skip_ref: bool,
)
    requires
        resolver_state_ok(limits, st),
    ensures
        resolver_state_ok(limits, resolve_members(env, limits, st, m, doc, depth, stack, skip_ref).0),
        resolve_members(env, limits, st, m, doc, depth, stack, skip_ref).1 matches Ok(ms) ==> {
            &&& !members_mention_ref(ms)
            &&& (skip_ref || member_lookup(m, "$ref"@) is None) ==> forall|j: int| 0 <= j < ms.len() ==> ms[j].0 != "$ref"@
        },
    decreases ref_fuel(limits, depth), m, 0int,
{
    if m.len() > 0 {
        lemma_members_facts(env, limits, st, m.drop_last(), doc, depth, stack, skip_ref);
        lemma_lookup_none(m, "$ref"@);
        lemma_lookup_none(m.drop_last(), "$ref"@);
        if member_lookup(m, "$ref"@) is None {
            assert forall|j: int| 0 <= j < m.drop_last().len() implies m.drop_last()[j].0 != "$ref"@ by {
                assert(m.drop_last()[j] == m[j]);
            }
            lemma_no_member(m.drop_last(), "$ref"@);
        }
        let (st1, r) = resolve_members(env, limits, st, m.drop_last(), doc, depth, stack, skip_ref);
        if let Ok(prev) = r {
            if !(skip_ref && m.last().0 == "$ref"@) {
                assert(decreases_to!(m => m[m.len() - 1]));
                lemma_value_facts(env, limits, st1, m.last().1, doc, depth, stack);
                let (st2, c) = resolve_value(env, limits, st1, m.last().1, doc, depth, stack);
                if let Ok(x) = c {
                    let ms = prev.push((m.last().0, x));
                    assert(ms.drop_last() =~= prev);
                    if skip_ref || member_lookup(m, "$ref"@) is None {
                        assert(m.last() == m[m.len() - 1]);
                        assert forall|j: int| 0 <= j < ms.len() implies ms[j].0 != "$ref"@ by {
                            if j < prev.len() {
                                assert(ms[j] == prev[j]);
                            }
                        }
                    }
                }
            }
        }
    }
}

proof fn lemma_items_facts(
    env: SourcesView,
    limits: SchemaLimits,
    st: StateView,
    items: Seq<JsonView>,
    doc: Seq<char>,
    depth: nat,
    stack: Seq<Seq<char>>,
)
    requires
        resolver_state_ok(limits, st),
    ensures
        resolver_state_ok(limits, resolve_items(env, limits, st, items, doc, depth, stack).0),
        resolve_items(env, limits, st, items, doc, depth, stack).1 matches Ok(xs) ==> !items_mention_ref(xs),
    decreases ref_fuel(limits, depth), items, 0int,
{
    if items.len() > 0 {
        lemma_items_facts(env, limits, st, items.drop_last(), doc, depth, stack);
        let (st1, r) = resolve_items(env, limits, st, items.drop_last(), doc, depth, stack);
        if let Ok(prev) = r {
            lemma_value_facts(env, limits, st1, items.last(), doc, depth, stack);
            let (st2, c) = resolve_value(env, limits, st1, items.last(), doc, depth, stack);
            if let Ok(x) = c {
                assert(prev.push(x).drop_last() =~= prev);
            }
        }
    }
}

/// Resolution inlines every reference: a schema value that resolves holds
/// no `$ref` member at any depth.  Resolution also keeps its bookkeeping
/// sound: no schema file is counted twice and the package's schema bytes
/// never pass the limit.
pub proof fn law_resolved_schemas_hold_no_references(
    env: SourcesView,
    limits: SchemaLimits,
    st: StateView,
    v: JsonView,
    doc: Seq<char>,
    depth: nat,
    stack: Seq<Seq<char>>,
)
    requires
        resolver_state_ok(limits, st),
    ensures
        resolve_value(env, limits, st, v, doc, depth, stack).1 matches Ok(r) ==> !mentions_ref(r),
        resolver_state_ok(limits, resolve_value(env, limits, st, v, doc, depth, stack).0),
{
    lemma_value_facts(env, limits, st, v, doc, depth, stack);
}

/// References stay local, acyclic and bounded: a reference that names a
/// remote or absolute resource, one whose target is already being resolved
/// (a cycle), and anything past the depth limit are refused.
pub proof fn law_references_are_local_acyclic_and_bounded(
    env: SourcesView,
    limits: SchemaLimits,
    st: StateView,
    m: Seq<(Seq<char>, JsonView)>,
    reference: Seq<char>,
    doc: Seq<char>,
    depth: nat,
    stack: Seq<Seq<char>>,
)
    requires
        member_lookup(m, "$ref"@) == Some(JsonView::Str(reference)),
    ensures
        ({
            let r = resolve_value(env, limits, st, JsonView::Object(m), doc, depth, stack).1;
            &&& depth > limits.max_ref_depth ==> r == Err::<JsonView, StopView>(StopView::Failed(ResourceValidationError::Reference))
            &&& (!has_forbidden_keyword(JsonView::Object(m)) && is_remote(reference))
                ==> r == Err::<JsonView, StopView>(StopView::Failed(ResourceValidationError::Reference))
            &&& (depth <= limits.max_ref_depth && !has_forbidden_keyword(JsonView::Object(m)) && !is_remote(reference)
                && ref_path(reference).len() == 0 && stack.contains(doc + seq!['#'] + ref_fragment(reference)))
                ==> r == Err::<JsonView, StopView>(StopView::Failed(ResourceValidationError::Reference))
        }),
{
}

} // verus!
