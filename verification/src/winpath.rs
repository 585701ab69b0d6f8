//! Lexical Windows path handling: prefixes, roots and components as
//! `std::path` reads them on Windows, the platform the hooks run on.
//!
//! Separators are `\` and `/`.  A prefix is a drive (`C:`, compared without
//! regard to letter case) or a `\\server\share` pair; verbatim and device
//! prefixes (`\\?\`, `\\.\`) are read in the same server/share shape.
//! Empty and `.` components are dropped.
use vstd::prelude::*;


verus! {

pub open spec fn is_sep(c: char) -> bool {
    c == '/' || c == '\\'
}

pub open spec fn is_ascii_alpha(c: char) -> bool {
    ('a' <= c && c <= 'z') || ('A' <= c && c <= 'Z')
}

pub open spec fn upper_char(c: char) -> char {
    if 'a' <= c && c <= 'z' { ((c as u32) - 32) as char } else { c }
}

/// Adds a finished component, dropping empty and `.` components.
pub open spec fn flush_part(parts: Seq<Seq<char>>, cur: Seq<char>) -> Seq<Seq<char>> {
    if cur.len() == 0 || cur == seq!['.'] { parts } else { parts.push(cur) }
}

pub open spec fn split_scan(s: Seq<char>) -> (Seq<Seq<char>>, Seq<char>)
    decreases s.len(),
{
    if s.len() == 0 {
        (Seq::empty(), Seq::empty())
    } else {
        let (parts, cur) = split_scan(s.drop_last());
        if is_sep(s.last()) { (flush_part(parts, cur), Seq::empty()) } else { (parts, cur.push(s.last())) }
    }
}

/// The components of `s`, split at separators.
pub open spec fn split_path(s: Seq<char>) -> Seq<Seq<char>> {
    flush_part(split_scan(s).0, split_scan(s).1)
}

/// Index of the first separator of `s`, or its length.
pub open spec fn first_sep(s: Seq<char>) -> nat
    decreases s.len(),
{
    if s.len() == 0 {
        0
    } else if is_sep(s[0]) {
        0
    } else {
        1 + first_sep(s.drop_first())
    }
}

pub enum PrefixView {
    Disk(char),
    Unc(Seq<char>, Seq<char>),
}

/// A path as its components: prefix, whether it has a root separator after
/// the prefix, and the remaining components (`..` kept as a component).
pub struct PathView {
    pub prefix: Option<PrefixView>,
    pub root: bool,
    pub parts: Seq<Seq<char>>,
}

pub open spec fn has_drive(s: Seq<char>) -> bool {
    s.len() >= 2 && is_ascii_alpha(s[0]) && s[1] == ':'
}

pub open spec fn has_unc(s: Seq<char>) -> bool {
    s.len() >= 2 && s[0] == '\\' && s[1] == '\\'
}

pub open spec fn unc_server(s: Seq<char>) -> Seq<char> {
    let t = s.skip(2);
    t.take(first_sep(t) as int)
}

pub open spec fn unc_after_server(s: Seq<char>) -> Seq<char> {
    let t = s.skip(2);
    let i = first_sep(t);
    if i < t.len() { t.skip((i + 1) as int) } else { Seq::empty() }
}

pub open spec fn unc_share(s: Seq<char>) -> Seq<char> {
    let t = unc_after_server(s);
    t.take(first_sep(t) as int)
}

pub open spec fn unc_rest(s: Seq<char>) -> Seq<char> {
    let t = unc_after_server(s);
    t.skip(first_sep(t) as int)
}

pub open spec fn parse_path(s: Seq<char>) -> PathView {
    if has_drive(s) {
        let rest = s.skip(2);
        PathView {
            prefix: Some(PrefixView::Disk(upper_char(s[0]))),
            root: rest.len() > 0 && is_sep(rest[0]),
            parts: split_path(rest),
        }
    } else if has_unc(s) {
        let rest = unc_rest(s);
        PathView {
            prefix: Some(PrefixView::Unc(unc_server(s), unc_share(s))),
            root: rest.len() > 0 && is_sep(rest[0]),
            parts: split_path(rest),
        }
    } else {
        PathView { prefix: None, root: s.len() > 0 && is_sep(s[0]), parts: split_path(s) }
    }
}

/// `Path::is_absolute` on Windows.
pub open spec fn is_absolute(p: PathView) -> bool {
    match p.prefix {
        Some(PrefixView::Disk(_)) => p.root,
        Some(PrefixView::Unc(_, _)) => true,
        None => false,
    }
}

/// `base.join(raw)`.
pub open spec fn join_path(base: PathView, raw: PathView) -> PathView {
    if raw.prefix is Some {
        raw
    } else if raw.root {
        PathView { prefix: base.prefix, root: true, parts: raw.parts }
    } else {
        PathView { prefix: base.prefix, root: base.root, parts: base.parts + raw.parts }
    }
}

pub open spec fn normalize_parts(parts: Seq<Seq<char>>) -> Option<Seq<Seq<char>>>
    decreases parts.len(),
{
    if parts.len() == 0 {
        Some(Seq::empty())
    } else {
        match normalize_parts(parts.drop_last()) {
            None => None,
            Some(acc) => if parts.last() == seq!['.', '.'] {
                if acc.len() == 0 { None } else { Some(acc.drop_last()) }
            } else {
                Some(acc.push(parts.last()))
            },
        }
    }
}

/// Lexical normalization: `..` removes the previous component and fails
/// when there is none.
pub open spec fn normalize_path(p: PathView) -> Option<PathView> {
    match normalize_parts(p.parts) {
        None => None,
        Some(parts) => Some(PathView { parts, ..p }),
    }
}

/// `Path::starts_with`, component-wise.
pub open spec fn path_starts_with(p: PathView, base: PathView) -> bool {
    p.prefix == base.prefix && p.root == base.root && base.parts.len() <= p.parts.len()
        && p.parts.take(base.parts.len() as int) == base.parts
}

/// Index of the last `.` of `s`, if any.
pub open spec fn last_dot(s: Seq<char>) -> int
    decreases s.len(),
{
    if s.len() == 0 {
        -1
    } else if s.last() == '.' {
        s.len() - 1
    } else {
        last_dot(s.drop_last())
    }
}

/// `Path::file_stem` of a file name.
pub open spec fn stem_of(name: Seq<char>) -> Seq<char> {
    let d = last_dot(name);
    if d <= 0 { name } else { name.take(d) }
}

// ----------------------------------------------------------------------
// Executable counterparts.
// ----------------------------------------------------------------------

pub enum WinPrefix {
    Disk(char),
    Unc(Vec<char>, Vec<char>),
}

pub struct WinPath {
    pub prefix: Option<WinPrefix>,
    pub root: bool,
    pub parts: Vec<Vec<char>>,
}

pub open spec fn parts_view(parts: Seq<Vec<char>>) -> Seq<Seq<char>> {
    parts.map_values(|p: Vec<char>| p@)
}

pub open spec fn prefix_view(p: Option<WinPrefix>) -> Option<PrefixView> {
    match p {
        Some(WinPrefix::Disk(c)) => Some(PrefixView::Disk(c)),
        Some(WinPrefix::Unc(a, b)) => Some(PrefixView::Unc(a@, b@)),
        None => None,
    }
}

impl View for WinPath {
    type V = PathView;

    open spec fn view(&self) -> PathView {
        PathView {
            prefix: prefix_view(self.prefix),
            root: self.root,
            parts: parts_view(self.parts@),
        }
    }
}

pub fn is_separator(c: char) -> (result: bool)
    ensures
        result == is_sep(c),
{
    c == '/' || c == '\\'
}

fn to_upper_char(c: char) -> (result: char)
    ensures
        result == upper_char(c),
{
    if 'a' <= c && c <= 'z' {
        let u: u32 = (c as u32) - 32;
        let b: u8 = u as u8;
        let r = b as char;
        assert(r as u32 == u);
        proof {
            vstd::utf8::char_u32_cast(r, u);
        }
        r
    } else {
        c
    }
}

fn is_two_dots(p: &Vec<char>) -> (result: bool)
    ensures
        result == (p@ == seq!['.', '.']),
{
    let r = p.len() == 2 && p[0] == '.' && p[1] == '.';
    proof {
        if r {
            assert(p@ =~= seq!['.', '.']);
        }
    }
    r
}

fn slice_vec(s: &[char], from: usize, to: usize) -> (result: Vec<char>)
    requires
        from <= to <= s@.len(),
    ensures
        result@ == s@.subrange(from as int, to as int),
{
    let mut out: Vec<char> = Vec::new();
    let mut i: usize = from;
    while i < to
        invariant
            from <= i <= to,
            to <= s@.len(),
            out@ == s@.subrange(from as int, i as int),
        decreases to - i,
    {
        out.push(s[i]);
        assert(s@.subrange(from as int, i + 1) =~= s@.subrange(from as int, i as int).push(s@[i as int]));
        i = i + 1;
    }
    out
}

proof fn lemma_first_sep(s: Seq<char>, i: int)
    requires
        0 <= i <= s.len(),
        forall|j: int| 0 <= j < i ==> !is_sep(#[trigger] s[j]),
        i == s.len() || is_sep(s[i]),
    ensures
        first_sep(s) == i,
    decreases i,
{
    if i > 0 {
        assert forall|j: int| 0 <= j < i - 1 implies !is_sep(#[trigger] s.drop_first()[j]) by {
            assert(s.drop_first()[j] == s[j + 1]);
        }
        lemma_first_sep(s.drop_first(), i - 1);
    }
}

/// Index, from `from`, of the first separator in `s[from..]`, or `s.len()`.
fn find_sep(s: &[char], from: usize) -> (result: usize)
    requires
        from <= s@.len(),
    ensures
        from <= result <= s@.len(),
        result - from == first_sep(s@.skip(from as int)),
{
    let mut i: usize = from;
    while i < s.len() && !is_separator(s[i])
        invariant
            from <= i <= s@.len(),
            forall|j: int| from <= j < i ==> !is_sep(#[trigger] s@[j]),
        decreases s@.len() - i,
    {
        i = i + 1;
    }
    proof {
        let t = s@.skip(from as int);
        assert forall|j: int| 0 <= j < i - from implies !is_sep(#[trigger] t[j]) by {
            assert(t[j] == s@[from + j]);
        }
        if i < s@.len() {
            assert(t[i - from] == s@[i as int]);
        }
        lemma_first_sep(t, i - from);
    }
    i
}

/// The components of `s[from..]`.
fn split_components(s: &[char], from: usize) -> (result: Vec<Vec<char>>)
    requires
        from <= s@.len(),
    ensures
        parts_view(result@) == split_path(s@.skip(from as int)),
{
    let ghost t = s@.skip(from as int);
    let mut parts: Vec<Vec<char>> = Vec::new();
    let mut cur: Vec<char> = Vec::new();
    let mut i: usize = from;
    while i < s.len()
        invariant
            from <= i <= s@.len(),
            t == s@.skip(from as int),
            (parts_view(parts@), cur@) == split_scan(t.take(i - from)),
        decreases s@.len() - i,
    {
        let ghost prev = t.take(i - from);
        assert(t.take(i - from + 1).drop_last() =~= prev);
        assert(t.take(i - from + 1).last() == s@[i as int]);
        if is_separator(s[i]) {
            let dot = cur.len() == 1 && cur[0] == '.';
            proof {
                if dot {
                    assert(cur@ =~= seq!['.']);
                }
                if cur@ == seq!['.'] {
                    assert(cur@.len() == 1 && cur@[0] == '.');
                }
            }
            if cur.len() > 0 && !dot {
                let ghost before = parts@;
                let finished = cur;
                parts.push(finished);
                assert(parts_view(parts@) =~= parts_view(before).push(finished@));
            }
            cur = Vec::new();
        } else {
            cur.push(s[i]);
        }
        i = i + 1;
    }
    assert(t.take(s@.len() - from) =~= t);
    let dot = cur.len() == 1 && cur[0] == '.';
    proof {
        if dot {
            assert(cur@ =~= seq!['.']);
        }
        if cur@ == seq!['.'] {
            assert(cur@.len() == 1 && cur@[0] == '.');
        }
    }
    if cur.len() > 0 && !dot {
        let ghost before = parts@;
        parts.push(cur);
        assert(parts_view(parts@) =~= parts_view(before).push(cur@));
    }
    parts
}

/// Reads `s` as a Windows path.
pub fn parse_win_path(s: &[char]) -> (result: WinPath)
    ensures
        result@ == parse_path(s@),
{
    let n = s.len();
    if n >= 2 && s[1] == ':' && (('a' <= s[0] && s[0] <= 'z') || ('A' <= s[0] && s[0] <= 'Z')) {
        let root = n > 2 && is_separator(s[2]);
        let parts = split_components(s, 2);
        proof {
            if n > 2 {
                assert(s@.skip(2)[0] == s@[2]);
            }
        }
        WinPath { prefix: Some(WinPrefix::Disk(to_upper_char(s[0]))), root, parts }
    } else if n >= 2 && s[0] == '\\' && s[1] == '\\' {
        let i1 = find_sep(s, 2);
        let server = slice_vec(s, 2, i1);
        let start2 = if i1 < n { i1 + 1 } else { n };
        let i2 = find_sep(s, start2);
        let share = slice_vec(s, start2, i2);
        let root = i2 < n;
        let parts = split_components(s, i2);
        proof {
            let t = s@.skip(2);
            assert(server@ =~= t.take(first_sep(t) as int));
            let after = unc_after_server(s@);
            assert(after =~= s@.skip(start2 as int));
            assert(share@ =~= after.take(first_sep(after) as int));
            assert(unc_rest(s@) =~= s@.skip(i2 as int));
            if i2 < n {
                assert(s@.skip(i2 as int)[0] == s@[i2 as int]);
                let u = s@.skip(start2 as int);
                lemma_sep_at_first(u);
                assert(u[i2 - start2] == s@[i2 as int]);
            }
        }
        WinPath { prefix: Some(WinPrefix::Unc(server, share)), root, parts }
    } else {
        let root = n > 0 && is_separator(s[0]);
        let parts = split_components(s, 0);
        assert(s@.skip(0) =~= s@);
        WinPath { prefix: None, root, parts }
    }
}

proof fn lemma_sep_at_first(s: Seq<char>)
    ensures
        first_sep(s) <= s.len(),
        first_sep(s) < s.len() ==> is_sep(s[first_sep(s) as int]),
    decreases s.len(),
{
    if s.len() > 0 && !is_sep(s[0]) {
        lemma_sep_at_first(s.drop_first());
        if first_sep(s.drop_first()) < s.drop_first().len() {
            assert(s.drop_first()[first_sep(s.drop_first()) as int] == s[first_sep(s) as int]);
        }
    }
}

pub fn path_is_absolute(p: &WinPath) -> (result: bool)
    ensures
        result == is_absolute(p@),
{
    match &p.prefix {
        Some(WinPrefix::Disk(_)) => p.root,
        Some(WinPrefix::Unc(_, _)) => true,
        None => false,
    }
}

fn clone_chars(v: &Vec<char>) -> (result: Vec<char>)
    ensures
        result@ == v@,
{
    let mut out: Vec<char> = Vec::new();
    let mut i: usize = 0;
    while i < v.len()
        invariant
            i <= v@.len(),
            out@ == v@.take(i as int),
        decreases v@.len() - i,
    {
        out.push(v[i]);
        assert(v@.take(i + 1) =~= v@.take(i as int).push(v@[i as int]));
        i = i + 1;
    }
    assert(v@.take(v@.len() as int) =~= v@);
    out
}

fn clone_prefix(p: &Option<WinPrefix>) -> (result: Option<WinPrefix>)
    ensures
        prefix_view(result) == prefix_view(*p),
{
    match p {
        Some(WinPrefix::Disk(c)) => Some(WinPrefix::Disk(*c)),
        Some(WinPrefix::Unc(a, b)) => Some(WinPrefix::Unc(clone_chars(a), clone_chars(b))),
        None => None,
    }
}

/// `base.join(raw)`.
pub fn join_win_path(base: &WinPath, raw: WinPath) -> (result: WinPath)
    ensures
        result@ == join_path(base@, raw@),
{
    if raw.prefix.is_some() {
        raw
    } else if raw.root {
        WinPath { prefix: clone_prefix(&base.prefix), root: true, parts: raw.parts }
    } else {
        let mut parts: Vec<Vec<char>> = Vec::new();
        let mut i: usize = 0;
        while i < base.parts.len()
            invariant
                i <= base.parts@.len(),
                parts_view(parts@) == parts_view(base.parts@).take(i as int),
            decreases base.parts@.len() - i,
        {
            let ghost before = parts@;
            parts.push(clone_chars(&base.parts[i]));
            assert(parts_view(parts@) =~= parts_view(before).push(base.parts@[i as int]@));
            assert(parts_view(base.parts@).take(i + 1) =~= parts_view(base.parts@).take(i as int).push(base.parts@[i as int]@));
            i = i + 1;
        }
        let mut j: usize = 0;
        let raw_parts = raw.parts;
        while j < raw_parts.len()
            invariant
                j <= raw_parts@.len(),
                parts_view(parts@) == parts_view(base.parts@) + parts_view(raw_parts@).take(j as int),
            decreases raw_parts@.len() - j,
        {
            let ghost before = parts@;
            parts.push(clone_chars(&raw_parts[j]));
            assert(parts_view(parts@) =~= parts_view(before).push(raw_parts@[j as int]@));
            assert(parts_view(raw_parts@).take(j + 1) =~= parts_view(raw_parts@).take(j as int).push(raw_parts@[j as int]@));
            assert(parts_view(parts@) =~= parts_view(base.parts@) + parts_view(raw_parts@).take(j + 1));
            j = j + 1;
        }
        assert(parts_view(base.parts@).take(base.parts@.len() as int) =~= parts_view(base.parts@));
        assert(parts_view(raw_parts@).take(raw_parts@.len() as int) =~= parts_view(raw_parts@));
        WinPath { prefix: clone_prefix(&base.prefix), root: base.root, parts }
    }
}

/// Lexical normalization of `p`; `None` when a `..` has nothing to remove.
#[verifier::loop_isolation(false)]
pub fn lexically_normalize(p: WinPath) -> (result: Option<WinPath>)
    ensures
        match result {
            Some(r) => normalize_path(p@) == Some(r@),
            None => normalize_path(p@) is None,
        },
{
    let ghost pv = parts_view(p.parts@);
    let WinPath { prefix, root, parts } = p;
    let mut acc: Vec<Vec<char>> = Vec::new();
    let mut i: usize = 0;
    while i < parts.len()
        invariant
            i <= parts@.len(),
            pv == parts_view(parts@),
            normalize_parts(pv.take(i as int)) == Some(parts_view(acc@)),
        decreases parts@.len() - i,
    {
        assert(pv.take(i + 1).drop_last() =~= pv.take(i as int));
        if is_two_dots(&parts[i]) {
            if acc.len() == 0 {
                proof {
                    assert(pv.take(i + 1).last() == pv[i as int]);
                    assert(pv[i as int] == parts@[i as int]@);
                    lemma_normalize_none_extends(pv, i + 1);
                }
                return None;
            }
            let ghost before = acc@;
            acc.pop();
            assert(parts_view(acc@) =~= parts_view(before).drop_last());
        } else {
            let ghost before = acc@;
            acc.push(clone_chars(&parts[i]));
            assert(parts_view(acc@) =~= parts_view(before).push(pv[i as int]));
        }
        i = i + 1;
    }
    assert(pv.take(parts@.len() as int) =~= pv);
    Some(WinPath { prefix, root, parts: acc })
}

proof fn lemma_normalize_none_extends(parts: Seq<Seq<char>>, i: int)
    requires
        0 <= i <= parts.len(),
        normalize_parts(parts.take(i)) is None,
    ensures
        normalize_parts(parts) is None,
    decreases parts.len() - i,
{
    if i < parts.len() {
        assert(parts.take(i + 1).drop_last() =~= parts.take(i));
        lemma_normalize_none_extends(parts, i + 1);
    } else {
        assert(parts.take(i) =~= parts);
    }
}

fn prefix_eq(a: &Option<WinPrefix>, b: &Option<WinPrefix>) -> (result: bool)
    ensures
        result == (prefix_view(*a) == prefix_view(*b)),
{
    match (a, b) {
        (None, None) => true,
        (Some(WinPrefix::Disk(x)), Some(WinPrefix::Disk(y))) => *x == *y,
        (Some(WinPrefix::Unc(s1, t1)), Some(WinPrefix::Unc(s2, t2))) => {
            crate::text::chars_eq(s1.as_slice(), s2.as_slice()) && crate::text::chars_eq(t1.as_slice(), t2.as_slice())
        },
        _ => false,
    }
}

fn parts_prefix(p: &Vec<Vec<char>>, base: &Vec<Vec<char>>) -> (result: bool)
    ensures
        result == (base@.len() <= p@.len() && parts_view(p@).take(base@.len() as int) == parts_view(base@)),
{
    if base.len() > p.len() {
        return false;
    }
    let mut i: usize = 0;
    while i < base.len()
        invariant
            base@.len() <= p@.len(),
            i <= base@.len(),
            forall|j: int| 0 <= j < i ==> p@[j]@ == base@[j]@,
        decreases base@.len() - i,
    {
        if !crate::text::chars_eq(p[i].as_slice(), base[i].as_slice()) {
            proof {
                assert(parts_view(p@).take(base@.len() as int)[i as int] == p@[i as int]@);
            }
            return false;
        }
        i = i + 1;
    }
    assert(parts_view(p@).take(base@.len() as int) =~= parts_view(base@));
    true
}

/// `p.starts_with(base)`.
pub fn win_path_starts_with(p: &WinPath, base: &WinPath) -> (result: bool)
    ensures
        result == path_starts_with(p@, base@),
{
    prefix_eq(&p.prefix, &base.prefix) && p.root == base.root && parts_prefix(&p.parts, &base.parts)
}

/// `p == q`, component-wise.
pub fn win_path_eq(p: &WinPath, q: &WinPath) -> (result: bool)
    ensures
        result == (p@ == q@),
{
    let r = prefix_eq(&p.prefix, &q.prefix) && p.root == q.root && p.parts.len() == q.parts.len()
        && parts_prefix(&p.parts, &q.parts);
    proof {
        if p.parts@.len() == q.parts@.len() {
            assert(parts_view(p.parts@).take(q.parts@.len() as int) =~= parts_view(p.parts@));
        }
        if p@ == q@ {
            assert(parts_view(p.parts@).len() == parts_view(q.parts@).len());
        }
    }
    r
}

/// The paths to inspect, from just below `root` down to `candidate`, to
/// prove that no component below `root` is a reparse point: `root` joined
/// with each longer prefix of the components that follow it.  `None` when
/// `candidate` is not below `root` (it does not start with it).
pub open spec fn reparse_probes_spec(root: PathView, candidate: PathView) -> Option<Seq<PathView>> {
    if !path_starts_with(candidate, root) {
        None
    } else {
        let rel = candidate.parts.skip(root.parts.len() as int);
        Some(Seq::new(rel.len(), |k: int| PathView { parts: root.parts + rel.take(k + 1), ..root }))
    }
}

pub fn reparse_probe_paths(root: &WinPath, candidate: &WinPath) -> (result: Option<Vec<WinPath>>)
    ensures
        match reparse_probes_spec(root@, candidate@) {
            None => result is None,
            Some(probes) => result matches Some(r) && r@.len() == probes.len()
                && forall|k: int| 0 <= k < probes.len() ==> (#[trigger] r@[k])@ == probes[k],
        },
{
    if !win_path_starts_with(candidate, root) {
        return None;
    }
    let ghost rel = candidate@.parts.skip(root@.parts.len() as int);
    let ghost probes = Seq::new(rel.len(), |k: int| PathView { parts: root@.parts + rel.take(k + 1), ..root@ });
    let mut out: Vec<WinPath> = Vec::new();
    let mut current: Vec<Vec<char>> = Vec::new();
    let mut i: usize = 0;
    while i < root.parts.len()
        invariant
            i <= root.parts@.len(),
            parts_view(current@) == parts_view(root.parts@).take(i as int),
        decreases root.parts@.len() - i,
    {
        let ghost before = current@;
        current.push(clone_chars(&root.parts[i]));
        assert(parts_view(current@) =~= parts_view(before).push(root.parts@[i as int]@));
        assert(parts_view(root.parts@).take(i + 1) =~= parts_view(root.parts@).take(i as int).push(root.parts@[i as int]@));
        i = i + 1;
    }
    assert(parts_view(root.parts@).take(root.parts@.len() as int) =~= parts_view(root.parts@));
    let start = root.parts.len();
    let mut j: usize = start;
    while j < candidate.parts.len()
        invariant
            path_starts_with(candidate@, root@),
            start == root.parts@.len(),
            start <= j <= candidate.parts@.len(),
            rel == candidate@.parts.skip(start as int),
            parts_view(current@) == root@.parts + rel.take(j - start),
            out@.len() == j - start,
            forall|k: int| 0 <= k < out@.len() ==> (#[trigger] out@[k])@ == (PathView { parts: root@.parts + rel.take(k + 1), ..root@ }),
        decreases candidate.parts@.len() - j,
    {
        let ghost before = current@;
        current.push(clone_chars(&candidate.parts[j]));
        assert(rel[j - start] == candidate.parts@[j as int]@);
        assert(rel.take(j - start + 1) =~= rel.take(j - start).push(candidate.parts@[j as int]@));
        assert(parts_view(current@) =~= parts_view(before).push(candidate.parts@[j as int]@));
        let mut copy: Vec<Vec<char>> = Vec::new();
        let mut c: usize = 0;
        while c < current.len()
            invariant
                c <= current@.len(),
                parts_view(copy@) == parts_view(current@).take(c as int),
            decreases current@.len() - c,
        {
            let ghost b = copy@;
            copy.push(clone_chars(&current[c]));
            assert(parts_view(copy@) =~= parts_view(b).push(current@[c as int]@));
            assert(parts_view(current@).take(c + 1) =~= parts_view(current@).take(c as int).push(current@[c as int]@));
            c = c + 1;
        }
        assert(parts_view(current@).take(current@.len() as int) =~= parts_view(current@));
        let probe = WinPath { prefix: clone_prefix(&root.prefix), root: root.root, parts: copy };
        assert(probe@ == (PathView { parts: root@.parts + rel.take(j - start + 1), ..root@ }));
        out.push(probe);
        j = j + 1;
    }
    proof {
        assert forall|k: int| 0 <= k < probes.len() implies (#[trigger] out@[k])@ == probes[k] by {}
    }
    Some(out)
}

} // verus!
