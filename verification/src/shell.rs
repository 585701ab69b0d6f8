//! Screening of shell commands that a Codex tool is about to run: splitting
//! into tokens and segments, and the rules that deny force pushes,
//! destructive Git commands, unbounded recursive deletes or moves, and
//! mutation of generated runtime state.
use vstd::prelude::*;

use crate::text::{chars_of, string_from_chars, str_eq, lower_seq, lower_chars, eq_ignore_case, eq_ignore_case_str, starts_with, starts_with_str, contains_seq, contains_str, is_unicode_whitespace, is_whitespace, chars_eq};
use crate::winpath::{parse_path, parse_win_path, is_absolute, join_path, join_win_path, normalize_path, lexically_normalize, path_starts_with, win_path_starts_with, win_path_eq, path_is_absolute, stem_of, last_dot, split_scan};

verus! {

// ----------------------------------------------------------------------
// Tokens.
// ----------------------------------------------------------------------

#[derive(Clone, Copy, PartialEq, Eq, Structural)]
pub enum ScanMode {
    /// Outside quotes.
    Normal,
    /// Inside a quote opened by the given character.
    Quote(char),
    /// Inside double quotes, right after a backslash.
    Escape,
    /// Right after a separator: further separators are skipped.
    Skip,
}

/// Tokens found so far, the token being read, and the reading mode.
pub struct ScanState {
    pub tokens: Seq<Seq<char>>,
    pub current: Seq<char>,
    pub mode: ScanMode,
}

pub open spec fn is_command_separator(c: char) -> bool {
    c == ';' || c == '|' || c == '&' || c == '\n' || c == '\r'
}

pub open spec fn flush_token(tokens: Seq<Seq<char>>, current: Seq<char>) -> Seq<Seq<char>> {
    if current.len() > 0 { tokens.push(current) } else { tokens }
}

pub open spec fn normal_step(st: ScanState, c: char) -> ScanState {
    if c == '\'' || c == '"' {
        ScanState { mode: ScanMode::Quote(c), ..st }
    } else if is_command_separator(c) {
        ScanState { tokens: flush_token(st.tokens, st.current).push(seq![';']), current: Seq::empty(), mode: ScanMode::Skip }
    } else if is_unicode_whitespace(c) {
        ScanState { tokens: flush_token(st.tokens, st.current), current: Seq::empty(), mode: ScanMode::Normal }
    } else {
        ScanState { current: st.current.push(c), mode: ScanMode::Normal, ..st }
    }
}

pub open spec fn scan_step(st: ScanState, c: char) -> ScanState {
    match st.mode {
        ScanMode::Escape => ScanState { current: st.current.push(c), mode: ScanMode::Quote('"'), ..st },
        ScanMode::Quote(q) => if c == q {
            ScanState { mode: ScanMode::Normal, ..st }
        } else if c == '\\' && q == '"' {
            ScanState { mode: ScanMode::Escape, ..st }
        } else {
            ScanState { current: st.current.push(c), ..st }
        },
        ScanMode::Skip => if is_command_separator(c) {
            st
        } else {
            normal_step(ScanState { mode: ScanMode::Normal, ..st }, c)
        },
        ScanMode::Normal => normal_step(st, c),
    }
}

pub open spec fn scan(s: Seq<char>) -> ScanState
    decreases s.len(),
{
    if s.len() == 0 {
        ScanState { tokens: Seq::empty(), current: Seq::empty(), mode: ScanMode::Normal }
    } else {
        scan_step(scan(s.drop_last()), s.last())
    }
}

/// The tokens of a command line: quotes group, a backslash inside double
/// quotes escapes the next character, whitespace splits, and each run of
/// `; | & \n \r` becomes one `;` token.
pub open spec fn shell_tokens_spec(s: Seq<char>) -> Seq<Seq<char>> {
    flush_token(scan(s).tokens, scan(s).current)
}

pub open spec fn strings_view(v: Seq<String>) -> Seq<Seq<char>> {
    v.map_values(|t: String| t@)
}

fn push_token(tokens: &mut Vec<String>, current: &Vec<char>)
    ensures
        strings_view(final(tokens)@) == flush_token(strings_view(old(tokens)@), current@),
{
    if current.len() > 0 {
        let ghost before = tokens@;
        tokens.push(string_from_chars(current.as_slice()));
        assert(strings_view(tokens@) =~= strings_view(before).push(current@));
    }
}

/// The tokens of `command` (see `shell_tokens_spec`).
pub fn shell_tokens(command: &str) -> (result: Vec<String>)
    ensures
        strings_view(result@) == shell_tokens_spec(command@),
{
    let chars = chars_of(command);
    let mut tokens: Vec<String> = Vec::new();
    let mut current: Vec<char> = Vec::new();
    let mut mode = ScanMode::Normal;
    let mut i: usize = 0;
    assert(chars@.take(0) =~= Seq::<char>::empty());
    assert(strings_view(tokens@) =~= Seq::<Seq<char>>::empty());
    while i < chars.len()
        invariant
            chars@ == command@,
            i <= chars@.len(),
            scan(chars@.take(i as int)) == (ScanState { tokens: strings_view(tokens@), current: current@, mode }),
        decreases chars@.len() - i,
    {
        let c = chars[i];
        assert(chars@.take(i + 1).drop_last() =~= chars@.take(i as int));
        let ghost st = scan(chars@.take(i as int));
        let mut normal = false;
        match mode {
            ScanMode::Escape => {
                current.push(c);
                mode = ScanMode::Quote('"');
            },
            ScanMode::Quote(q) => {
                if c == q {
                    mode = ScanMode::Normal;
                } else if c == '\\' && q == '"' {
                    mode = ScanMode::Escape;
                } else {
                    current.push(c);
                }
            },
            ScanMode::Skip => {
                if !(c == ';' || c == '|' || c == '&' || c == '\n' || c == '\r') {
                    mode = ScanMode::Normal;
                    normal = true;
                }
            },
            ScanMode::Normal => {
                normal = true;
            },
        }
        if normal {
            if c == '\'' || c == '"' {
                mode = ScanMode::Quote(c);
            } else if c == ';' || c == '|' || c == '&' || c == '\n' || c == '\r' {
                push_token(&mut tokens, &current);
                current = Vec::new();
                let ghost before = tokens@;
                tokens.push(";".to_owned());
                proof {
                    reveal_strlit(";");
                    assert(";"@ =~= seq![';']);
                    assert(strings_view(tokens@) =~= strings_view(before).push(seq![';']));
                }
                mode = ScanMode::Skip;
            } else if is_whitespace(c) {
                push_token(&mut tokens, &current);
                current = Vec::new();
                mode = ScanMode::Normal;
            } else {
                current.push(c);
                mode = ScanMode::Normal;
            }
        }
        proof {
            assert(current@ == scan(chars@.take(i + 1)).current);
        }
        i = i + 1;
    }
    push_token(&mut tokens, &current);
    assert(chars@.take(chars@.len() as int) =~= chars@);
    tokens
}

// ----------------------------------------------------------------------
// Segments.
// ----------------------------------------------------------------------

pub open spec fn flush_segment(segments: Seq<Seq<Seq<char>>>, segment: Seq<Seq<char>>) -> Seq<Seq<Seq<char>>> {
    if segment.len() > 0 { segments.push(segment) } else { segments }
}

pub open spec fn segment_scan(tokens: Seq<Seq<char>>) -> (Seq<Seq<Seq<char>>>, Seq<Seq<char>>)
    decreases tokens.len(),
{
    if tokens.len() == 0 {
        (Seq::empty(), Seq::empty())
    } else {
        let (segments, segment) = segment_scan(tokens.drop_last());
        if tokens.last() == seq![';'] {
            (flush_segment(segments, segment), Seq::empty())
        } else {
            (segments, segment.push(tokens.last()))
        }
    }
}

/// The non-empty runs of tokens between `;` tokens.
pub open spec fn segments_of(tokens: Seq<Seq<char>>) -> Seq<Seq<Seq<char>>> {
    flush_segment(segment_scan(tokens).0, segment_scan(tokens).1)
}

pub open spec fn command_segments_spec(command: Seq<char>) -> Seq<Seq<Seq<char>>> {
    segments_of(shell_tokens_spec(command))
}

pub open spec fn segments_view(v: Seq<Vec<String>>) -> Seq<Seq<Seq<char>>> {
    v.map_values(|s: Vec<String>| strings_view(s@))
}

fn is_semicolon(t: &String) -> (result: bool)
    ensures
        result == (t@ == seq![';']),
{
    let c = chars_of(t.as_str());
    let r = c.len() == 1 && c[0] == ';';
    proof {
        if r {
            assert(c@ =~= seq![';']);
        }
    }
    r
}

/// The segments of `command` (see `command_segments_spec`).
pub fn command_segments(command: &str) -> (result: Vec<Vec<String>>)
    ensures
        segments_view(result@) == command_segments_spec(command@),
{
    let tokens = shell_tokens(command);
    let ghost tv = strings_view(tokens@);
    let mut segments: Vec<Vec<String>> = Vec::new();
    let mut segment: Vec<String> = Vec::new();
    let mut i: usize = 0;
    while i < tokens.len()
        invariant
            tv == strings_view(tokens@),
            i <= tokens@.len(),
            segment_scan(tv.take(i as int)) == (segments_view(segments@), strings_view(segment@)),
        decreases tokens@.len() - i,
    {
        assert(tv.take(i + 1).drop_last() =~= tv.take(i as int));
        assert(tv.take(i + 1).last() == tokens@[i as int]@);
        if is_semicolon(&tokens[i]) {
            if segment.len() > 0 {
                let ghost before = segments@;
                segments.push(segment);
                assert(segments_view(segments@) =~= segments_view(before).push(strings_view(segment@)));
            }
            segment = Vec::new();
            assert(strings_view(segment@) =~= Seq::<Seq<char>>::empty());
        } else {
            let ghost before = segment@;
            segment.push(tokens[i].clone());
            assert(strings_view(segment@) =~= strings_view(before).push(tokens@[i as int]@));
        }
        i = i + 1;
    }
    assert(tv.take(tokens@.len() as int) =~= tv);
    if segment.len() > 0 {
        let ghost before = segments@;
        segments.push(segment);
        assert(segments_view(segments@) =~= segments_view(before).push(strings_view(segment@)));
    }
    segments
}

// ----------------------------------------------------------------------
// Executable names.
// ----------------------------------------------------------------------

/// The lower-cased file stem of `value`, or all of `value` when it has no
/// file name.
pub open spec fn executable_name_spec(value: Seq<char>) -> Seq<char> {
    let parts = parse_path(value).parts;
    if parts.len() == 0 || parts.last() == seq!['.', '.'] {
        lower_seq(value)
    } else {
        lower_seq(stem_of(parts.last()))
    }
}

fn last_dot_index(s: &Vec<char>) -> (result: Option<usize>)
    ensures
        match result {
            Some(k) => last_dot(s@) == k as int,
            None => last_dot(s@) == -1,
        },
{
    let mut i: usize = s.len();
    assert(s@.take(s@.len() as int) =~= s@);
    while i > 0
        invariant
            i <= s@.len(),
            last_dot(s@) == last_dot(s@.take(i as int)),
        decreases i,
    {
        assert(s@.take(i as int).drop_last() =~= s@.take(i - 1));
        if s[i - 1] == '.' {
            return Some(i - 1);
        }
        i = i - 1;
    }
    None
}

proof fn lemma_last_dot_bound(s: Seq<char>)
    ensures
        -1 <= last_dot(s) < s.len(),
    decreases s.len(),
{
    if s.len() > 0 {
        lemma_last_dot_bound(s.drop_last());
    }
}

/// Lower-cased file stem of a command word (`Path::file_stem`, falling
/// back to the whole word).
pub fn executable_name(value: &str) -> (result: Vec<char>)
    ensures
        result@ == executable_name_spec(value@),
{
    let chars = chars_of(value);
    let path = parse_win_path(chars.as_slice());
    let n = path.parts.len();
    if n == 0 {
        return lower_chars(chars.as_slice());
    }
    let last = &path.parts[n - 1];
    let dots = last.len() == 2 && last[0] == '.' && last[1] == '.';
    proof {
        if dots {
            assert(last@ =~= seq!['.', '.']);
        }
        if last@ == seq!['.', '.'] {
            assert(last@.len() == 2);
        }
    }
    if dots {
        return lower_chars(chars.as_slice());
    }
    let d = last_dot_index(last);
    let du: usize = match d {
        Some(k) => k,
        None => 0,
    };
    if du == 0 {
        lower_chars(last.as_slice())
    } else {
        let mut stem: Vec<char> = Vec::new();
        let mut i: usize = 0;
        proof {
            lemma_last_dot_bound(last@);
        }
        while i < du
            invariant
                du == last_dot(last@),
                0 < du < last@.len(),
                i <= du,
                stem@ == last@.take(i as int),
            decreases du - i,
        {
            stem.push(last[i]);
            assert(last@.take(i + 1) =~= last@.take(i as int).push(last@[i as int]));
            i = i + 1;
        }
        lower_chars(stem.as_slice())
    }
}

// ----------------------------------------------------------------------
// Git.
// ----------------------------------------------------------------------

pub open spec fn is_safe_wrapper(name: Seq<char>) -> bool {
    name == "call"@ || name == "command"@ || name == "sudo"@ || name == "cmd"@ || name == "pwsh"@
        || name == "powershell"@ || eq_ignore_case(name, "/c"@) || eq_ignore_case(name, "-command"@)
}

pub open spec fn is_git_word(t: Seq<char>) -> bool {
    executable_name_spec(t) == "git"@
}

/// Index of the first word of `seg` whose executable name is `git`.
pub open spec fn git_position(seg: Seq<Seq<char>>) -> Option<int> {
    if exists|j: int| 0 <= j < seg.len() && is_git_word(#[trigger] seg[j]) {
        Some(choose|j: int| 0 <= j < seg.len() && is_git_word(#[trigger] seg[j])
            && forall|k: int| 0 <= k < j ==> !is_git_word(#[trigger] seg[k]))
    } else {
        None
    }
}

/// The words after `git`, when every word before it is a known wrapper.
pub open spec fn git_command_tokens_spec(seg: Seq<Seq<char>>) -> Option<Seq<Seq<char>>> {
    match git_position(seg) {
        None => None,
        Some(j) => if forall|k: int| 0 <= k < j ==> is_safe_wrapper(executable_name_spec(#[trigger] seg[k])) {
            Some(seg.skip(j + 1))
        } else {
            None
        },
    }
}

pub open spec fn is_git_value_option(t: Seq<char>) -> bool {
    t == "-C"@ || t == "-c"@ || t == "--git-dir"@ || t == "--work-tree"@ || t == "--namespace"@
}

/// Index of the Git subcommand in `tokens[i..]`, skipping global options
/// (and the value of the ones that take one).
pub open spec fn git_subcommand_index(tokens: Seq<Seq<char>>, i: int) -> Option<int>
    decreases tokens.len() - i,
{
    if i < 0 || i >= tokens.len() {
        None
    } else if is_git_value_option(tokens[i]) {
        if i + 2 > tokens.len() { None } else { git_subcommand_index(tokens, i + 2) }
    } else if starts_with(tokens[i], "-"@) {
        git_subcommand_index(tokens, i + 1)
    } else {
        Some(i)
    }
}

pub open spec fn is_force_push_argument(a: Seq<char>) -> bool {
    ||| a == "-f"@
    ||| a == "--force"@
    ||| a == "--force-with-lease"@
    ||| a == "--force-if-includes"@
    ||| starts_with(a, "--force="@)
    ||| starts_with(a, "--force-with-lease="@)
    ||| (starts_with(a, "+"@) && a.len() > 1)
    ||| (starts_with(a, "-"@) && !starts_with(a, "--"@) && a.drop_first().contains('f'))
}

pub open spec fn is_hard_reset_argument(a: Seq<char>) -> bool {
    a == "--hard"@ || starts_with(a, "--hard="@)
}

pub open spec fn force_push_reason() -> Seq<char> {
    "force push is forbidden regardless of flag position"@
}

pub open spec fn hard_reset_reason() -> Seq<char> {
    "git reset --hard is forbidden"@
}

pub open spec fn clean_reason() -> Seq<char> {
    "git clean is forbidden; preserve dirty and untracked worktrees"@
}

/// Why one segment is a forbidden Git command, if it is one.
pub open spec fn segment_git_reason(seg: Seq<Seq<char>>) -> Option<Seq<char>> {
    match git_command_tokens_spec(seg) {
        None => None,
        Some(tokens) => match git_subcommand_index(tokens, 0) {
            None => None,
            Some(i) => {
                let sub = tokens[i];
                let args = tokens.skip(i + 1);
                if eq_ignore_case(sub, "push"@) && exists|k: int| 0 <= k < args.len() && is_force_push_argument(#[trigger] args[k]) {
                    Some(force_push_reason())
                } else if eq_ignore_case(sub, "reset"@) && exists|k: int| 0 <= k < args.len() && is_hard_reset_argument(#[trigger] args[k]) {
                    Some(hard_reset_reason())
                } else if eq_ignore_case(sub, "clean"@) {
                    Some(clean_reason())
                } else {
                    None
                }
            },
        },
    }
}

/// The reason of the first segment that is a forbidden Git command.
pub open spec fn first_git_reason(segs: Seq<Seq<Seq<char>>>) -> Option<Seq<char>>
    decreases segs.len(),
{
    if segs.len() == 0 {
        None
    } else {
        match segment_git_reason(segs[0]) {
            Some(r) => Some(r),
            None => first_git_reason(segs.drop_first()),
        }
    }
}

pub open spec fn force_push_or_destructive_git_spec(command: Seq<char>) -> Option<Seq<char>> {
    first_git_reason(command_segments_spec(command))
}

fn is_safe_wrapper_exec(name: &Vec<char>) -> (result: bool)
    ensures
        result == is_safe_wrapper(name@),
{
    let lower = lower_chars(name.as_slice());
    chars_eq(name.as_slice(), chars_of("call").as_slice()) || chars_eq(name.as_slice(), chars_of("command").as_slice())
        || chars_eq(name.as_slice(), chars_of("sudo").as_slice()) || chars_eq(name.as_slice(), chars_of("cmd").as_slice())
        || chars_eq(name.as_slice(), chars_of("pwsh").as_slice())
        || chars_eq(name.as_slice(), chars_of("powershell").as_slice())
        || chars_eq(lower.as_slice(), lower_chars(chars_of("/c").as_slice()).as_slice())
        || chars_eq(lower.as_slice(), lower_chars(chars_of("-command").as_slice()).as_slice())
}

fn is_git_word_exec(t: &String) -> (result: bool)
    ensures
        result == is_git_word(t@),
{
    let name = executable_name(t.as_str());
    chars_eq(name.as_slice(), chars_of("git").as_slice())
}

pub(crate) fn clone_strings_from(v: &Vec<String>, from: usize) -> (result: Vec<String>)
    requires
        from <= v@.len(),
    ensures
        strings_view(result@) == strings_view(v@).skip(from as int),
{
    let mut out: Vec<String> = Vec::new();
    let mut i: usize = from;
    while i < v.len()
        invariant
            from <= i <= v@.len(),
            strings_view(out@) == strings_view(v@).subrange(from as int, i as int),
        decreases v@.len() - i,
    {
        let ghost before = out@;
        out.push(v[i].clone());
        assert(strings_view(out@) =~= strings_view(before).push(v@[i as int]@));
        assert(strings_view(v@).subrange(from as int, i + 1) =~= strings_view(v@).subrange(from as int, i as int).push(v@[i as int]@));
        i = i + 1;
    }
    assert(strings_view(v@).subrange(from as int, v@.len() as int) =~= strings_view(v@).skip(from as int));
    out
}

fn find_git(segment: &Vec<String>) -> (result: Option<usize>)
    ensures
        match result {
            Some(j) => j < segment@.len() && is_git_word(segment@[j as int]@)
                && forall|k: int| 0 <= k < j ==> !is_git_word(#[trigger] segment@[k]@),
            None => forall|k: int| 0 <= k < segment@.len() ==> !is_git_word(#[trigger] segment@[k]@),
        },
{
    let mut j: usize = 0;
    while j < segment.len()
        invariant
            j <= segment@.len(),
            forall|k: int| 0 <= k < j ==> !is_git_word(#[trigger] segment@[k]@),
        decreases segment@.len() - j,
    {
        if is_git_word_exec(&segment[j]) {
            return Some(j);
        }
        j = j + 1;
    }
    None
}

/// The words after `git` in a command segment, when only known wrappers
/// precede it.
pub fn git_command_tokens(segment: &Vec<String>) -> (result: Option<Vec<String>>)
    ensures
        match result {
            Some(r) => git_command_tokens_spec(strings_view(segment@)) == Some(strings_view(r@)),
            None => git_command_tokens_spec(strings_view(segment@)) is None,
        },
{
    let ghost sv = strings_view(segment@);
    let j = match find_git(segment) {
        Some(j) => j,
        None => {
            proof {
                assert forall|k: int| 0 <= k < sv.len() implies !is_git_word(#[trigger] sv[k]) by {
                    assert(sv[k] == segment@[k]@);
                }
            }
            return None;
        },
    };
    proof {
        assert(sv[j as int] == segment@[j as int]@);
        assert(is_git_word(sv[j as int]));
        let p = git_position(sv);
        let q = p->0;
        assert(p is Some);
        if q < j {
            assert(sv[q] == segment@[q]@);
            assert(!is_git_word(sv[q]));
        }
        if j < q {
            assert(!is_git_word(sv[j as int]));
        }
        assert(q == j);
    }
    let mut k: usize = 0;
    while k < j
        invariant
            sv == strings_view(segment@),
            j < segment@.len(),
            git_position(sv) == Some(j as int),
            k <= j,
            forall|x: int| 0 <= x < k ==> is_safe_wrapper(executable_name_spec(#[trigger] sv[x])),
        decreases j - k,
    {
        let name = executable_name(segment[k].as_str());
        assert(sv[k as int] == segment@[k as int]@);
        if !is_safe_wrapper_exec(&name) {
            return None;
        }
        k = k + 1;
    }
    let n = segment.len();
    assert(j < n);
    Some(clone_strings_from(segment, j + 1))
}

fn is_git_value_option_exec(t: &String) -> (result: bool)
    ensures
        result == is_git_value_option(t@),
{
    let s = t.as_str();
    str_eq(s, "-C") || str_eq(s, "-c") || str_eq(s, "--git-dir") || str_eq(s, "--work-tree") || str_eq(s, "--namespace")
}

/// The Git subcommand and its arguments, after global options.
pub fn git_subcommand(tokens: &Vec<String>) -> (result: Option<(String, Vec<String>)>)
    ensures
        match result {
            Some((sub, args)) => git_subcommand_index(strings_view(tokens@), 0) matches Some(i)
                && sub@ == strings_view(tokens@)[i] && strings_view(args@) == strings_view(tokens@).skip(i + 1),
            None => git_subcommand_index(strings_view(tokens@), 0) is None,
        },
{
    let ghost tv = strings_view(tokens@);
    let mut index: usize = 0;
    while index < tokens.len()
        invariant
            tv == strings_view(tokens@),
            git_subcommand_index(tv, 0) == git_subcommand_index(tv, index as int),
        decreases tokens@.len() - index,
    {
        let token = &tokens[index];
        if is_git_value_option_exec(token) {
            if tokens.len() - index < 2 {
                return None;
            }
            index = index + 2;
            continue;
        }
        if starts_with_str(token.as_str(), "-") {
            index = index + 1;
            continue;
        }
        return Some((token.clone(), clone_strings_from(tokens, index + 1)));
    }
    None
}

#[verifier::loop_isolation(false)]
fn is_force_push_argument_exec(a: &String) -> (result: bool)
    ensures
        result == is_force_push_argument(a@),
{
    let s = a.as_str();
    let chars = chars_of(s);
    proof {
        reveal_strlit("-");
        reveal_strlit("+");
        reveal_strlit("--");
    }
    if str_eq(s, "-f") || str_eq(s, "--force") || str_eq(s, "--force-with-lease") || str_eq(s, "--force-if-includes")
        || starts_with_str(s, "--force=") || starts_with_str(s, "--force-with-lease=") {
        return true;
    }
    if starts_with_str(s, "+") && chars.len() > 1 {
        return true;
    }
    if starts_with_str(s, "-") && !starts_with_str(s, "--") {
        let mut i: usize = 1;
        while i < chars.len()
            invariant
                chars@ == a@,
                1 <= i <= chars@.len(),
                forall|j: int| 1 <= j < i ==> chars@[j] != 'f',
            decreases chars@.len() - i,
        {
            if chars[i] == 'f' {
                assert(a@.drop_first()[i - 1] == 'f');
                return true;
            }
            i = i + 1;
        }
        assert(!a@.drop_first().contains('f')) by {
            if a@.drop_first().contains('f') {
                let j = choose|j: int| 0 <= j < a@.drop_first().len() && a@.drop_first()[j] == 'f';
                assert(chars@[j + 1] == 'f');
            }
        }
    }
    false
}

fn is_hard_reset_argument_exec(a: &String) -> (result: bool)
    ensures
        result == is_hard_reset_argument(a@),
{
    str_eq(a.as_str(), "--hard") || starts_with_str(a.as_str(), "--hard=")
}

/// Why one segment is a forbidden Git command, if it is one.
#[verifier::loop_isolation(false)]
pub fn segment_git_reason_exec(segment: &Vec<String>) -> (result: Option<&'static str>)
    ensures
        match result {
            Some(r) => segment_git_reason(strings_view(segment@)) == Some(r@),
            None => segment_git_reason(strings_view(segment@)) is None,
        },
{
    let tokens = match git_command_tokens(segment) {
        Some(t) => t,
        None => return None,
    };
    let (sub, args) = match git_subcommand(&tokens) {
        Some(p) => p,
        None => return None,
    };
    let ghost av = strings_view(args@);
    if eq_ignore_case_str(sub.as_str(), "push") {
        let mut k: usize = 0;
        while k < args.len()
            invariant
                av == strings_view(args@),
                k <= args@.len(),
                forall|x: int| 0 <= x < k ==> !is_force_push_argument(#[trigger] av[x]),
            decreases args@.len() - k,
        {
            if is_force_push_argument_exec(&args[k]) {
                proof {
                    let toks = strings_view(tokens@);
                    let i = git_subcommand_index(toks, 0)->0;
                    assert(av[k as int] == args@[k as int]@);
                    assert(toks.skip(i + 1)[k as int] == av[k as int]);
                    assert(is_force_push_argument(toks.skip(i + 1)[k as int]));
                }
                return Some("force push is forbidden regardless of flag position");
            }
            k = k + 1;
        }
    }
    if eq_ignore_case_str(sub.as_str(), "reset") {
        let mut k: usize = 0;
        while k < args.len()
            invariant
                av == strings_view(args@),
                k <= args@.len(),
                forall|x: int| 0 <= x < k ==> !is_hard_reset_argument(#[trigger] av[x]),
            decreases args@.len() - k,
        {
            if is_hard_reset_argument_exec(&args[k]) {
                proof {
                    let toks = strings_view(tokens@);
                    let i = git_subcommand_index(toks, 0)->0;
                    assert(av[k as int] == args@[k as int]@);
                    assert(toks.skip(i + 1)[k as int] == av[k as int]);
                    assert(is_hard_reset_argument(toks.skip(i + 1)[k as int]));
                }
                return Some("git reset --hard is forbidden");
            }
            k = k + 1;
        }
    }
    if eq_ignore_case_str(sub.as_str(), "clean") {
        return Some("git clean is forbidden; preserve dirty and untracked worktrees");
    }
    None
}

/// The reason to deny a command that force-pushes, hard-resets or cleans
/// with Git, wherever the flag stands.
pub fn force_push_or_destructive_git_reason(command: &str) -> (result: Option<&'static str>)
    ensures
        match result {
            Some(r) => force_push_or_destructive_git_spec(command@) == Some(r@),
            None => force_push_or_destructive_git_spec(command@) is None,
        },
{
    let segments = command_segments(command);
    let ghost sv = segments_view(segments@);
    let mut i: usize = 0;
    assert(sv.skip(0) =~= sv);
    while i < segments.len()
        invariant
            sv == segments_view(segments@),
            sv == command_segments_spec(command@),
            i <= segments@.len(),
            first_git_reason(sv) == first_git_reason(sv.skip(i as int)),
        decreases segments@.len() - i,
    {
        let ghost rest = sv.skip(i as int);
        assert(rest[0] == strings_view(segments@[i as int]@));
        assert(rest.drop_first() =~= sv.skip(i + 1));
        match segment_git_reason_exec(&segments[i]) {
            Some(r) => return Some(r),
            None => {},
        }
        i = i + 1;
    }
    assert(sv.skip(segments@.len() as int) =~= Seq::<Seq<Seq<char>>>::empty());
    None
}

} // verus!

verus! {

// ----------------------------------------------------------------------
// Paths below the working directory.
// ----------------------------------------------------------------------

pub open spec fn is_dynamic_char(c: char) -> bool {
    c == '*' || c == '?' || c == '[' || c == ']' || c == '$' || c == '%' || c == '`'
}

/// Whether a path word may expand to something else than it spells.
pub open spec fn path_contains_dynamic_syntax_spec(v: Seq<char>) -> bool {
    ||| v.len() == 0
    ||| exists|i: int| 0 <= i < v.len() && is_dynamic_char(#[trigger] v[i])
    ||| starts_with(v, "~"@)
    ||| contains_seq(v, "$("@)
    ||| contains_seq(v, ".."@)
}

pub fn path_contains_dynamic_syntax(value: &str) -> (result: bool)
    ensures
        result == path_contains_dynamic_syntax_spec(value@),
{
    let chars = chars_of(value);
    if chars.len() == 0 {
        return true;
    }
    let mut i: usize = 0;
    while i < chars.len()
        invariant
            chars@ == value@,
            i <= chars@.len(),
            forall|j: int| 0 <= j < i ==> !is_dynamic_char(#[trigger] chars@[j]),
        decreases chars@.len() - i,
    {
        let c = chars[i];
        if c == '*' || c == '?' || c == '[' || c == ']' || c == '$' || c == '%' || c == '`' {
            return true;
        }
        i = i + 1;
    }
    starts_with_str(value, "~") || contains_str(chars.as_slice(), "$(") || contains_str(chars.as_slice(), "..")
}

/// `value` names, lexically, a path strictly below the absolute `cwd`.
pub open spec fn explicit_bounded_path_spec(value: Seq<char>, cwd: Seq<char>) -> bool {
    let base = parse_path(cwd);
    let raw = parse_path(value);
    let joined = if is_absolute(raw) { raw } else { join_path(base, raw) };
    &&& !path_contains_dynamic_syntax_spec(value)
    &&& is_absolute(base)
    &&& normalize_path(base) is Some
    &&& normalize_path(joined) is Some
    &&& path_starts_with(normalize_path(joined)->0, normalize_path(base)->0)
    &&& normalize_path(joined)->0 != normalize_path(base)->0
    &&& normalize_path(joined)->0.parts.len() > 0
}

pub fn explicit_bounded_path(value: &str, cwd: &str) -> (result: bool)
    ensures
        result == explicit_bounded_path_spec(value@, cwd@),
{
    if path_contains_dynamic_syntax(value) {
        return false;
    }
    let cwd_chars = chars_of(cwd);
    let base = parse_win_path(cwd_chars.as_slice());
    if !path_is_absolute(&base) {
        return false;
    }
    let value_chars = chars_of(value);
    let raw = parse_win_path(value_chars.as_slice());
    let joined = if path_is_absolute(&raw) { raw } else { join_win_path(&base, raw) };
    let base_norm = match lexically_normalize(base) {
        Some(b) => b,
        None => return false,
    };
    let target = match lexically_normalize(joined) {
        Some(t) => t,
        None => return false,
    };
    win_path_starts_with(&target, &base_norm) && !win_path_eq(&target, &base_norm) && target.parts.len() > 0
}

// ----------------------------------------------------------------------
// Recursive deletes and moves.
// ----------------------------------------------------------------------

/// Index of the first word of `seg[i..]` equal to `flag` without regard to
/// ASCII case.
pub open spec fn find_flag(seg: Seq<Seq<char>>, flag: Seq<char>, i: int) -> Option<int>
    decreases seg.len() - i,
{
    if i < 0 || i >= seg.len() {
        None
    } else if eq_ignore_case(seg[i], flag) {
        Some(i)
    } else {
        find_flag(seg, flag, i + 1)
    }
}

/// The word that follows the first `flag` word, if any.
pub open spec fn value_after(seg: Seq<Seq<char>>, flag: Seq<char>) -> Option<Seq<char>> {
    match find_flag(seg, flag, 0) {
        Some(i) => if i + 1 < seg.len() { Some(seg[i + 1]) } else { None },
        None => None,
    }
}

pub open spec fn bounded_value(v: Option<Seq<char>>, cwd: Seq<char>) -> bool {
    match v {
        Some(p) => explicit_bounded_path_spec(p, cwd),
        None => false,
    }
}

pub open spec fn is_recursive_rm_flag(t: Seq<char>) -> bool {
    t == "--recursive"@ || (starts_with(t, "-"@) && (t.drop_first().contains('r') || t.drop_first().contains('R')))
}

pub open spec fn is_target(seg: Seq<Seq<char>>, k: int) -> bool {
    1 <= k < seg.len() && !starts_with(seg[k], "-"@)
}

pub open spec fn some_target_unbounded(seg: Seq<Seq<char>>, cwd: Seq<char>) -> bool {
    exists|k: int| is_target(seg, k) && !explicit_bounded_path_spec(#[trigger] seg[k], cwd)
}

/// Whether one segment deletes or moves recursively without an explicit
/// target strictly below `cwd`.
pub open spec fn segment_unverified(seg: Seq<Seq<char>>, cwd: Seq<char>) -> bool {
    if seg.len() == 0 {
        false
    } else {
        let e = executable_name_spec(seg[0]);
        if e == "remove-item"@ {
            (exists|k: int| 0 <= k < seg.len() && eq_ignore_case(#[trigger] seg[k], "-recurse"@))
                && !bounded_value(value_after(seg, "-literalpath"@), cwd)
        } else if e == "rm"@ || e == "rmdir"@ {
            (exists|k: int| 0 <= k < seg.len() && is_recursive_rm_flag(#[trigger] seg[k]))
                && ((forall|k: int| 1 <= k < seg.len() ==> !is_target(seg, k)) || some_target_unbounded(seg, cwd))
        } else if e == "move-item"@ {
            !bounded_value(value_after(seg, "-literalpath"@), cwd)
                || !bounded_value(value_after(seg, "-destination"@), cwd)
        } else if e == "mv"@ || e == "move"@ {
            !(exists|a: int, b: int| is_target(seg, a) && is_target(seg, b) && a < b)
                || some_target_unbounded(seg, cwd)
        } else {
            false
        }
    }
}

pub open spec fn recursive_delete_or_move_spec(command: Seq<char>, cwd: Seq<char>) -> bool {
    exists|i: int| 0 <= i < command_segments_spec(command).len()
        && segment_unverified(#[trigger] command_segments_spec(command)[i], cwd)
}

fn find_flag_exec(seg: &Vec<String>, flag: &str) -> (result: Option<usize>)
    ensures
        match result {
            Some(i) => find_flag(strings_view(seg@), flag@, 0) == Some(i as int),
            None => find_flag(strings_view(seg@), flag@, 0) is None,
        },
{
    let ghost sv = strings_view(seg@);
    let mut i: usize = 0;
    while i < seg.len()
        invariant
            sv == strings_view(seg@),
            i <= seg@.len(),
            find_flag(sv, flag@, 0) == find_flag(sv, flag@, i as int),
        decreases seg@.len() - i,
    {
        if eq_ignore_case_str(seg[i].as_str(), flag) {
            return Some(i);
        }
        i = i + 1;
    }
    None
}

fn bounded_after(seg: &Vec<String>, flag: &str, cwd: &str) -> (result: bool)
    ensures
        result == bounded_value(value_after(strings_view(seg@), flag@), cwd@),
{
    match find_flag_exec(seg, flag) {
        Some(i) => {
            proof {
                lemma_find_flag_bound(strings_view(seg@), flag@, 0);
            }
            if i < seg.len() - 1 {
                explicit_bounded_path(seg[i + 1].as_str(), cwd)
            } else {
                false
            }
        },
        None => false,
    }
}

proof fn lemma_find_flag_bound(seg: Seq<Seq<char>>, flag: Seq<char>, i: int)
    ensures
        find_flag(seg, flag, i) matches Some(j) ==> i <= j < seg.len() && eq_ignore_case(seg[j], flag),
    decreases seg.len() - i,
{
    if 0 <= i < seg.len() && !eq_ignore_case(seg[i], flag) {
        lemma_find_flag_bound(seg, flag, i + 1);
    }
}

fn any_flag(seg: &Vec<String>, flag: &str) -> (result: bool)
    ensures
        result == exists|k: int| 0 <= k < seg@.len() && eq_ignore_case(#[trigger] strings_view(seg@)[k], flag@),
{
    let ghost sv = strings_view(seg@);
    let mut i: usize = 0;
    while i < seg.len()
        invariant
            sv == strings_view(seg@),
            i <= seg@.len(),
            forall|k: int| 0 <= k < i ==> !eq_ignore_case(#[trigger] sv[k], flag@),
        decreases seg@.len() - i,
    {
        if eq_ignore_case_str(seg[i].as_str(), flag) {
            assert(sv[i as int] == seg@[i as int]@);
            return true;
        }
        i = i + 1;
    }
    false
}

#[verifier::loop_isolation(false)]
fn is_recursive_rm_flag_exec(t: &String) -> (result: bool)
    ensures
        result == is_recursive_rm_flag(t@),
{
    if str_eq(t.as_str(), "--recursive") {
        return true;
    }
    if !starts_with_str(t.as_str(), "-") {
        return false;
    }
    proof {
        reveal_strlit("-");
    }
    let chars = chars_of(t.as_str());
    let mut i: usize = 1;
    while i < chars.len()
        invariant
            chars@ == t@,
            1 <= i <= chars@.len(),
            forall|j: int| 1 <= j < i ==> chars@[j] != 'r' && chars@[j] != 'R',
        decreases chars@.len() - i,
    {
        if chars[i] == 'r' || chars[i] == 'R' {
            assert(t@.drop_first()[i - 1] == chars@[i as int]);
            return true;
        }
        i = i + 1;
    }
    proof {
        if t@.drop_first().contains('r') {
            let j = choose|j: int| 0 <= j < t@.drop_first().len() && t@.drop_first()[j] == 'r';
            assert(chars@[j + 1] == 'r');
        }
        if t@.drop_first().contains('R') {
            let j = choose|j: int| 0 <= j < t@.drop_first().len() && t@.drop_first()[j] == 'R';
            assert(chars@[j + 1] == 'R');
        }
    }
    false
}

/// Counts the target words (those after the command that are not flags),
/// up to two, and whether one of them is not explicitly bounded.
fn scan_targets(seg: &Vec<String>, cwd: &str) -> (result: (usize, bool))
    ensures
        result.0 <= 2,
        (result.0 == 0) == (forall|k: int| 1 <= k < seg@.len() ==> !is_target(strings_view(seg@), k)),
        (result.0 >= 2) == (exists|a: int, b: int| is_target(strings_view(seg@), a) && is_target(strings_view(seg@), b) && a < b),
        result.1 == some_target_unbounded(strings_view(seg@), cwd@),
{
    let ghost sv = strings_view(seg@);
    let mut count: usize = 0;
    let mut first: usize = 0;
    let mut unbounded = false;
    let mut k: usize = 1;
    while k < seg.len()
        invariant
            sv == strings_view(seg@),
            sv.len() == seg@.len(),
            1 <= k,
            k <= seg@.len() || seg@.len() == 0,
            count <= 2,
            count == 0 ==> forall|x: int| 1 <= x < k ==> !is_target(sv, x),
            count >= 1 ==> 1 <= first < k && is_target(sv, first as int) && forall|x: int| 1 <= x < first ==> !is_target(sv, x),
            count == 1 ==> forall|x: int| first < x < k ==> !is_target(sv, x),
            count >= 2 ==> exists|a: int, b: int| is_target(sv, a) && is_target(sv, b) && a < b,
            unbounded == exists|x: int| 1 <= x < k && is_target(sv, x) && !explicit_bounded_path_spec(#[trigger] sv[x], cwd@),
        decreases seg@.len() - k,
    {
        assert(sv[k as int] == seg@[k as int]@);
        if !starts_with_str(seg[k].as_str(), "-") {
            if count == 0 {
                first = k;
                count = 1;
            } else if count == 1 {
                count = 2;
                assert(is_target(sv, first as int) && is_target(sv, k as int));
            }
            if !explicit_bounded_path(seg[k].as_str(), cwd) {
                unbounded = true;
            }
        }
        k = k + 1;
    }
    proof {
        if count == 1 {
            assert forall|a: int, b: int| !(is_target(sv, a) && is_target(sv, b) && a < b) by {
                if is_target(sv, a) && is_target(sv, b) && a < b {
                    assert(a >= first);
                }
            }
        }
        if seg@.len() == 0 {
            assert forall|x: int| 1 <= x < seg@.len() implies !is_target(sv, x) by {}
        }
        if unbounded {
            let x = choose|x: int| 1 <= x < k && is_target(sv, x) && !explicit_bounded_path_spec(#[trigger] sv[x], cwd@);
            assert(is_target(sv, x) && !explicit_bounded_path_spec(sv[x], cwd@));
        }
        if some_target_unbounded(sv, cwd@) {
            let x = choose|x: int| is_target(sv, x) && !explicit_bounded_path_spec(#[trigger] sv[x], cwd@);
            assert(1 <= x < k);
        }
    }
    (count, unbounded)
}

/// Whether one segment deletes or moves recursively without an explicit
/// target below `cwd`.
pub fn segment_unverified_exec(seg: &Vec<String>, cwd: &str) -> (result: bool)
    ensures
        result == segment_unverified(strings_view(seg@), cwd@),
{
    if seg.len() == 0 {
        return false;
    }
    let ghost sv = strings_view(seg@);
    assert(sv[0] == seg@[0]@);
    let e = executable_name(seg[0].as_str());
    let es = e.as_slice();
    if chars_eq(es, chars_of("remove-item").as_slice()) {
        if !any_flag(seg, "-recurse") {
            return false;
        }
        !bounded_after(seg, "-literalpath", cwd)
    } else if chars_eq(es, chars_of("rm").as_slice()) || chars_eq(es, chars_of("rmdir").as_slice()) {
        let mut recursive = false;
        let mut k: usize = 0;
        while k < seg.len()
            invariant
                sv == strings_view(seg@),
                k <= seg@.len(),
                recursive == exists|x: int| 0 <= x < k && is_recursive_rm_flag(#[trigger] sv[x]),
            decreases seg@.len() - k,
        {
            assert(sv[k as int] == seg@[k as int]@);
            if is_recursive_rm_flag_exec(&seg[k]) {
                recursive = true;
            }
            k = k + 1;
        }
        if !recursive {
            return false;
        }
        let (count, unbounded) = scan_targets(seg, cwd);
        count == 0 || unbounded
    } else if chars_eq(es, chars_of("move-item").as_slice()) {
        !bounded_after(seg, "-literalpath", cwd) || !bounded_after(seg, "-destination", cwd)
    } else if chars_eq(es, chars_of("mv").as_slice()) || chars_eq(es, chars_of("move").as_slice()) {
        let (count, unbounded) = scan_targets(seg, cwd);
        count < 2 || unbounded
    } else {
        false
    }
}

/// Whether `command` deletes or moves recursively without an explicit
/// target path strictly below `cwd`.
pub fn recursive_delete_or_move_is_unverified(command: &str, cwd: &str) -> (result: bool)
    ensures
        result == recursive_delete_or_move_spec(command@, cwd@),
{
    let segments = command_segments(command);
    let ghost sv = segments_view(segments@);
    let mut i: usize = 0;
    while i < segments.len()
        invariant
            sv == segments_view(segments@),
            sv == command_segments_spec(command@),
            i <= segments@.len(),
            forall|j: int| 0 <= j < i ==> !segment_unverified(#[trigger] sv[j], cwd@),
        decreases segments@.len() - i,
    {
        assert(sv[i as int] == strings_view(segments@[i as int]@));
        if segment_unverified_exec(&segments[i], cwd) {
            return true;
        }
        i = i + 1;
    }
    false
}

// ----------------------------------------------------------------------
// Generated runtime state and mutation intent.
// ----------------------------------------------------------------------

pub open spec fn slash_char(c: char) -> char {
    if c == '\\' { '/' } else { c }
}

/// A reference with `/` separators, in ASCII lower case.
pub open spec fn normalized_reference(v: Seq<char>) -> Seq<char> {
    lower_seq(v.map_values(|c: char| slash_char(c)))
}

/// Whether `value` mentions the Codex trust or runtime database, the plugin
/// cache, or Star-Control's generated runtime state.
pub open spec fn protected_reference_spec(value: Seq<char>) -> bool {
    let n = normalized_reference(value);
    ||| contains_seq(n, "/.codex/plugins/cache/"@)
    ||| contains_seq(n, "/.codex/state"@)
    ||| contains_seq(n, "/.codex/trust"@)
    ||| contains_seq(n, "/appdata/roaming/star-control/"@)
    ||| contains_seq(n, "/appdata/local/star-control/"@)
    ||| (contains_seq(n, "/.codex/"@) && (contains_seq(n, ".db"@) || contains_seq(n, ".sqlite"@)))
}

pub fn protected_generated_state_reference(value: &str) -> (result: bool)
    ensures
        result == protected_reference_spec(value@),
{
    let chars = chars_of(value);
    let mut slashed: Vec<char> = Vec::new();
    let mut i: usize = 0;
    while i < chars.len()
        invariant
            chars@ == value@,
            i <= chars@.len(),
            slashed@ == chars@.take(i as int).map_values(|c: char| slash_char(c)),
        decreases chars@.len() - i,
    {
        let c = chars[i];
        slashed.push(if c == '\\' { '/' } else { c });
        assert(chars@.take(i + 1).map_values(|c: char| slash_char(c))
            =~= chars@.take(i as int).map_values(|c: char| slash_char(c)).push(slash_char(c)));
        i = i + 1;
    }
    assert(chars@.take(chars@.len() as int) =~= chars@);
    let n = lower_chars(slashed.as_slice());
    let ns = n.as_slice();
    contains_str(ns, "/.codex/plugins/cache/") || contains_str(ns, "/.codex/state") || contains_str(ns, "/.codex/trust")
        || contains_str(ns, "/appdata/roaming/star-control/") || contains_str(ns, "/appdata/local/star-control/")
        || (contains_str(ns, "/.codex/") && (contains_str(ns, ".db") || contains_str(ns, ".sqlite")))
}

pub open spec fn is_mutation_command(e: Seq<char>) -> bool {
    e == "remove-item"@ || e == "move-item"@ || e == "copy-item"@ || e == "rename-item"@ || e == "set-content"@
        || e == "add-content"@ || e == "out-file"@ || e == "new-item"@ || e == "rm"@ || e == "rmdir"@ || e == "mv"@
        || e == "move"@ || e == "cp"@ || e == "copy"@ || e == "del"@ || e == "erase"@ || e == "sqlite3"@
}

pub open spec fn segment_mutates(seg: Seq<Seq<char>>) -> bool {
    (seg.len() > 0 && is_mutation_command(executable_name_spec(seg[0])))
        || exists|k: int| 0 <= k < seg.len() && (#[trigger] seg[k] == ">"@ || seg[k] == ">>"@)
}

/// Whether a segment of `command` starts with a file-mutating command or
/// redirects output.
pub open spec fn mutation_intent_spec(command: Seq<char>) -> bool {
    exists|i: int| 0 <= i < command_segments_spec(command).len()
        && segment_mutates(#[trigger] command_segments_spec(command)[i])
}

fn is_mutation_command_exec(e: &Vec<char>) -> (result: bool)
    ensures
        result == is_mutation_command(e@),
{
    let s = e.as_slice();
    chars_eq(s, chars_of("remove-item").as_slice()) || chars_eq(s, chars_of("move-item").as_slice())
        || chars_eq(s, chars_of("copy-item").as_slice()) || chars_eq(s, chars_of("rename-item").as_slice())
        || chars_eq(s, chars_of("set-content").as_slice()) || chars_eq(s, chars_of("add-content").as_slice())
        || chars_eq(s, chars_of("out-file").as_slice()) || chars_eq(s, chars_of("new-item").as_slice())
        || chars_eq(s, chars_of("rm").as_slice()) || chars_eq(s, chars_of("rmdir").as_slice())
        || chars_eq(s, chars_of("mv").as_slice()) || chars_eq(s, chars_of("move").as_slice())
        || chars_eq(s, chars_of("cp").as_slice()) || chars_eq(s, chars_of("copy").as_slice())
        || chars_eq(s, chars_of("del").as_slice()) || chars_eq(s, chars_of("erase").as_slice())
        || chars_eq(s, chars_of("sqlite3").as_slice())
}

fn segment_mutates_exec(seg: &Vec<String>) -> (result: bool)
    ensures
        result == segment_mutates(strings_view(seg@)),
{
    let ghost sv = strings_view(seg@);
    if seg.len() > 0 {
        assert(sv[0] == seg@[0]@);
        let e = executable_name(seg[0].as_str());
        if is_mutation_command_exec(&e) {
            return true;
        }
    }
    let mut k: usize = 0;
    while k < seg.len()
        invariant
            sv == strings_view(seg@),
            k <= seg@.len(),
            forall|x: int| 0 <= x < k ==> !(#[trigger] sv[x] == ">"@ || sv[x] == ">>"@),
        decreases seg@.len() - k,
    {
        assert(sv[k as int] == seg@[k as int]@);
        if str_eq(seg[k].as_str(), ">") || str_eq(seg[k].as_str(), ">>") {
            return true;
        }
        k = k + 1;
    }
    false
}

pub fn mutation_intent(command: &str) -> (result: bool)
    ensures
        result == mutation_intent_spec(command@),
{
    let segments = command_segments(command);
    let ghost sv = segments_view(segments@);
    let mut i: usize = 0;
    while i < segments.len()
        invariant
            sv == segments_view(segments@),
            sv == command_segments_spec(command@),
            i <= segments@.len(),
            forall|j: int| 0 <= j < i ==> !segment_mutates(#[trigger] sv[j]),
        decreases segments@.len() - i,
    {
        assert(sv[i as int] == strings_view(segments@[i as int]@));
        if segment_mutates_exec(&segments[i]) {
            return true;
        }
        i = i + 1;
    }
    false
}

/// The executable name of the word `git` is `git`.
proof fn lemma_git_is_git()
    ensures
        is_git_word("git"@),
{
    reveal_strlit("git");
    let g = seq!['g', 'i', 't'];
    assert("git"@ =~= g);
    assert(parse_path(g).parts =~= seq![g]) by {
        reveal_with_fuel(split_scan, 4);
        assert(g.drop_last() =~= seq!['g', 'i']);
        assert(g.drop_last().drop_last() =~= seq!['g']);
        assert(g.drop_last().drop_last().drop_last() =~= Seq::<char>::empty());
        assert(split_scan(seq!['g']).1 =~= seq!['g']);
        assert(split_scan(seq!['g', 'i']).1 =~= seq!['g', 'i']);
        assert(split_scan(g).1 =~= g);
    }
    assert(last_dot(g) == -1) by {
        reveal_with_fuel(last_dot, 4);
        assert(g.drop_last() =~= seq!['g', 'i']);
        assert(g.drop_last().drop_last() =~= seq!['g']);
        assert(g.drop_last().drop_last().drop_last() =~= Seq::<char>::empty());
    }
    assert(lower_seq(g) =~= g);
}

/// A `git push` that carries a force argument is refused wherever that
/// argument stands among the push arguments, before, between or after the
/// remote and the refspecs.
pub proof fn law_force_push_is_refused_at_any_flag_position(before: Seq<Seq<char>>, flag: Seq<char>, after: Seq<Seq<char>>)
    requires
        is_force_push_argument(flag),
    ensures
        segment_git_reason(seq!["git"@, "push"@] + before + seq![flag] + after) == Some(force_push_reason()),
{
    let seg = seq!["git"@, "push"@] + before + seq![flag] + after;
    lemma_git_is_git();
    assert(seg[0] == "git"@);
    assert(is_git_word(seg[0]));
    let j = choose|j: int| 0 <= j < seg.len() && is_git_word(#[trigger] seg[j])
        && forall|k: int| 0 <= k < j ==> !is_git_word(#[trigger] seg[k]);
    assert(git_position(seg) == Some(j));
    assert(j == 0) by {
        if j > 0 {
            assert(!is_git_word(seg[0]));
        }
    }
    let tokens = seg.skip(1);
    assert(git_command_tokens_spec(seg) == Some(tokens));
    reveal_strlit("push");
    reveal_strlit("-C");
    reveal_strlit("-c");
    reveal_strlit("-");
    assert(tokens[0] == "push"@);
    assert("push"@.len() == 4);
    assert(!is_git_value_option(tokens[0])) by {
        reveal_strlit("--git-dir");
        reveal_strlit("--work-tree");
        reveal_strlit("--namespace");
    }
    assert(!starts_with(tokens[0], "-"@)) by {
        assert(tokens[0].take(1)[0] == 'p');
    }
    assert(git_subcommand_index(tokens, 0) == Some(0int));
    let args = tokens.skip(1);
    assert(args[before.len() as int] == flag);
    assert(is_force_push_argument(args[before.len() as int]));
    assert(eq_ignore_case(tokens[0], "push"@));
}

// ----------------------------------------------------------------------
// Joining commands.
// ----------------------------------------------------------------------

/// Scanning `s` from state `st`.
pub open spec fn scan_from(st: ScanState, s: Seq<char>) -> ScanState
    decreases s.len(),
{
    if s.len() == 0 {
        st
    } else {
        scan_step(scan_from(st, s.drop_last()), s.last())
    }
}

pub open spec fn initial_scan() -> ScanState {
    ScanState { tokens: Seq::empty(), current: Seq::empty(), mode: ScanMode::Normal }
}

proof fn lemma_scan_append(a: Seq<char>, b: Seq<char>)
    ensures
        scan(a + b) == scan_from(scan(a), b),
    decreases b.len(),
{
    if b.len() == 0 {
        assert(a + b =~= a);
    } else {
        lemma_scan_append(a, b.drop_last());
        assert((a + b).drop_last() =~= a + b.drop_last());
        assert((a + b).last() == b.last());
    }
}

proof fn lemma_scan_is_from_initial(s: Seq<char>)
    ensures
        scan(s) == scan_from(initial_scan(), s),
    decreases s.len(),
{
    if s.len() > 0 {
        lemma_scan_is_from_initial(s.drop_last());
    }
}

/// Tokens already found before a scan step stay in front of it.
proof fn lemma_step_shift(x: Seq<Seq<char>>, st: ScanState, c: char)
    ensures
        scan_step(ScanState { tokens: x + st.tokens, ..st }, c)
            == (ScanState { tokens: x + scan_step(st, c).tokens, ..scan_step(st, c) }),
{
    let shifted = ScanState { tokens: x + st.tokens, ..st };
    assert(flush_token(x + st.tokens, st.current) =~= x + flush_token(st.tokens, st.current));
    assert(flush_token(x + st.tokens, st.current).push(seq![';'])
        =~= x + flush_token(st.tokens, st.current).push(seq![';']));
    let l = scan_step(shifted, c);
    let r = scan_step(st, c);
    assert(l.tokens =~= x + r.tokens);
}

/// A scan that starts after tokens `x`, with nothing pending, ends as the
/// scan of `s` alone with `x` in front of its tokens.
proof fn lemma_scan_from_fresh(x: Seq<Seq<char>>, s: Seq<char>)
    ensures
        scan_from(ScanState { tokens: x, current: Seq::empty(), mode: ScanMode::Normal }, s)
            == (ScanState { tokens: x + scan(s).tokens, ..scan(s) }),
    decreases s.len(),
{
    lemma_scan_is_from_initial(s);
    if s.len() == 0 {
        assert(x + Seq::<Seq<char>>::empty() =~= x);
    } else {
        lemma_scan_from_fresh(x, s.drop_last());
        lemma_scan_is_from_initial(s.drop_last());
        lemma_step_shift(x, scan(s.drop_last()), s.last());
    }
}

/// After a scan that ended between separators, nothing is pending and the
/// last token is `;`.
proof fn lemma_skip_state(s: Seq<char>)
    ensures
        scan(s).mode == ScanMode::Skip ==> scan(s).current.len() == 0 && scan(s).tokens.len() > 0
            && scan(s).tokens.last() == seq![';'],
    decreases s.len(),
{
    if s.len() > 0 {
        lemma_skip_state(s.drop_last());
    }
}

/// A scan that does not end inside a quote ends outside one.
pub open spec fn scan_closed(s: Seq<char>) -> bool {
    scan(s).mode == ScanMode::Normal || scan(s).mode == ScanMode::Skip
}

proof fn lemma_tokens_of_join(c1: Seq<char>, c2: Seq<char>) -> (front: Seq<Seq<char>>)
    requires
        scan_closed(c1),
    ensures
        shell_tokens_spec(c1 + seq![';', ' '] + c2) == front + shell_tokens_spec(c2),
        front.len() > 0 && front.last() == seq![';'],
        segments_of(front) == segments_of(shell_tokens_spec(c1)),
{
    let sep = seq![';', ' '];
    let st1 = scan(c1);
    lemma_skip_state(c1);
    lemma_scan_append(c1, sep);
    assert(sep.drop_last() =~= seq![';']);
    assert(seq![';'].drop_last() =~= Seq::<char>::empty());
    assert(is_unicode_whitespace(' '));
    let mid = scan_from(st1, sep);
    let front = if st1.mode == ScanMode::Normal {
        flush_token(st1.tokens, st1.current).push(seq![';'])
    } else {
        st1.tokens
    };
    let m1 = scan_step(st1, ';');
    assert(scan_from(st1, Seq::<char>::empty()) == st1);
    assert(seq![';'].last() == ';');
    assert(scan_from(st1, seq![';']) == scan_step(scan_from(st1, seq![';'].drop_last()), seq![';'].last()));
    assert(scan_from(st1, seq![';']) == m1);
    assert(sep.last() == ' ');
    assert(mid == scan_step(scan_from(st1, sep.drop_last()), sep.last()));
    assert(mid == scan_step(m1, ' '));
    if st1.mode == ScanMode::Normal {
        assert(m1 == (ScanState { tokens: front, current: Seq::empty(), mode: ScanMode::Skip }));
    } else {
        assert(m1 == st1);
        assert(flush_token(st1.tokens, st1.current) == st1.tokens);
    }
    assert(flush_token(front, Seq::empty()) == front);
    assert(mid == (ScanState { tokens: front, current: Seq::empty(), mode: ScanMode::Normal }));
    lemma_scan_append(c1 + sep, c2);
    lemma_scan_from_fresh(front, c2);
    let all = scan(c1 + sep + c2);
    assert(all == (ScanState { tokens: front + scan(c2).tokens, ..scan(c2) }));
    assert(flush_token(front + scan(c2).tokens, scan(c2).current) =~= front + flush_token(scan(c2).tokens, scan(c2).current));
    if st1.mode == ScanMode::Normal {
        let t1 = shell_tokens_spec(c1);
        assert(front == t1.push(seq![';']));
        assert(t1.push(seq![';']).drop_last() =~= t1);
        assert(segment_scan(front) == (flush_segment(segment_scan(t1).0, segment_scan(t1).1), Seq::<Seq<char>>::empty()));
        assert(segments_of(front) == flush_segment(flush_segment(segment_scan(t1).0, segment_scan(t1).1), Seq::<Seq<char>>::empty()));
    } else {
        assert(shell_tokens_spec(c1) == st1.tokens);
    }
    front
}

/// Segments split at a `;` token are the segments of each side.
proof fn lemma_segment_scan_append(a: Seq<Seq<char>>, b: Seq<Seq<char>>)
    requires
        segment_scan(a).1.len() == 0,
    ensures
        segment_scan(a + b) == (segment_scan(a).0 + segment_scan(b).0, segment_scan(b).1),
    decreases b.len(),
{
    if b.len() == 0 {
        assert(a + b =~= a);
        assert(segment_scan(a).0 + Seq::<Seq<Seq<char>>>::empty() =~= segment_scan(a).0);
        assert(segment_scan(a).1 =~= Seq::<Seq<char>>::empty());
    } else {
        lemma_segment_scan_append(a, b.drop_last());
        assert((a + b).drop_last() =~= a + b.drop_last());
        assert((a + b).last() == b.last());
        let (sb, gb) = segment_scan(b.drop_last());
        let x = segment_scan(a).0;
        assert(flush_segment(x + sb, gb) =~= x + flush_segment(sb, gb));
    }
}

proof fn lemma_segments_append(a: Seq<Seq<char>>, b: Seq<Seq<char>>)
    requires
        a.len() > 0,
        a.last() == seq![';'],
    ensures
        segments_of(a + b) == segments_of(a) + segments_of(b),
{
    let (sa, ga) = segment_scan(a.drop_last());
    assert(segment_scan(a) == (flush_segment(sa, ga), Seq::<Seq<char>>::empty()));
    lemma_segment_scan_append(a, b);
    let (sb, gb) = segment_scan(b);
    assert(flush_segment(segment_scan(a).0 + sb, gb) =~= segment_scan(a).0 + flush_segment(sb, gb));
}

/// Screening for recursive deletes and moves distributes over commands
/// joined by `; `: the joined command is refused exactly when one of the
/// two is, provided the first does not end inside an open quote.
pub proof fn law_recursive_screening_distributes_over_joined_commands(c1: Seq<char>, c2: Seq<char>, cwd: Seq<char>)
    requires
        scan_closed(c1),
    ensures
        recursive_delete_or_move_spec(c1 + seq![';', ' '] + c2, cwd)
            == (recursive_delete_or_move_spec(c1, cwd) || recursive_delete_or_move_spec(c2, cwd)),
        command_segments_spec(c1 + seq![';', ' '] + c2) == command_segments_spec(c1) + command_segments_spec(c2),
{
    let c = c1 + seq![';', ' '] + c2;
    let front = lemma_tokens_of_join(c1, c2);
    lemma_segments_append(front, shell_tokens_spec(c2));
    let s1 = command_segments_spec(c1);
    let s2 = command_segments_spec(c2);
    let s = command_segments_spec(c);
    assert(s == s1 + s2);
    if recursive_delete_or_move_spec(c, cwd) {
        let i = choose|i: int| 0 <= i < s.len() && segment_unverified(#[trigger] s[i], cwd);
        if i < s1.len() {
            assert(s[i] == s1[i]);
        } else {
            assert(s[i] == s2[i - s1.len()]);
        }
    }
    if recursive_delete_or_move_spec(c1, cwd) {
        let i = choose|i: int| 0 <= i < s1.len() && segment_unverified(#[trigger] s1[i], cwd);
        assert(s[i] == s1[i]);
    }
    if recursive_delete_or_move_spec(c2, cwd) {
        let i = choose|i: int| 0 <= i < s2.len() && segment_unverified(#[trigger] s2[i], cwd);
        assert(s[i + s1.len()] == s2[i]);
    }
}

/// A command none of whose segments starts with a delete or move
/// executable (`remove-item`, `rm`, `rmdir`, `move-item`, `mv`, `move`) is
/// never refused as an unverified recursive delete or move.
pub proof fn law_only_delete_and_move_commands_are_screened(command: Seq<char>, cwd: Seq<char>)
    requires
        forall|i: int| 0 <= i < command_segments_spec(command).len() ==> {
            let e = executable_name_spec(#[trigger] command_segments_spec(command)[i][0]);
            e != "remove-item"@ && e != "rm"@ && e != "rmdir"@ && e != "move-item"@ && e != "mv"@ && e != "move"@
        },
    ensures
        !recursive_delete_or_move_spec(command, cwd),
{
    let s = command_segments_spec(command);
    assert forall|i: int| 0 <= i < s.len() implies !segment_unverified(#[trigger] s[i], cwd) by {
        let e = executable_name_spec(s[i][0]);
        assert(e != "remove-item"@ && e != "rm"@ && e != "rmdir"@ && e != "move-item"@ && e != "mv"@ && e != "move"@);
    }
}

} // verus!

