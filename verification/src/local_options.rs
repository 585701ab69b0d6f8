//! Option tails of the local `star installation`, `star integration` and
//! `star update` commands, which run without the Controller.
use vstd::prelude::*;

use crate::text::{chars_of, str_eq, string_from_chars, is_whitespace, is_unicode_whitespace};
use crate::winpath::{parse_path, is_absolute, parse_win_path, path_is_absolute};
use crate::cli::string_texts;
use crate::hook::concat_str;

verus! {

// ----------------------------------------------------------------------
// Trimming.
// ----------------------------------------------------------------------

/// Number of leading whitespace characters.
pub open spec fn leading_ws(s: Seq<char>) -> nat
    decreases s.len(),
{
    if s.len() > 0 && is_unicode_whitespace(s[0]) {
        1 + leading_ws(s.drop_first())
    } else {
        0
    }
}

/// Number of trailing whitespace characters.
pub open spec fn trailing_ws(s: Seq<char>) -> nat
    decreases s.len(),
{
    if s.len() > 0 && is_unicode_whitespace(s.last()) {
        1 + trailing_ws(s.drop_last())
    } else {
        0
    }
}

/// `str::trim`: the text without leading and trailing whitespace.
pub open spec fn trim(s: Seq<char>) -> Seq<char> {
    let rest = s.skip(leading_ws(s) as int);
    rest.take(rest.len() - trailing_ws(rest))
}

proof fn lemma_leading_ws_bound(s: Seq<char>)
    ensures
        leading_ws(s) <= s.len(),
    decreases s.len(),
{
    if s.len() > 0 && is_unicode_whitespace(s[0]) {
        lemma_leading_ws_bound(s.drop_first());
    }
}

proof fn lemma_trailing_ws_bound(s: Seq<char>)
    ensures
        trailing_ws(s) <= s.len(),
    decreases s.len(),
{
    if s.len() > 0 && is_unicode_whitespace(s.last()) {
        lemma_trailing_ws_bound(s.drop_last());
    }
}

/// The characters of `s` without leading and trailing whitespace.
pub fn trim_chars(s: &[char]) -> (result: Vec<char>)
    ensures
        result@ == trim(s@),
{
    let n = s.len();
    let mut i: usize = 0;
    assert(s@.skip(0) =~= s@);
    while i < n && is_whitespace(s[i])
        invariant
            n == s@.len(),
            i <= n,
            leading_ws(s@) == i + leading_ws(s@.skip(i as int)),
        decreases n - i,
    {
        assert(s@.skip(i as int)[0] == s@[i as int]);
        assert(s@.skip(i as int).drop_first() =~= s@.skip(i + 1));
        i = i + 1;
    }
    proof {
        if i < n {
            assert(s@.skip(i as int)[0] == s@[i as int]);
        }
    }
    let ghost rest = s@.skip(i as int);
    let mut j: usize = n;
    assert(rest.take(rest.len() as int) =~= rest);
    while j > i && is_whitespace(s[j - 1])
        invariant
            n == s@.len(),
            i <= j <= n,
            rest == s@.skip(i as int),
            trailing_ws(rest) == (n - j) + trailing_ws(rest.take(j - i)),
        decreases j,
    {
        let ghost t = rest.take(j - i);
        assert(t.last() == s@[j - 1]);
        assert(t.drop_last() =~= rest.take(j - 1 - i));
        j = j - 1;
    }
    proof {
        if j > i {
            assert(rest.take(j - i).last() == s@[j - 1]);
        }
        lemma_trailing_ws_bound(rest);
    }
    let mut out: Vec<char> = Vec::new();
    let mut k: usize = i;
    while k < j
        invariant
            i <= k <= j <= n,
            n == s@.len(),
            out@ == s@.subrange(i as int, k as int),
        decreases j - k,
    {
        out.push(s[k]);
        assert(s@.subrange(i as int, k + 1) =~= s@.subrange(i as int, k as int).push(s@[k as int]));
        k = k + 1;
    }
    assert(out@ =~= rest.take(rest.len() - trailing_ws(rest)));
    out
}

/// A state generation id: trimmed, non-empty and at most 128 characters.
pub open spec fn bounded_generation_id(value: Seq<char>) -> Option<Seq<char>> {
    let t = trim(value);
    if t.len() == 0 || t.len() > 128 { None } else { Some(t) }
}

/// `installation bridge initialize --state-generation <id>`.
pub fn parse_bootstrap_state_generation(tail: &[String]) -> (result: Result<String, String>)
    ensures
        ({
            let t = string_texts(tail@);
            if t.len() == 2 && t[0] == "--state-generation"@ {
                match bounded_generation_id(t[1]) {
                    Some(id) => result matches Ok(r) && r@ == id,
                    None => result matches Err(e) && e@ == "--state-generation must be a bounded non-empty id"@,
                }
            } else {
                result matches Err(e) && e@ == "installation bridge initialize requires --state-generation <id>"@
            }
        }),
{
    if tail.len() == 2 && str_eq(tail[0].as_str(), "--state-generation") {
        assert(string_texts(tail@)[0] == tail@[0]@);
        assert(string_texts(tail@)[1] == tail@[1]@);
        let value = trim_chars(chars_of(tail[1].as_str()).as_slice());
        if value.len() == 0 || value.len() > 128 {
            Err("--state-generation must be a bounded non-empty id".to_owned())
        } else {
            Ok(string_from_chars(value.as_slice()))
        }
    } else {
        proof {
            if tail@.len() == 2 {
                assert(string_texts(tail@)[0] == tail@[0]@);
            }
        }
        Err("installation bridge initialize requires --state-generation <id>".to_owned())
    }
}

// ----------------------------------------------------------------------
// `integration install|repair|uninstall` options.
// ----------------------------------------------------------------------

/// Reads `--codex <path>` and, when allowed, `--skip-register`, each at
/// most once, from position `i` on.
pub open spec fn integration_scan(
    tail: Seq<Seq<char>>,
    allow_skip: bool,
    i: int,
    codex: Option<Seq<char>>,
    skip: bool,
) -> Result<(Option<Seq<char>>, bool), Seq<char>>
    decreases tail.len() - i,
{
    if i < 0 || i >= tail.len() {
        Ok((codex, skip))
    } else if tail[i] == "--codex"@ {
        if codex is Some || i + 1 >= tail.len() {
            Err("--codex requires one executable path"@)
        } else {
            integration_scan(tail, allow_skip, i + 2, Some(tail[i + 1]), skip)
        }
    } else if tail[i] == "--skip-register"@ && allow_skip && !skip {
        integration_scan(tail, allow_skip, i + 1, codex, true)
    } else {
        Err("unknown or duplicate option: "@ + tail[i])
    }
}

pub fn parse_integration_options(tail: &[String], allow_skip: bool) -> (result: Result<(Option<String>, bool), String>)
    ensures
        match integration_scan(string_texts(tail@), allow_skip, 0, None, false) {
            Ok((codex, skip)) => result matches Ok((rc, rs)) && rs == skip
                && (match rc { Some(c) => Some(c@), None => None }) == codex,
            Err(e) => result matches Err(r) && r@ == e,
        },
{
    let ghost t = string_texts(tail@);
    let mut codex: Option<String> = None;
    let mut skip_register = false;
    let mut index: usize = 0;
    while index < tail.len()
        invariant
            index <= tail@.len(),
            t == string_texts(tail@),
            t.len() == tail@.len(),
            integration_scan(t, allow_skip, 0, None, false) == integration_scan(
                t,
                allow_skip,
                index as int,
                match codex { Some(c) => Some(c@), None => None },
                skip_register,
            ),
        decreases tail@.len() - index,
    {
        let token = tail[index].as_str();
        assert(t[index as int] == token@);
        if str_eq(token, "--codex") {
            if codex.is_some() || index + 1 >= tail.len() {
                return Err("--codex requires one executable path".to_owned());
            }
            assert(t[index + 1] == tail@[index + 1]@);
            codex = Some(tail[index + 1].clone());
            index = index + 2;
        } else if str_eq(token, "--skip-register") && allow_skip && !skip_register {
            skip_register = true;
            index = index + 1;
        } else {
            return Err(concat_str("unknown or duplicate option: ", token));
        }
    }
    Ok((codex, skip_register))
}

// ----------------------------------------------------------------------
// `update offline-installer-restart` options.
// ----------------------------------------------------------------------

pub open spec fn is_absolute_text(s: Seq<char>) -> bool {
    is_absolute(parse_path(s))
}

pub fn is_absolute_path_text(s: &str) -> (result: bool)
    ensures
        result == is_absolute_text(s@),
{
    let chars = chars_of(s);
    path_is_absolute(&parse_win_path(chars.as_slice()))
}

pub struct RestartPaths {
    pub install_root: Option<Seq<char>>,
    pub installer: Option<Seq<char>>,
    pub codex_desktop: Option<Seq<char>>,
}

/// Reads the `--install-root`, `--installer` and `--codex-desktop` pairs,
/// each at most once and each an absolute path, from position `i` on.
pub open spec fn restart_scan(tail: Seq<Seq<char>>, i: int, found: RestartPaths) -> Result<RestartPaths, Seq<char>>
    decreases tail.len() - i,
{
    if i < 0 || i >= tail.len() {
        Ok(found)
    } else if i + 1 >= tail.len() {
        Err(tail[i] + " requires one value"@)
    } else {
        let name = tail[i];
        let value = tail[i + 1];
        if name == "--install-root"@ && found.install_root is None {
            if !is_absolute_text(value) {
                Err("--install-root must be an absolute path"@)
            } else {
                restart_scan(tail, i + 2, RestartPaths { install_root: Some(value), ..found })
            }
        } else if name == "--installer"@ && found.installer is None {
            if !is_absolute_text(value) {
                Err("--installer must be an absolute path"@)
            } else {
                restart_scan(tail, i + 2, RestartPaths { installer: Some(value), ..found })
            }
        } else if name == "--codex-desktop"@ && found.codex_desktop is None {
            if !is_absolute_text(value) {
                Err("--codex-desktop must be an absolute path"@)
            } else {
                restart_scan(tail, i + 2, RestartPaths { codex_desktop: Some(value), ..found })
            }
        } else {
            Err("unknown or duplicate option: "@ + name)
        }
    }
}

/// The three paths an offline installer restart needs, in the order
/// install root, installer, Codex desktop.
pub open spec fn offline_restart_spec(tail: Seq<Seq<char>>) -> Result<(Seq<char>, Seq<char>, Seq<char>), Seq<char>> {
    match restart_scan(tail, 0, RestartPaths { install_root: None, installer: None, codex_desktop: None }) {
        Err(e) => Err(e),
        Ok(found) => match found.install_root {
            None => Err("offline installer restart requires --install-root <absolute-path>"@),
            Some(root) => match found.installer {
                None => Err("offline installer restart requires --installer <absolute-path>"@),
                Some(installer) => match found.codex_desktop {
                    None => Err("offline installer restart requires --codex-desktop <absolute-path>"@),
                    Some(desktop) => Ok((root, installer, desktop)),
                },
            },
        },
    }
}

pub open spec fn opt_view(v: Option<String>) -> Option<Seq<char>> {
    match v {
        Some(s) => Some(s@),
        None => None,
    }
}

pub fn parse_offline_installer_restart_options(tail: &[String]) -> (result: Result<(String, String, String), String>)
    ensures
        match offline_restart_spec(string_texts(tail@)) {
            Ok((root, installer, desktop)) => result matches Ok((r, i, d)) && r@ == root && i@ == installer && d@ == desktop,
            Err(e) => result matches Err(r) && r@ == e,
        },
{
    let ghost t = string_texts(tail@);
    let mut install_root: Option<String> = None;
    let mut installer: Option<String> = None;
    let mut codex_desktop: Option<String> = None;
    let mut index: usize = 0;
    while index < tail.len()
        invariant
            t == string_texts(tail@),
            t.len() == tail@.len(),
            restart_scan(t, 0, RestartPaths { install_root: None, installer: None, codex_desktop: None }) == restart_scan(
                t,
                index as int,
                RestartPaths {
                    install_root: opt_view(install_root),
                    installer: opt_view(installer),
                    codex_desktop: opt_view(codex_desktop),
                },
            ),
        decreases tail@.len() - index,
    {
        assert(t[index as int] == tail@[index as int]@);
        if index + 1 >= tail.len() {
            return Err(concat_str(tail[index].as_str(), " requires one value"));
        }
        assert(t[index + 1] == tail@[index + 1]@);
        let name = tail[index].as_str();
        let value = tail[index + 1].as_str();
        if str_eq(name, "--install-root") && install_root.is_none() {
            if !is_absolute_path_text(value) {
                return Err("--install-root must be an absolute path".to_owned());
            }
            install_root = Some(value.to_owned());
        } else if str_eq(name, "--installer") && installer.is_none() {
            if !is_absolute_path_text(value) {
                return Err("--installer must be an absolute path".to_owned());
            }
            installer = Some(value.to_owned());
        } else if str_eq(name, "--codex-desktop") && codex_desktop.is_none() {
            if !is_absolute_path_text(value) {
                return Err("--codex-desktop must be an absolute path".to_owned());
            }
            codex_desktop = Some(value.to_owned());
        } else {
            return Err(concat_str("unknown or duplicate option: ", name));
        }
        index = index + 2;
    }
    let root = match install_root {
        Some(r) => r,
        None => return Err("offline installer restart requires --install-root <absolute-path>".to_owned()),
    };
    let installer = match installer {
        Some(i) => i,
        None => return Err("offline installer restart requires --installer <absolute-path>".to_owned()),
    };
    let desktop = match codex_desktop {
        Some(d) => d,
        None => return Err("offline installer restart requires --codex-desktop <absolute-path>".to_owned()),
    };
    Ok((root, installer, desktop))
}

} // verus!
