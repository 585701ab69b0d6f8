//! Argument checks shared by the `star` command line: identifier shapes,
//! revisions, and the option tail that follows a command's words.
use vstd::prelude::*;

use crate::keyed::{Keyed, keys_unique, has_key, keyed_map, lemma_key_index, lemma_keyed_push};
use crate::text::{chars_of, str_eq, string_push, starts_with, starts_with_str, is_whitespace, is_unicode_whitespace, contains_char, contains_seq, contains_str};
use crate::hook::concat_str;
use crate::local_command::{is_sha256_text, is_sha256_digest};
use crate::json::{JsonValue, JsonView, json_view, json_members_view, lemma_members_view};

verus! {

// ----------------------------------------------------------------------
// Decimal numbers.
// ----------------------------------------------------------------------

pub open spec fn is_digit(c: char) -> bool {
    '0' <= c && c <= '9'
}

pub open spec fn digit_value(c: char) -> nat {
    (c as u32 - '0' as u32) as nat
}

pub open spec fn digit_char(d: nat) -> char {
    if d == 0 { '0' } else if d == 1 { '1' } else if d == 2 { '2' } else if d == 3 { '3' } else if d == 4 { '4' }
    else if d == 5 { '5' } else if d == 6 { '6' } else if d == 7 { '7' } else if d == 8 { '8' } else { '9' }
}

/// The value of a string of decimal digits.
pub open spec fn digits_value(s: Seq<char>) -> nat
    decreases s.len(),
{
    if s.len() == 0 {
        0
    } else {
        digits_value(s.drop_last()) * 10 + digit_value(s.last())
    }
}

pub open spec fn all_digits(s: Seq<char>) -> bool {
    forall|i: int| 0 <= i < s.len() ==> is_digit(#[trigger] s[i])
}

/// What `str::parse::<u64>` accepts: an optional `+`, then one or more
/// decimal digits whose value fits in 64 bits.
pub open spec fn u64_text(s: Seq<char>) -> Option<nat> {
    let body = if s.len() > 0 && s[0] == '+' { s.drop_first() } else { s };
    if body.len() > 0 && all_digits(body) && digits_value(body) <= u64::MAX {
        Some(digits_value(body))
    } else {
        None
    }
}

/// The decimal text of `n`.
pub open spec fn decimal(n: nat) -> Seq<char>
    decreases n,
{
    if n < 10 {
        seq![digit_char(n)]
    } else {
        decimal(n / 10).push(digit_char(n % 10))
    }
}

proof fn lemma_digits_monotone(s: Seq<char>, i: int, j: int)
    requires
        0 <= i <= j <= s.len(),
    ensures
        digits_value(s.take(i)) <= digits_value(s.take(j)),
    decreases j - i,
{
    if i < j {
        lemma_digits_monotone(s, i, j - 1);
        assert(s.take(j).drop_last() =~= s.take(j - 1));
    }
}

/// Parses an unsigned 64-bit decimal number as `str::parse::<u64>` does.
pub fn parse_u64(text: &str) -> (result: Option<u64>)
    ensures
        match u64_text(text@) {
            Some(v) => result == Some(v as u64),
            None => result is None,
        },
{
    let chars = chars_of(text);
    let start: usize = if chars.len() > 0 && chars[0] == '+' { 1 } else { 0 };
    let ghost body = if text@.len() > 0 && text@[0] == '+' { text@.drop_first() } else { text@ };
    assert(body =~= chars@.skip(start as int));
    if start >= chars.len() {
        assert(body.len() == 0);
        assert(u64_text(text@) is None);
        return None;
    }
    let mut acc: u64 = 0;
    let mut i: usize = start;
    assert(body.take(0) =~= Seq::<char>::empty());
    while i < chars.len()
        invariant
            start <= i <= chars@.len(),
            start < chars@.len(),
            body == chars@.skip(start as int),
            body == (if text@.len() > 0 && text@[0] == '+' { text@.drop_first() } else { text@ }),
            forall|k: int| 0 <= k < i - start ==> is_digit(#[trigger] body[k]),
            acc as nat == digits_value(body.take(i - start)),
        decreases chars@.len() - i,
    {
        let c = chars[i];
        assert(body[i - start] == c);
        if !('0' <= c && c <= '9') {
            assert(!is_digit(body[i - start]));
            assert(!all_digits(body));
            assert(u64_text(text@) is None);
            return None;
        }
        let d: u64 = (c as u32 - '0' as u32) as u64;
        assert(body.take(i - start + 1).drop_last() =~= body.take(i - start));
        let next = match acc.checked_mul(10) {
            Some(m) => m.checked_add(d),
            None => None,
        };
        match next {
            Some(n) => {
                acc = n;
            },
            None => {
                proof {
                    assert(digits_value(body.take(i - start + 1)) > u64::MAX);
                    lemma_digits_monotone(body, i - start + 1, body.len() as int);
                    assert(body.take(body.len() as int) =~= body);
                }
                return None;
            },
        }
        i = i + 1;
    }
    assert(body.take(body.len() as int) =~= body);
    Some(acc)
}

fn digit_to_char(d: u64) -> (result: char)
    requires
        d < 10,
    ensures
        result == digit_char(d as nat),
{
    if d == 0 { '0' } else if d == 1 { '1' } else if d == 2 { '2' } else if d == 3 { '3' } else if d == 4 { '4' }
    else if d == 5 { '5' } else if d == 6 { '6' } else if d == 7 { '7' } else if d == 8 { '8' } else { '9' }
}

/// The decimal text of `n`.
pub fn decimal_string(n: u64) -> (result: String)
    ensures
        result@ == decimal(n as nat),
    decreases n,
{
    if n < 10 {
        let mut s = String::new();
        string_push(&mut s, digit_to_char(n));
        assert(s@ =~= seq![digit_char(n as nat)]);
        s
    } else {
        let mut s = decimal_string(n / 10);
        string_push(&mut s, digit_to_char(n % 10));
        s
    }
}

// ----------------------------------------------------------------------
// Identifier shapes.
// ----------------------------------------------------------------------

pub open spec fn is_lower_hex(c: char) -> bool {
    ('0' <= c && c <= '9') || ('a' <= c && c <= 'f')
}

/// A lowercase Git object id: 40 or 64 lowercase hexadecimal digits.
pub open spec fn is_git_oid(s: Seq<char>) -> bool {
    (s.len() == 40 || s.len() == 64) && forall|i: int| 0 <= i < s.len() ==> is_lower_hex(#[trigger] s[i])
}

fn all_chars(s: &[char], kind: u8) -> (result: bool)
    ensures
        kind == 0 ==> result == (forall|i: int| 0 <= i < s@.len() ==> is_lower_hex(#[trigger] s@[i])),
        kind == 1 ==> result == (forall|i: int| 0 <= i < s@.len() ==> is_profile_char(#[trigger] s@[i])),
        kind == 2 ==> result == (forall|i: int| 0 <= i < s@.len() ==> is_development_char(#[trigger] s@[i])),
{
    let mut i: usize = 0;
    while i < s.len()
        invariant
            i <= s@.len(),
            kind == 0 ==> forall|k: int| 0 <= k < i ==> is_lower_hex(#[trigger] s@[k]),
            kind == 1 ==> forall|k: int| 0 <= k < i ==> is_profile_char(#[trigger] s@[k]),
            kind == 2 ==> forall|k: int| 0 <= k < i ==> is_development_char(#[trigger] s@[k]),
        decreases s@.len() - i,
    {
        let c = s[i];
        let ok = if kind == 0 {
            ('0' <= c && c <= '9') || ('a' <= c && c <= 'f')
        } else if kind == 1 {
            ('a' <= c && c <= 'z') || ('0' <= c && c <= '9') || c == '_'
        } else if kind == 2 {
            ('a' <= c && c <= 'z') || ('A' <= c && c <= 'Z') || ('0' <= c && c <= '9') || c == '.' || c == '-' || c == '_'
                || c == ':'
        } else {
            true
        };
        if !ok {
            return false;
        }
        i = i + 1;
    }
    true
}

/// Accepts a lowercase Git object id; otherwise names `label` in the error.
pub fn validate_git_oid_cli(value: &str, label: &str) -> (result: Result<(), String>)
    ensures
        is_git_oid(value@) ==> result is Ok,
        !is_git_oid(value@) ==> (result matches Err(e) && e@ == label@ + " must be a lowercase Git object id"@),
{
    let chars = chars_of(value);
    if (chars.len() == 40 || chars.len() == 64) && all_chars(chars.as_slice(), 0) {
        Ok(())
    } else {
        Err(concat_str(label, " must be a lowercase Git object id"))
    }
}

pub open spec fn is_profile_char(c: char) -> bool {
    ('a' <= c && c <= 'z') || ('0' <= c && c <= '9') || c == '_'
}

/// A profile id: 1 through 96 lowercase ASCII letters, digits or underscores.
pub open spec fn is_profile_id(s: Seq<char>) -> bool {
    1 <= s.len() <= 96 && forall|i: int| 0 <= i < s.len() ==> is_profile_char(#[trigger] s[i])
}

pub fn validate_profile_id(value: &str) -> (result: Result<(), String>)
    ensures
        is_profile_id(value@) ==> result is Ok,
        !is_profile_id(value@) ==> (result matches Err(e)
            && e@ == "profile-id must use 1 through 96 lowercase ASCII letters, digits, or underscores"@),
{
    let chars = chars_of(value);
    if chars.len() == 0 || chars.len() > 96 || !all_chars(chars.as_slice(), 1) {
        Err("profile-id must use 1 through 96 lowercase ASCII letters, digits, or underscores".to_owned())
    } else {
        Ok(())
    }
}

pub open spec fn is_development_char(c: char) -> bool {
    ('a' <= c && c <= 'z') || ('A' <= c && c <= 'Z') || ('0' <= c && c <= '9') || c == '.' || c == '-' || c == '_'
        || c == ':'
}

/// A development record id: 1 through 256 ASCII letters, digits, `.`, `-`,
/// `_` or `:`.
pub open spec fn is_development_id(s: Seq<char>) -> bool {
    1 <= s.len() <= 256 && forall|i: int| 0 <= i < s.len() ==> is_development_char(#[trigger] s[i])
}

pub fn validate_development_id(value: &str, label: &str) -> (result: Result<(), String>)
    ensures
        is_development_id(value@) ==> result is Ok,
        !is_development_id(value@) ==> (result matches Err(e)
            && e@ == label@ + " must use 1 through 256 ASCII identifier characters"@),
{
    let chars = chars_of(value);
    if chars.len() == 0 || chars.len() > 256 || !all_chars(chars.as_slice(), 2) {
        Err(concat_str(label, " must use 1 through 256 ASCII identifier characters"))
    } else {
        Ok(())
    }
}

/// An idempotency key: not blank, at most 128 characters, free of NUL.
pub open spec fn is_idempotency_key(s: Seq<char>) -> bool {
    &&& exists|i: int| 0 <= i < s.len() && !is_unicode_whitespace(#[trigger] s[i])
    &&& s.len() <= 128
    &&& !s.contains('\0')
}

pub fn validate_idempotency_key(value: &str) -> (result: Result<(), String>)
    ensures
        is_idempotency_key(value@) ==> result is Ok,
        !is_idempotency_key(value@) ==> (result matches Err(e)
            && e@ == "--idempotency must contain 1 through 128 non-NUL characters"@),
{
    let chars = chars_of(value);
    let mut blank = true;
    let mut i: usize = 0;
    while i < chars.len()
        invariant
            chars@ == value@,
            i <= chars@.len(),
            blank == (forall|k: int| 0 <= k < i ==> is_unicode_whitespace(#[trigger] chars@[k])),
        decreases chars@.len() - i,
    {
        if !is_whitespace(chars[i]) {
            blank = false;
        }
        i = i + 1;
    }
    if blank || chars.len() > 128 || contains_char(chars.as_slice(), '\0') {
        Err("--idempotency must contain 1 through 128 non-NUL characters".to_owned())
    } else {
        Ok(())
    }
}

/// A revision: a positive decimal number.
pub fn parse_positive_revision(value: &str) -> (result: Result<u64, String>)
    ensures
        match u64_text(value@) {
            Some(v) => if v > 0 { result == Ok::<u64, String>(v as u64) } else { result matches Err(e) && e@ == "--revision must be a positive integer"@ },
            None => result matches Err(e) && e@ == "--revision must be a positive integer"@,
        },
{
    match parse_u64(value) {
        Some(v) => if v > 0 { Ok(v) } else { Err("--revision must be a positive integer".to_owned()) },
        None => Err("--revision must be a positive integer".to_owned()),
    }
}

// ----------------------------------------------------------------------
// The option tail.
// ----------------------------------------------------------------------

/// One option of a command tail: a flag, or a value option and its value.
pub struct CliOption {
    pub name: String,
    pub value: Option<String>,
}

impl Keyed for CliOption {
    open spec fn key(&self) -> Seq<char> {
        self.name@
    }
}

pub open spec fn opt_text(v: Option<String>) -> Option<Seq<char>> {
    match v {
        Some(s) => Some(s@),
        None => None,
    }
}

/// The options of a command tail, each named once.
pub struct CliOptions {
    pub entries: Vec<CliOption>,
}

impl CliOptions {
    pub open spec fn wf(&self) -> bool {
        keys_unique(self.entries@)
    }

    /// Each option name with its value (`None` for a flag).
    pub open spec fn map(&self) -> Map<Seq<char>, Option<Seq<char>>> {
        keyed_map(self.entries@).map_values(|o: CliOption| opt_text(o.value))
    }

    pub fn new() -> (result: Self)
        ensures
            result.wf(),
            result.map() == Map::<Seq<char>, Option<Seq<char>>>::empty(),
    {
        let result = CliOptions { entries: Vec::new() };
        assert(result.map() =~= Map::<Seq<char>, Option<Seq<char>>>::empty());
        result
    }

    /// The option named `name`: `None` when absent, `Some(None)` for a
    /// flag, `Some(Some(value))` for a value option.
    pub fn get(&self, name: &str) -> (result: Option<Option<String>>)
        requires
            self.wf(),
        ensures
            match result {
                None => !self.map().contains_key(name@),
                Some(v) => self.map().contains_key(name@) && self.map()[name@] == opt_text(v),
            },
    {
        let mut i: usize = 0;
        while i < self.entries.len()
            invariant
                i <= self.entries@.len(),
                keys_unique(self.entries@),
                forall|k: int| 0 <= k < i ==> (#[trigger] self.entries@[k]).name@ != name@,
            decreases self.entries@.len() - i,
        {
            if str_eq(self.entries[i].name.as_str(), name) {
                proof {
                    lemma_key_index(self.entries@, i as int);
                }
                return Some(self.entries[i].value.clone());
            }
            i = i + 1;
        }
        proof {
            if has_key(self.entries@, name@) {
                let j = choose|j: int| 0 <= j < self.entries@.len() && #[trigger] self.entries@[j].key() == name@;
                assert(self.entries@[j].name@ == name@);
            }
        }
        None
    }

    fn insert_new(&mut self, name: String, value: Option<String>)
        requires
            old(self).wf(),
            !old(self).map().contains_key(name@),
        ensures
            final(self).wf(),
            final(self).map() == old(self).map().insert(name@, opt_text(value)),
    {
        let ghost before = self.entries@;
        let entry = CliOption { name, value };
        assert(!has_key(before, entry.key()));
        self.entries.push(entry);
        proof {
            lemma_keyed_push(before, entry);
            assert(self.map() =~= keyed_map(before).map_values(|o: CliOption| opt_text(o.value)).insert(entry.name@, opt_text(entry.value)));
        }
    }
}

pub open spec fn texts(v: Seq<&str>) -> Seq<Seq<char>> {
    v.map_values(|s: &str| s@)
}

pub open spec fn string_texts(v: Seq<String>) -> Seq<Seq<char>> {
    v.map_values(|s: String| s@)
}

/// Reads the tail from position `i` on, with the positionals and options
/// gathered so far.
pub open spec fn tail_scan(
    tail: Seq<Seq<char>>,
    value_options: Seq<Seq<char>>,
    flag_options: Seq<Seq<char>>,
    i: int,
    positionals: Seq<Seq<char>>,
    options: Map<Seq<char>, Option<Seq<char>>>,
) -> Result<(Seq<Seq<char>>, Map<Seq<char>, Option<Seq<char>>>), Seq<char>>
    decreases tail.len() - i,
{
    if i < 0 || i >= tail.len() {
        Ok((positionals, options))
    } else {
        let token = tail[i];
        if !starts_with(token, "--"@) {
            tail_scan(tail, value_options, flag_options, i + 1, positionals.push(token), options)
        } else if options.contains_key(token) {
            Err(token + " may be supplied only once"@)
        } else if value_options.contains(token) {
            if i + 1 < tail.len() && !starts_with(tail[i + 1], "--"@) {
                tail_scan(tail, value_options, flag_options, i + 2, positionals, options.insert(token, Some(tail[i + 1])))
            } else {
                Err(token + " requires a value"@)
            }
        } else if flag_options.contains(token) {
            tail_scan(tail, value_options, flag_options, i + 1, positionals, options.insert(token, None))
        } else {
            Err("unknown option: "@ + token)
        }
    }
}

/// Splits a command tail into its positional arguments and its options:
/// each `--name` must be one of `value_options` (followed by a value that
/// does not start with `--`) or one of `flag_options`, and may appear once.
pub open spec fn parse_tail_spec(tail: Seq<Seq<char>>, value_options: Seq<Seq<char>>, flag_options: Seq<Seq<char>>) -> Result<
    (Seq<Seq<char>>, Map<Seq<char>, Option<Seq<char>>>),
    Seq<char>,
> {
    tail_scan(tail, value_options, flag_options, 0, Seq::empty(), Map::empty())
}

fn str_in(list: &[&str], s: &str) -> (result: bool)
    ensures
        result == texts(list@).contains(s@),
{
    let mut i: usize = 0;
    while i < list.len()
        invariant
            i <= list@.len(),
            forall|k: int| 0 <= k < i ==> list@[k]@ != s@,
        decreases list@.len() - i,
    {
        if str_eq(list[i], s) {
            assert(texts(list@)[i as int] == s@);
            return true;
        }
        i = i + 1;
    }
    proof {
        if texts(list@).contains(s@) {
            let k = choose|k: int| 0 <= k < texts(list@).len() && texts(list@)[k] == s@;
            assert(list@[k]@ == s@);
        }
    }
    false
}

pub fn parse_tail(tail: &[String], value_options: &[&str], flag_options: &[&str]) -> (result: Result<
    (Vec<String>, CliOptions),
    String,
>)
    ensures
        match parse_tail_spec(string_texts(tail@), texts(value_options@), texts(flag_options@)) {
            Ok((p, o)) => result matches Ok((rp, ro)) && string_texts(rp@) == p && ro.wf() && ro.map() == o,
            Err(e) => result matches Err(r) && r@ == e,
        },
{
    let ghost t = string_texts(tail@);
    let ghost vo = texts(value_options@);
    let ghost fo = texts(flag_options@);
    let mut positionals: Vec<String> = Vec::new();
    let mut options = CliOptions::new();
    let mut index: usize = 0;
    assert(string_texts(positionals@) =~= Seq::<Seq<char>>::empty());
    while index < tail.len()
        invariant
            index <= tail@.len(),
            t == string_texts(tail@),
            vo == texts(value_options@),
            fo == texts(flag_options@),
            t.len() == tail@.len(),
            options.wf(),
            tail_scan(t, vo, fo, 0, Seq::empty(), Map::empty()) == tail_scan(
                t,
                vo,
                fo,
                index as int,
                string_texts(positionals@),
                options.map(),
            ),
        decreases tail@.len() - index,
    {
        let token = &tail[index];
        assert(t[index as int] == token@);
        if !starts_with_str(token.as_str(), "--") {
            let ghost before = positionals@;
            positionals.push(token.clone());
            assert(string_texts(positionals@) =~= string_texts(before).push(token@));
            index = index + 1;
            continue;
        }
        if options.get(token.as_str()).is_some() {
            assert(tail_scan(t, vo, fo, index as int, string_texts(positionals@), options.map()) == Err::<
                (Seq<Seq<char>>, Map<Seq<char>, Option<Seq<char>>>),
                Seq<char>,
            >(token@ + " may be supplied only once"@));
            return Err(concat_str(token.as_str(), " may be supplied only once"));
        }
        if str_in(value_options, token.as_str()) {
            if index + 1 < tail.len() && !starts_with_str(tail[index + 1].as_str(), "--") {
                assert(t[index + 1] == tail@[index + 1]@);
                options.insert_new(token.clone(), Some(tail[index + 1].clone()));
                index = index + 2;
            } else {
                assert(tail_scan(t, vo, fo, index as int, string_texts(positionals@), options.map()) == Err::<
                    (Seq<Seq<char>>, Map<Seq<char>, Option<Seq<char>>>),
                    Seq<char>,
                >(token@ + " requires a value"@));
                return Err(concat_str(token.as_str(), " requires a value"));
            }
        } else if str_in(flag_options, token.as_str()) {
            options.insert_new(token.clone(), None);
            index = index + 1;
        } else {
            return Err(concat_str("unknown option: ", token.as_str()));
        }
    }
    Ok((positionals, options))
}

/// The value of option `name`, which the command requires.
pub fn required_option(options: &CliOptions, name: &str) -> (result: Result<String, String>)
    requires
        options.wf(),
    ensures
        match options.map().get(name@) {
            Some(Some(v)) => result matches Ok(r) && r@ == v,
            _ => result matches Err(e) && e@ == "command requires "@ + name@,
        },
{
    match options.get(name) {
        Some(Some(v)) => Ok(v),
        _ => Err(concat_str("command requires ", name)),
    }
}

/// The value of option `name`, which the command requires to be a SHA-256
/// digest.
pub fn required_sha256_option(options: &CliOptions, name: &str) -> (result: Result<String, String>)
    requires
        options.wf(),
    ensures
        match options.map().get(name@) {
            Some(Some(v)) => if is_sha256_text(v) {
                result matches Ok(r) && r@ == v
            } else {
                result matches Err(e) && e@ == name@ + " must be an exact lowercase sha256"@
            },
            _ => result matches Err(e) && e@ == "command requires "@ + name@,
        },
{
    let value = match required_option(options, name) {
        Ok(v) => v,
        Err(e) => return Err(e),
    };
    if is_sha256_digest(value.as_str()) {
        Ok(value)
    } else {
        Err(concat_str(name, " must be an exact lowercase sha256"))
    }
}

/// The `--revision` option, 1 when absent or given as a bare flag.
pub fn development_revision(options: &CliOptions) -> (result: Result<u64, String>)
    requires
        options.wf(),
    ensures
        match options.map().get("--revision"@) {
            Some(Some(v)) => match u64_text(v) {
                Some(n) => if n > 0 { result == Ok::<u64, String>(n as u64) } else { result matches Err(e) && e@ == "--revision must be a positive integer"@ },
                None => result matches Err(e) && e@ == "--revision must be a positive integer"@,
            },
            _ => result == Ok::<u64, String>(1),
        },
{
    match options.get("--revision") {
        Some(Some(v)) => parse_positive_revision(v.as_str()),
        _ => Ok(1),
    }
}

/// Requires exactly `expected` positional arguments.
pub fn require_positionals(values: &[String], expected: usize, command: &str) -> (result: Result<(), String>)
    ensures
        values@.len() == expected ==> result is Ok,
        values@.len() != expected ==> (result matches Err(e)
            && e@ == command@ + " requires exactly "@ + decimal(expected as nat) + " positional argument(s)"@),
{
    if values.len() == expected {
        Ok(())
    } else {
        let head = concat_str(command, " requires exactly ");
        let count = decimal_string(expected as u64);
        let with_count = concat_str(head.as_str(), count.as_str());
        Err(concat_str(with_count.as_str(), " positional argument(s)"))
    }
}

// ----------------------------------------------------------------------
// Exit codes.
// ----------------------------------------------------------------------

/// The status of a Controller response.
#[derive(Clone, Copy, Debug, PartialEq, Eq, Structural)]
pub enum ResponseStatus {
    /// The `ok` status.
    Success,
    Accepted,
    ApprovalRequired,
    QuestionRequired,
    Blocked,
    Error,
}

/// The process exit code for a Controller response: 0 for success, 3 when
/// a person must decide (approval, question, block, untrusted or policy
/// errors), 6 for protocol or version mismatches, 2 for invalid manifests
/// or arguments, and 4 for any other error.  A missing error code counts as
/// `INTERNAL_UNKNOWN`.
pub open spec fn exit_code_spec(status: ResponseStatus, error_code: Option<Seq<char>>) -> i32 {
    match status {
        ResponseStatus::Success | ResponseStatus::Accepted => 0,
        ResponseStatus::ApprovalRequired | ResponseStatus::QuestionRequired | ResponseStatus::Blocked => 3,
        ResponseStatus::Error => {
            let code = match error_code {
                Some(c) => c,
                None => "INTERNAL_UNKNOWN"@,
            };
            if contains_seq(code, "PROTOCOL"@) || contains_seq(code, "VERSION"@) || contains_seq(code, "INCOMPATIBLE"@) {
                6
            } else if contains_seq(code, "UNTRUSTED"@) || starts_with(code, "POLICY_"@) || contains_seq(code, "APPROVAL"@) {
                3
            } else if contains_seq(code, "MANIFEST"@) || contains_seq(code, "ARGUMENT"@) || contains_seq(code, "SCAFFOLD"@)
                || contains_seq(code, "VALIDATE"@) {
                2
            } else {
                4
            }
        },
    }
}

pub fn exit_code(status: ResponseStatus, error_code: Option<&str>) -> (result: i32)
    ensures
        result == exit_code_spec(status, match error_code { Some(c) => Some(c@), None => None }),
{
    match status {
        ResponseStatus::Success | ResponseStatus::Accepted => 0,
        ResponseStatus::ApprovalRequired | ResponseStatus::QuestionRequired | ResponseStatus::Blocked => 3,
        ResponseStatus::Error => {
            let code = match error_code {
                Some(c) => c,
                None => "INTERNAL_UNKNOWN",
            };
            let chars = chars_of(code);
            let c = chars.as_slice();
            if contains_str(c, "PROTOCOL") || contains_str(c, "VERSION") || contains_str(c, "INCOMPATIBLE") {
                6
            } else if contains_str(c, "UNTRUSTED") || starts_with_str(code, "POLICY_") || contains_str(c, "APPROVAL") {
                3
            } else if contains_str(c, "MANIFEST") || contains_str(c, "ARGUMENT") || contains_str(c, "SCAFFOLD")
                || contains_str(c, "VALIDATE") {
                2
            } else {
                4
            }
        },
    }
}

// ----------------------------------------------------------------------
// JSON input objects.
// ----------------------------------------------------------------------

pub open spec fn member_names(members: Seq<(Seq<char>, JsonView)>) -> Seq<Seq<char>> {
    members.map_values(|m: (Seq<char>, JsonView)| m.0)
}

pub open spec fn member_keys(members: Seq<(Seq<char>, JsonView)>) -> Set<Seq<char>> {
    member_names(members).to_set()
}

/// A JSON input object must have exactly the expected member names.
pub open spec fn object_keys_match(value: JsonView, expected: Seq<Seq<char>>) -> Result<(), Seq<char>> {
    match value {
        JsonView::Object(members) => if member_keys(members) == expected.to_set() {
            Ok(())
        } else {
            Err("JSON input has missing or unknown fields"@)
        },
        _ => Err("JSON input must be an object"@),
    }
}

#[verifier::loop_isolation(false)]
pub fn require_json_object_keys(value: &JsonValue, expected: &[&str]) -> (result: Result<(), String>)
    ensures
        match object_keys_match(value@, texts(expected@)) {
            Ok(_) => result is Ok,
            Err(e) => result matches Err(r) && r@ == e,
        },
{
    let members = match value {
        JsonValue::Object(members) => members,
        _ => return Err("JSON input must be an object".to_owned()),
    };
    let ghost mv = json_members_view(members@);
    let ghost keys = member_keys(mv);
    let ghost wanted = texts(expected@).to_set();
    proof {
        lemma_members_view(members@);
    }
    // Every member name is expected.
    let mut i: usize = 0;
    while i < members.len()
        invariant
            i <= members@.len(),
            mv.len() == members@.len(),
            forall|j: int| 0 <= j < members@.len() ==> #[trigger] mv[j] == (members@[j].key@, json_view(members@[j].value)),
            forall|j: int| 0 <= j < i ==> wanted.contains(#[trigger] mv[j].0),
        decreases members@.len() - i,
    {
        if !str_in(expected, members[i].key.as_str()) {
            proof {
                assert(member_names(mv)[i as int] == members@[i as int].key@);
                assert(keys.contains(members@[i as int].key@));
                assert(!wanted.contains(members@[i as int].key@));
            }
            return Err("JSON input has missing or unknown fields".to_owned());
        }
        i = i + 1;
    }
    // Every expected name is a member.
    let mut k: usize = 0;
    while k < expected.len()
        invariant
            k <= expected@.len(),
            mv.len() == members@.len(),
            forall|j: int| 0 <= j < members@.len() ==> #[trigger] mv[j] == (members@[j].key@, json_view(members@[j].value)),
            forall|j: int| 0 <= j < members@.len() ==> wanted.contains(#[trigger] mv[j].0),
            forall|j: int| 0 <= j < k ==> keys.contains(#[trigger] texts(expected@)[j]),
        decreases expected@.len() - k,
    {
        let mut found = false;
        let mut i: usize = 0;
        while i < members.len()
            invariant
                i <= members@.len(),
                k < expected@.len(),
                found ==> keys.contains(expected@[k as int]@),
                !found ==> forall|j: int| 0 <= j < i ==> members@[j].key@ != expected@[k as int]@,
            decreases members@.len() - i,
        {
            if str_eq(members[i].key.as_str(), expected[k]) {
                proof {
                    assert(member_names(mv)[i as int] == expected@[k as int]@);
                }
                found = true;
            }
            i = i + 1;
        }
        if !found {
            proof {
                assert(texts(expected@)[k as int] == expected@[k as int]@);
                assert(wanted.contains(expected@[k as int]@));
                assert(!keys.contains(expected@[k as int]@)) by {
                    if keys.contains(expected@[k as int]@) {
                        let j = choose|j: int| 0 <= j < mv.len() && #[trigger] member_names(mv)[j] == expected@[k as int]@;
                        assert(members@[j].key@ == expected@[k as int]@);
                    }
                }
                assert(keys != wanted);
            }
            return Err("JSON input has missing or unknown fields".to_owned());
        }
        k = k + 1;
    }
    proof {
        assert forall|x: Seq<char>| keys.contains(x) <==> wanted.contains(x) by {
            if keys.contains(x) {
                let j = choose|j: int| 0 <= j < mv.len() && #[trigger] member_names(mv)[j] == x;
                assert(mv[j].0 == x);
            }
            if wanted.contains(x) {
                let j = choose|j: int| 0 <= j < texts(expected@).len() && #[trigger] texts(expected@)[j] == x;
                assert(keys.contains(texts(expected@)[j]));
            }
        }
        assert(keys =~= wanted);
    }
    Ok(())
}


/// How an error response maps to an exit code, by what its code names:
/// protocol, version and incompatibility errors exit with 6; untrusted,
/// approval and `POLICY_` errors with 3; manifest, argument, scaffold and
/// validation errors with 2; every other error, and an error without a
/// code, with 4.  Success and acceptance exit with 0; approval, question
/// and blocked answers with 3.
pub proof fn law_exit_codes_follow_the_error_classes(status: ResponseStatus, code: Seq<char>)
    ensures
        status == ResponseStatus::Success || status == ResponseStatus::Accepted ==> exit_code_spec(status, Some(code)) == 0,
        status == ResponseStatus::ApprovalRequired || status == ResponseStatus::QuestionRequired
            || status == ResponseStatus::Blocked ==> exit_code_spec(status, Some(code)) == 3,
        status == ResponseStatus::Error ==> {
            let version = contains_seq(code, "PROTOCOL"@) || contains_seq(code, "VERSION"@)
                || contains_seq(code, "INCOMPATIBLE"@);
            let policy = contains_seq(code, "UNTRUSTED"@) || contains_seq(code, "APPROVAL"@)
                || starts_with(code, "POLICY_"@);
            let usage = contains_seq(code, "MANIFEST"@) || contains_seq(code, "ARGUMENT"@)
                || contains_seq(code, "SCAFFOLD"@) || contains_seq(code, "VALIDATE"@);
            &&& version ==> exit_code_spec(status, Some(code)) == 6
            &&& !version && policy ==> exit_code_spec(status, Some(code)) == 3
            &&& !version && !policy && usage ==> exit_code_spec(status, Some(code)) == 2
            &&& !version && !policy && !usage ==> exit_code_spec(status, Some(code)) == 4
        },
{
}

} // verus!
