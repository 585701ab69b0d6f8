use vstd::prelude::*;

verus! {

/// Observed ownership of the current-user Run value.
#[derive(Clone, Copy, Debug, PartialEq, Eq)]
pub enum AutostartState {
    Missing,
    Owned,
    Conflict,
}

/// The single registry change an enable or disable request may make.
#[derive(Clone, Copy, Debug, PartialEq, Eq)]
pub enum AutostartMutation {
    Noop,
    SetOwned,
    DeleteOwned,
    Conflict,
}

#[derive(Clone, Copy, Debug, PartialEq, Eq)]
pub enum AutostartError {
    Registry,
    Conflict,
}

pub open spec fn spec_decide_mutation(current: Option<Seq<char>>, expected: Seq<char>, enable: bool) -> AutostartMutation {
    match current {
        None => if enable { AutostartMutation::SetOwned } else { AutostartMutation::Noop },
        Some(value) => if value == expected {
            if enable { AutostartMutation::Noop } else { AutostartMutation::DeleteOwned }
        } else {
            AutostartMutation::Conflict
        },
    }
}

pub open spec fn opt_str_view(value: Option<&str>) -> Option<Seq<char>> {
    match value {
        None => None,
        Some(s) => Some(s@),
    }
}

/// Decides what an enable (`enable == true`) or disable request does to the
/// current Run value.  A value that is not exactly the expected command is
/// foreign and is never changed.
pub fn decide_mutation(current: Option<&str>, expected: &str, enable: bool) -> (result: AutostartMutation)
    ensures
        result == spec_decide_mutation(opt_str_view(current), expected@, enable),
{
    match current {
        None => if enable { AutostartMutation::SetOwned } else { AutostartMutation::Noop },
        Some(value) => {
            if crate::text::str_eq(value, expected) {
                if enable { AutostartMutation::Noop } else { AutostartMutation::DeleteOwned }
            } else {
                AutostartMutation::Conflict
            }
        },
    }
}

/// The Run value that starts the Controller at logon: the canonical
/// Controller path in quotes, then `--background`.
pub open spec fn expected_command_spec(canonical: Seq<char>) -> Seq<char> {
    seq!['"'] + canonical + "\" --background"@
}

/// The Run value for the Controller at `canonical_controller`, its path
/// after canonicalization; `None` (canonicalization failed) is a registry
/// error.
pub fn expected_command(canonical_controller: Option<&str>) -> (result: Result<String, AutostartError>)
    ensures
        match canonical_controller {
            Some(path) => result matches Ok(c) && c@ == expected_command_spec(path@),
            None => result == Err::<String, AutostartError>(AutostartError::Registry),
        },
{
    match canonical_controller {
        Some(path) => {
            let mut command = String::new();
            crate::text::string_push(&mut command, '"');
            command.append(path);
            command.append("\" --background");
            assert(command@ =~= expected_command_spec(path@));
            Ok(command)
        },
        None => Err(AutostartError::Registry),
    }
}

pub open spec fn status_spec(current: Option<Seq<char>>, expected: Seq<char>) -> AutostartState {
    match current {
        None => AutostartState::Missing,
        Some(value) => if value == expected { AutostartState::Owned } else { AutostartState::Conflict },
    }
}

/// Ownership of the current Run value `current` (`None` when absent).
pub fn status(current: Option<&str>, expected: &str) -> (result: AutostartState)
    ensures
        result == status_spec(opt_str_view(current), expected@),
{
    match current {
        None => AutostartState::Missing,
        Some(value) => if crate::text::str_eq(value, expected) { AutostartState::Owned } else { AutostartState::Conflict },
    }
}

/// Enabling never deletes the Run value, and disabling never writes it.
pub proof fn law_enable_never_deletes_and_disable_never_sets(current: Option<Seq<char>>, expected: Seq<char>)
    ensures
        spec_decide_mutation(current, expected, true) != AutostartMutation::DeleteOwned,
        spec_decide_mutation(current, expected, false) != AutostartMutation::SetOwned,
{
}

/// A Run value that is not exactly the Controller's command belongs to
/// another owner: neither enable nor disable changes it, both report a
/// conflict.
pub proof fn law_foreign_value_is_never_changed(value: Seq<char>, expected: Seq<char>, enable: bool)
    requires
        value != expected,
    ensures
        spec_decide_mutation(Some(value), expected, enable) == AutostartMutation::Conflict,
        status_spec(Some(value), expected) == AutostartState::Conflict,
{
}

/// Enabling is idempotent: once the Run value is owned, enabling again
/// changes nothing, and only an owned value is ever deleted.
pub proof fn law_mutations_follow_ownership(current: Option<Seq<char>>, expected: Seq<char>)
    ensures
        (spec_decide_mutation(current, expected, true) == AutostartMutation::Noop)
            <==> (status_spec(current, expected) == AutostartState::Owned),
        (spec_decide_mutation(current, expected, false) == AutostartMutation::DeleteOwned)
            <==> (status_spec(current, expected) == AutostartState::Owned),
        (spec_decide_mutation(current, expected, true) == AutostartMutation::SetOwned)
            <==> (status_spec(current, expected) == AutostartState::Missing),
{
}

// ----------------------------------------------------------------------
// Decoding the Run value.
// ----------------------------------------------------------------------

/// The little-endian 16-bit words of `raw`, which has an even length.
pub open spec fn le_words(raw: Seq<u8>) -> Seq<u16> {
    Seq::new(raw.len() / 2, |i: int| (raw[2 * i] + 256 * raw[2 * i + 1]) as u16)
}

/// The words before the first NUL word.
pub open spec fn until_nul(w: Seq<u16>) -> Seq<u16>
    decreases w.len(),
{
    if w.len() == 0 || w[0] == 0 {
        Seq::empty()
    } else {
        seq![w[0]] + until_nul(w.drop_first())
    }
}

pub open spec fn is_high_surrogate(u: u16) -> bool {
    0xD800 <= u && u <= 0xDBFF
}

pub open spec fn is_low_surrogate(u: u16) -> bool {
    0xDC00 <= u && u <= 0xDFFF
}

/// UTF-16 decoding; `None` for an unpaired surrogate.
pub open spec fn utf16_decode(w: Seq<u16>) -> Option<Seq<char>>
    decreases w.len(),
{
    if w.len() == 0 {
        Some(Seq::empty())
    } else if !is_high_surrogate(w[0]) && !is_low_surrogate(w[0]) {
        match utf16_decode(w.drop_first()) {
            Some(rest) => Some(seq![(w[0] as u32) as char] + rest),
            None => None,
        }
    } else if is_high_surrogate(w[0]) && w.len() >= 2 && is_low_surrogate(w[1]) {
        match utf16_decode(w.skip(2)) {
            Some(rest) => Some(seq![(0x10000 + (w[0] - 0xD800) * 0x400 + (w[1] - 0xDC00)) as char] + rest),
            None => None,
        }
    } else {
        None
    }
}

/// `char::from_u32`.  Trusted: `Some` holds the character whose code is
/// `u`; `None` comes only for a surrogate or a value above U+10FFFF.
#[verifier::external_body]
fn char_from_u32(u: u32) -> (result: Option<char>)
    ensures
        match result {
            Some(c) => c as u32 == u,
            None => (0xD800 <= u && u <= 0xDFFF) || u > 0x10FFFF,
        },
{
    char::from_u32(u)
}

/// The text of a Run value read from the registry: it must be a string
/// value (`is_string`) of whole 16-bit words; it ends at the first NUL word
/// and must be valid UTF-16.
pub open spec fn run_value_text(is_string: bool, raw: Seq<u8>) -> Option<Seq<char>> {
    if !is_string || raw.len() % 2 != 0 {
        None
    } else {
        utf16_decode(until_nul(le_words(raw)))
    }
}

pub fn decode_run_value(is_string: bool, raw: &[u8]) -> (result: Result<String, AutostartError>)
    ensures
        match run_value_text(is_string, raw@) {
            Some(t) => result matches Ok(s) && s@ == t,
            None => result == Err::<String, AutostartError>(AutostartError::Registry),
        },
{
    if !is_string || raw.len() % 2 != 0 {
        return Err(AutostartError::Registry);
    }
    let ghost all = le_words(raw@);
    let mut words: Vec<u16> = Vec::new();
    let mut i: usize = 0;
    let n = raw.len() / 2;
    let mut stop = false;
    assert(all.skip(0) =~= all);
    while i < n && !stop
        invariant
            n == raw@.len() / 2,
            raw@.len() % 2 == 0,
            raw@.len() <= usize::MAX,
            all == le_words(raw@),
            i <= n,
            stop ==> i < n && all[i as int] == 0,
            until_nul(all) == words@ + until_nul(all.skip(i as int)),
        decreases n - i + (if stop { 0int } else { 1int }),
    {
        assert(2 * i + 1 < raw@.len()) by (nonlinear_arith)
            requires
                i < n,
                n == raw@.len() / 2,
                raw@.len() % 2 == 0,
        ;
        let w: u16 = (raw[2 * i] as u16) + 256 * (raw[2 * i + 1] as u16);
        assert(all[i as int] == w);
        assert(all.skip(i as int)[0] == w);
        if w == 0 {
            stop = true;
        } else {
            assert(all.skip(i as int).drop_first() =~= all.skip(i + 1));
            assert(words@ + until_nul(all.skip(i as int)) =~= words@.push(w) + until_nul(all.skip(i + 1)));
            words.push(w);
            i = i + 1;
        }
    }
    assert(until_nul(all) =~= words@) by {
        if stop {
            assert(all.skip(i as int)[0] == 0);
        } else {
            assert(all.skip(i as int).len() == 0);
        }
    }
    let mut out = String::new();
    let mut j: usize = 0;
    let ghost target = utf16_decode(words@);
    assert(target == run_value_text(is_string, raw@));
    assert(words@.skip(0) =~= words@);
    while j < words.len()
        invariant
            j <= words@.len(),
            target == utf16_decode(words@),
            target == run_value_text(is_string, raw@),
            target == match utf16_decode(words@.skip(j as int)) {
                Some(rest) => Some(out@ + rest),
                None => None::<Seq<char>>,
            },
        decreases words@.len() - j,
    {
        let ghost rest = words@.skip(j as int);
        let u = words[j];
        assert(rest[0] == u);
        assert(rest.len() == words@.len() - j);
        assert(rest.len() >= 2 ==> rest[1] == words@[j + 1]);
        if u < 0xD800 || u > 0xDFFF {
            let c = match char_from_u32(u as u32) {
                Some(c) => c,
                None => return Err(AutostartError::Registry),
            };
            assert(rest.drop_first() =~= words@.skip(j + 1));
            proof {
                vstd::utf8::char_u32_cast(c, u as u32);
            }
            crate::text::string_push(&mut out, c);
            assert(c == (u as u32) as char);
            j = j + 1;
        } else if u <= 0xDBFF && j + 1 < words.len() && words[j + 1] >= 0xDC00 && words[j + 1] <= 0xDFFF {
            let v = words[j + 1];
            assert(rest[1] == v);
            let code: u32 = 0x10000 + ((u - 0xD800) as u32) * 0x400 + ((v - 0xDC00) as u32);
            let c = match char_from_u32(code) {
                Some(c) => c,
                None => return Err(AutostartError::Registry),
            };
            assert(rest.skip(2) =~= words@.skip(j + 2));
            proof {
                vstd::utf8::char_u32_cast(c, code);
            }
            crate::text::string_push(&mut out, c);
            j = j + 2;
        } else {
            assert(is_high_surrogate(u) || is_low_surrogate(u));
            assert(!(is_high_surrogate(rest[0]) && rest.len() >= 2 && is_low_surrogate(rest[1])));
            assert(utf16_decode(rest) is None);
            return Err(AutostartError::Registry);
        }
    }
    assert(words@.skip(j as int).len() == 0);
    assert(out@ + Seq::<char>::empty() =~= out@);
    Ok(out)
}

} // verus!
