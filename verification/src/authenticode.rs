//! Offline Authenticode policy: how a WinVerifyTrust outcome becomes
//! evidence, how an executable-identity policy judges that evidence, and
//! the five-minute cache of earlier verdicts.
use vstd::prelude::*;

use crate::text::str_eq;

verus! {

#[derive(Clone, Copy, Debug, PartialEq, Eq, Structural)]
pub enum AuthenticodeStatus {
    NotChecked,
    Valid,
    Unsigned,
    OfflineIndeterminate,
    Invalid,
}

impl AuthenticodeStatus {
    /// The status as it appears in serialized evidence.
    pub fn as_str(self) -> (result: &'static str)
        ensures
            result@ == status_name(self),
    {
        match self {
            AuthenticodeStatus::NotChecked => "not_checked",
            AuthenticodeStatus::Valid => "valid",
            AuthenticodeStatus::Unsigned => "unsigned",
            AuthenticodeStatus::OfflineIndeterminate => "offline_indeterminate",
            AuthenticodeStatus::Invalid => "invalid",
        }
    }
}

pub open spec fn status_name(s: AuthenticodeStatus) -> Seq<char> {
    match s {
        AuthenticodeStatus::NotChecked => "not_checked"@,
        AuthenticodeStatus::Valid => "valid"@,
        AuthenticodeStatus::Unsigned => "unsigned"@,
        AuthenticodeStatus::OfflineIndeterminate => "offline_indeterminate"@,
        AuthenticodeStatus::Invalid => "invalid"@,
    }
}

pub struct AuthenticodeEvidence {
    pub status: AuthenticodeStatus,
    pub subject: Option<String>,
    pub normalized_subject: Option<String>,
    pub network_access: bool,
}

pub struct EvidenceView {
    pub status: AuthenticodeStatus,
    pub subject: Option<Seq<char>>,
    pub normalized_subject: Option<Seq<char>>,
    pub network_access: bool,
}

pub open spec fn opt_text(v: Option<String>) -> Option<Seq<char>> {
    match v {
        Some(s) => Some(s@),
        None => None,
    }
}

impl View for AuthenticodeEvidence {
    type V = EvidenceView;

    open spec fn view(&self) -> EvidenceView {
        EvidenceView {
            status: self.status,
            subject: opt_text(self.subject),
            normalized_subject: opt_text(self.normalized_subject),
            network_access: self.network_access,
        }
    }
}

#[derive(Clone, Copy, Debug, PartialEq, Eq, Structural)]
pub enum AuthenticodeError {
    Invalid,
    SubjectMismatch,
}

impl AuthenticodeError {
    /// The stable error code.
    pub fn code(self) -> (result: &'static str)
        ensures
            result@ == match self {
                AuthenticodeError::Invalid => "TOOL_AUTHENTICODE_INVALID"@,
                AuthenticodeError::SubjectMismatch => "TOOL_AUTHENTICODE_SUBJECT_MISMATCH"@,
            },
    {
        match self {
            AuthenticodeError::Invalid => "TOOL_AUTHENTICODE_INVALID",
            AuthenticodeError::SubjectMismatch => "TOOL_AUTHENTICODE_SUBJECT_MISMATCH",
        }
    }
}

pub type Verdict = Result<AuthenticodeEvidence, AuthenticodeError>;

pub open spec fn verdict_view(v: Verdict) -> Result<EvidenceView, AuthenticodeError> {
    match v {
        Ok(e) => Ok(e@),
        Err(e) => Err(e),
    }
}

fn clone_text(v: &Option<String>) -> (result: Option<String>)
    ensures
        opt_text(result) == opt_text(*v),
{
    match v {
        Some(s) => Some(s.clone()),
        None => None,
    }
}

pub fn clone_evidence(e: &AuthenticodeEvidence) -> (result: AuthenticodeEvidence)
    ensures
        result@ == e@,
{
    AuthenticodeEvidence {
        status: e.status,
        subject: clone_text(&e.subject),
        normalized_subject: clone_text(&e.normalized_subject),
        network_access: e.network_access,
    }
}

fn clone_verdict(v: &Verdict) -> (result: Verdict)
    ensures
        verdict_view(result) == verdict_view(*v),
{
    match v {
        Ok(e) => Ok(clone_evidence(e)),
        Err(e) => Err(*e),
    }
}

// ----------------------------------------------------------------------
// From a WinVerifyTrust outcome to evidence.
// ----------------------------------------------------------------------

/// TRUST_E_NOSIGNATURE (0x800B0100).
pub const TRUST_E_NOSIGNATURE: i32 = -2146762496;
/// CRYPT_E_NO_REVOCATION_CHECK (0x80092013).
pub const CRYPT_E_NO_REVOCATION_CHECK: i32 = -2146885613;
/// CERT_E_REVOCATION_FAILURE (0x800B010E).
pub const CERT_E_REVOCATION_FAILURE: i32 = -2146762482;

pub open spec fn status_from_code_spec(code: i32) -> AuthenticodeStatus {
    if code == 0 {
        AuthenticodeStatus::Valid
    } else if code == TRUST_E_NOSIGNATURE {
        AuthenticodeStatus::Unsigned
    } else if code == CRYPT_E_NO_REVOCATION_CHECK || code == CERT_E_REVOCATION_FAILURE {
        AuthenticodeStatus::OfflineIndeterminate
    } else {
        AuthenticodeStatus::Invalid
    }
}

/// Classifies a WinVerifyTrust result: a missing signature is distinct
/// from a present but invalid one, and a revocation check that could not
/// run offline is indeterminate.
pub fn status_from_code(code: i32) -> (result: AuthenticodeStatus)
    ensures
        result == status_from_code_spec(code),
{
    if code == 0 {
        AuthenticodeStatus::Valid
    } else if code == TRUST_E_NOSIGNATURE {
        AuthenticodeStatus::Unsigned
    } else if code == CRYPT_E_NO_REVOCATION_CHECK || code == CERT_E_REVOCATION_FAILURE {
        AuthenticodeStatus::OfflineIndeterminate
    } else {
        AuthenticodeStatus::Invalid
    }
}

/// The evidence of one verification; no verification touches the network.
pub fn evidence_from_check(code: i32, subject: Option<String>, normalized_subject: Option<String>) -> (result: AuthenticodeEvidence)
    ensures
        result@ == (EvidenceView {
            status: status_from_code_spec(code),
            subject: opt_text(subject),
            normalized_subject: opt_text(normalized_subject),
            network_access: false,
        }),
{
    AuthenticodeEvidence { status: status_from_code(code), subject, normalized_subject, network_access: false }
}

/// The evidence of the `ignore` policy: nothing was checked.
pub fn not_checked_evidence() -> (result: AuthenticodeEvidence)
    ensures
        result@ == (EvidenceView { status: AuthenticodeStatus::NotChecked, subject: None, normalized_subject: None, network_access: false }),
{
    AuthenticodeEvidence { status: AuthenticodeStatus::NotChecked, subject: None, normalized_subject: None, network_access: false }
}

/// The evidence names the expected signer, after normalization.
pub open spec fn subject_matches(e: EvidenceView, expected: Option<Seq<char>>) -> bool {
    expected is Some && e.normalized_subject == expected
}

/// How a policy judges evidence: `record` accepts any evidence;
/// `require_valid` accepts a valid signature; `require_subject` accepts a
/// valid signature whose normalized subject is the expected one; anything
/// else is refused.
pub open spec fn apply_policy_spec(policy: Seq<char>, e: EvidenceView, expected: Option<Seq<char>>) -> Result<
    EvidenceView,
    AuthenticodeError,
> {
    if policy == "record"@ {
        Ok(e)
    } else if policy == "require_valid"@ && e.status == AuthenticodeStatus::Valid {
        Ok(e)
    } else if policy == "require_subject"@ && e.status == AuthenticodeStatus::Valid {
        if subject_matches(e, expected) {
            Ok(e)
        } else {
            Err(AuthenticodeError::SubjectMismatch)
        }
    } else {
        Err(AuthenticodeError::Invalid)
    }
}

fn opt_str_eq(a: &Option<String>, b: Option<&str>) -> (result: bool)
    ensures
        result == (opt_text(*a) == match b { Some(s) => Some(s@), None => None::<Seq<char>> }),
{
    match (a, b) {
        (Some(x), Some(y)) => str_eq(x.as_str(), y),
        (None, None) => true,
        _ => false,
    }
}

pub fn apply_policy(policy: &str, evidence: AuthenticodeEvidence, normalized_expected_subject: Option<&str>) -> (result: Verdict)
    ensures
        verdict_view(result) == apply_policy_spec(
            policy@,
            evidence@,
            match normalized_expected_subject { Some(s) => Some(s@), None => None },
        ),
{
    if str_eq(policy, "record") {
        Ok(evidence)
    } else if str_eq(policy, "require_valid") && evidence.status == AuthenticodeStatus::Valid {
        Ok(evidence)
    } else if str_eq(policy, "require_subject") && evidence.status == AuthenticodeStatus::Valid {
        if normalized_expected_subject.is_some() && opt_str_eq(&evidence.normalized_subject, normalized_expected_subject) {
            Ok(evidence)
        } else {
            Err(AuthenticodeError::SubjectMismatch)
        }
    } else {
        Err(AuthenticodeError::Invalid)
    }
}

// ----------------------------------------------------------------------
// The verdict cache.
// ----------------------------------------------------------------------

/// Cached verdicts live this long, in milliseconds.
pub const SIGNATURE_CACHE_TTL_MILLIS: u64 = 300000;

/// What a verdict was reached for.
pub struct SignatureCacheKey {
    pub executable_hash: String,
    pub policy: String,
    pub normalized_subject: Option<String>,
}

pub struct CacheKeyView {
    pub executable_hash: Seq<char>,
    pub policy: Seq<char>,
    pub normalized_subject: Option<Seq<char>>,
}

impl View for SignatureCacheKey {
    type V = CacheKeyView;

    open spec fn view(&self) -> CacheKeyView {
        CacheKeyView {
            executable_hash: self.executable_hash@,
            policy: self.policy@,
            normalized_subject: opt_text(self.normalized_subject),
        }
    }
}

fn key_eq(a: &SignatureCacheKey, b: &SignatureCacheKey) -> (result: bool)
    ensures
        result == (a@ == b@),
{
    let same_subject = match (&a.normalized_subject, &b.normalized_subject) {
        (Some(x), Some(y)) => str_eq(x.as_str(), y.as_str()),
        (None, None) => true,
        _ => false,
    };
    str_eq(a.executable_hash.as_str(), b.executable_hash.as_str()) && str_eq(a.policy.as_str(), b.policy.as_str())
        && same_subject
}

pub struct CacheEntry {
    pub key: SignatureCacheKey,
    pub inserted_millis: u64,
    pub verdict: Verdict,
}

/// Earlier verdicts, one per key, each with the time it was reached.
pub struct SignatureCache {
    entries: Vec<CacheEntry>,
}

pub open spec fn entry_view(e: CacheEntry) -> (u64, Result<EvidenceView, AuthenticodeError>) {
    (e.inserted_millis, verdict_view(e.verdict))
}

impl SignatureCache {
    pub closed spec fn wf(&self) -> bool {
        forall|i: int, j: int| 0 <= i < j < self.entries@.len() ==> (#[trigger] self.entries@[i]).key@ != (#[trigger] self.entries@[j]).key@
    }

    pub closed spec fn has(&self, k: CacheKeyView) -> bool {
        exists|i: int| 0 <= i < self.entries@.len() && (#[trigger] self.entries@[i]).key@ == k
    }

    /// Each cached key with the time and verdict stored for it.
    pub closed spec fn map(&self) -> Map<CacheKeyView, (u64, Result<EvidenceView, AuthenticodeError>)> {
        Map::new(
            |k: CacheKeyView| self.has(k),
            |k: CacheKeyView| entry_view(self.entries@[choose|i: int| 0 <= i < self.entries@.len() && (#[trigger] self.entries@[i]).key@ == k]),
        )
    }

    pub fn new() -> (result: Self)
        ensures
            result.wf(),
            result.map() == Map::<CacheKeyView, (u64, Result<EvidenceView, AuthenticodeError>)>::empty(),
    {
        let result = SignatureCache { entries: Vec::new() };
        assert(result.map() =~= Map::<CacheKeyView, (u64, Result<EvidenceView, AuthenticodeError>)>::empty());
        result
    }

    proof fn lemma_lookup(&self, i: int)
        requires
            self.wf(),
            0 <= i < self.entries@.len(),
        ensures
            self.map().contains_key(self.entries@[i].key@),
            self.map()[self.entries@[i].key@] == entry_view(self.entries@[i]),
    {
        let k = self.entries@[i].key@;
        assert(self.has(k));
        let j = choose|j: int| 0 <= j < self.entries@.len() && (#[trigger] self.entries@[j]).key@ == k;
        assert(self.entries@[j].key@ == k);
        if j != i {
            if i < j {
                assert(self.entries@[i].key@ != self.entries@[j].key@);
            } else {
                assert(self.entries@[j].key@ != self.entries@[i].key@);
            }
        }
    }

    /// Drops the verdicts older than the time to live.
    pub fn retain_fresh(&mut self, now_millis: u64)
        requires
            old(self).wf(),
        ensures
            final(self).wf(),
            forall|k: CacheKeyView| #[trigger] final(self).map().contains_key(k)
                <==> (old(self).map().contains_key(k) && is_fresh(old(self).map()[k].0, now_millis)),
            forall|k: CacheKeyView| #[trigger] final(self).map().contains_key(k) ==> final(self).map()[k] == old(self).map()[k],
    {
        let ghost before = *self;
        let mut rest: Vec<CacheEntry> = Vec::new();
        std::mem::swap(&mut rest, &mut self.entries);
        let ghost src = rest@;
        let mut kept: Vec<CacheEntry> = Vec::new();
        let ghost mut origin: Seq<int> = Seq::empty();
        while rest.len() > 0
            invariant
                src == before.entries@,
                before.wf(),
                rest@ == src.take(rest@.len() as int),
                rest@.len() <= src.len(),
                origin.len() == kept@.len(),
                forall|a: int| 0 <= a < kept@.len() ==> rest@.len() <= #[trigger] origin[a] < src.len()
                    && kept@[a] == src[origin[a]] && is_fresh(src[origin[a]].inserted_millis, now_millis),
                forall|a: int, b: int| 0 <= a < b < kept@.len() ==> #[trigger] origin[a] > #[trigger] origin[b],
                forall|b: int| rest@.len() <= b < src.len() && is_fresh(src[b].inserted_millis, now_millis)
                    ==> exists|a: int| 0 <= a < kept@.len() && #[trigger] origin[a] == b,
            decreases rest@.len(),
        {
            let ghost m = rest@.len() - 1;
            let ghost old_origin = origin;
            let e = rest.pop().unwrap();
            assert(e == src[m]);
            assert(rest@ =~= src.take(m));
            if now_millis <= e.inserted_millis || now_millis - e.inserted_millis <= SIGNATURE_CACHE_TTL_MILLIS {
                proof {
                    origin = origin.push(m);
                }
                kept.push(e);
            }
            assert forall|b: int| rest@.len() <= b < src.len() && is_fresh(src[b].inserted_millis, now_millis)
                implies exists|a: int| 0 <= a < kept@.len() && #[trigger] origin[a] == b by {
                if b == m {
                    assert(origin[old_origin.len() as int] == b);
                } else {
                    let a = choose|a: int| 0 <= a < old_origin.len() && #[trigger] old_origin[a] == b;
                    assert(origin[a] == b);
                }
            }
        }
        self.entries = kept;
        let ghost after = *self;
        assert forall|a: int, b: int| 0 <= a < b < after.entries@.len() implies (#[trigger] after.entries@[a]).key@ != (#[trigger] after.entries@[b]).key@ by {
            assert(origin[a] > origin[b]);
            assert(src[origin[b]].key@ != src[origin[a]].key@);
        }
        assert forall|k: CacheKeyView| #[trigger] after.map().contains_key(k)
            <==> (before.map().contains_key(k) && is_fresh(before.map()[k].0, now_millis)) by {
            if after.has(k) {
                let a = choose|a: int| 0 <= a < after.entries@.len() && (#[trigger] after.entries@[a]).key@ == k;
                before.lemma_lookup(origin[a]);
            }
            if before.has(k) {
                let b = choose|b: int| 0 <= b < before.entries@.len() && (#[trigger] before.entries@[b]).key@ == k;
                before.lemma_lookup(b);
                if is_fresh(src[b].inserted_millis, now_millis) {
                    let a = choose|a: int| 0 <= a < kept@.len() && #[trigger] origin[a] == b;
                    assert(after.entries@[a].key@ == k);
                }
            }
        }
        assert forall|k: CacheKeyView| #[trigger] after.map().contains_key(k) implies after.map()[k] == before.map()[k] by {
            let a = choose|a: int| 0 <= a < after.entries@.len() && (#[trigger] after.entries@[a]).key@ == k;
            after.lemma_lookup(a);
            before.lemma_lookup(origin[a]);
        }
    }
}

impl SignatureCache {
    /// The verdict cached for `key`, if any.
    pub fn get(&self, key: &SignatureCacheKey) -> (result: Option<Verdict>)
        requires
            self.wf(),
        ensures
            match result {
                Some(v) => self.map().contains_key(key@) && verdict_view(v) == self.map()[key@].1,
                None => !self.map().contains_key(key@),
            },
    {
        let mut i: usize = 0;
        while i < self.entries.len()
            invariant
                self.wf(),
                i <= self.entries@.len(),
                forall|j: int| 0 <= j < i ==> (#[trigger] self.entries@[j]).key@ != key@,
            decreases self.entries@.len() - i,
        {
            if key_eq(&self.entries[i].key, key) {
                proof {
                    self.lemma_lookup(i as int);
                }
                return Some(clone_verdict(&self.entries[i].verdict));
            }
            i = i + 1;
        }
        assert(!self.has(key@));
        None
    }

    /// Stores `verdict` for `key`, reached at `now_millis`, replacing any
    /// earlier verdict for the same key.
    pub fn insert(&mut self, key: SignatureCacheKey, now_millis: u64, verdict: Verdict)
        requires
            old(self).wf(),
        ensures
            final(self).wf(),
            final(self).map() == old(self).map().insert(key@, (now_millis, verdict_view(verdict))),
    {
        let ghost before = *self;
        let ghost kv = key@;
        let ghost vv = (now_millis, verdict_view(verdict));
        let mut i: usize = 0;
        let mut found = false;
        while i < self.entries.len() && !found
            invariant
                *self == before,
                before.wf(),
                kv == key@,
                i <= self.entries@.len(),
                found ==> i < self.entries@.len() && self.entries@[i as int].key@ == kv,
                forall|j: int| 0 <= j < i ==> (#[trigger] self.entries@[j]).key@ != kv,
            decreases self.entries@.len() - i + (if found { 0int } else { 1int }),
        {
            if key_eq(&self.entries[i].key, &key) {
                found = true;
            } else {
                i = i + 1;
            }
        }
        let entry = CacheEntry { key, inserted_millis: now_millis, verdict };
        if i < self.entries.len() {
            self.entries.set(i, entry);
        } else {
            self.entries.push(entry);
        }
        let ghost after = *self;
        assert(after.entries@[i as int] == entry);
        assert forall|a: int, b: int| 0 <= a < b < after.entries@.len() implies (#[trigger] after.entries@[a]).key@ != (#[trigger] after.entries@[b]).key@ by {
            if a != i && b != i {
                assert(after.entries@[a] == before.entries@[a] && after.entries@[b] == before.entries@[b]);
            } else if a == i {
                assert(after.entries@[b] == before.entries@[b]);
                if i < before.entries@.len() {
                    assert(before.entries@[a].key@ == kv);
                }
            } else {
                assert(after.entries@[a] == before.entries@[a]);
                if i < before.entries@.len() {
                    assert(before.entries@[b].key@ == kv);
                }
            }
        }
        let ghost target = before.map().insert(kv, vv);
        assert forall|k: CacheKeyView| #[trigger] after.map().contains_key(k) <==> target.contains_key(k) by {
            if after.has(k) {
                let a = choose|a: int| 0 <= a < after.entries@.len() && (#[trigger] after.entries@[a]).key@ == k;
                if a != i {
                    before.lemma_lookup(a);
                }
            }
            if before.has(k) && k != kv {
                let b = choose|b: int| 0 <= b < before.entries@.len() && (#[trigger] before.entries@[b]).key@ == k;
                assert(b != i);
                assert(after.entries@[b] == before.entries@[b]);
            }
            if k == kv {
                after.lemma_lookup(i as int);
            }
        }
        assert forall|k: CacheKeyView| #[trigger] after.map().contains_key(k) implies after.map()[k] == target[k] by {
            let a = choose|a: int| 0 <= a < after.entries@.len() && (#[trigger] after.entries@[a]).key@ == k;
            after.lemma_lookup(a);
            if a != i {
                assert(after.entries@[a] == before.entries@[a]);
                before.lemma_lookup(a);
            }
        }
        assert(after.map() =~= target);
    }

    /// Forgets every cached verdict.
    /// Whether no verdict is cached.
    pub fn is_empty(&self) -> (result: bool)
        requires
            self.wf(),
        ensures
            result == (self.map() == Map::<CacheKeyView, (u64, Result<EvidenceView, AuthenticodeError>)>::empty()),
    {
        if self.entries.len() == 0 {
            assert(self.map() =~= Map::<CacheKeyView, (u64, Result<EvidenceView, AuthenticodeError>)>::empty());
            true
        } else {
            proof {
                self.lemma_lookup(0);
            }
            false
        }
    }

    pub fn clear(&mut self)
        ensures
            final(self).wf(),
            final(self).map() == Map::<CacheKeyView, (u64, Result<EvidenceView, AuthenticodeError>)>::empty(),
    {
        self.entries.clear();
        assert(self.map() =~= Map::<CacheKeyView, (u64, Result<EvidenceView, AuthenticodeError>)>::empty());
    }
}

/// Forgets every cached verdict, so the next verification checks the
/// image again.
pub fn clear_authenticode_cache(cache: &mut SignatureCache)
    ensures
        final(cache).wf(),
        final(cache).map() == Map::<CacheKeyView, (u64, Result<EvidenceView, AuthenticodeError>)>::empty(),
{
    cache.clear();
}

// ----------------------------------------------------------------------
// One verification, around the WinVerifyTrust call.
// ----------------------------------------------------------------------

/// What a verification needs next: either its verdict is known, or the
/// image must be checked and the verdict recorded under the given key.
pub enum VerifyStep {
    Decided(Verdict),
    Check(SignatureCacheKey),
}

pub open spec fn key_of(executable_hash: Seq<char>, policy: Seq<char>, normalized_expected: Option<Seq<char>>) -> CacheKeyView {
    CacheKeyView { executable_hash, policy, normalized_subject: normalized_expected }
}

/// The verdict a verification gets without checking the image, if any:
/// the `ignore` policy checks nothing, and a fresh cached verdict for the
/// same image, policy and expected subject is served again.
pub open spec fn decided_without_check(
    cache: Map<CacheKeyView, (u64, Result<EvidenceView, AuthenticodeError>)>,
    now: u64,
    executable_hash: Seq<char>,
    policy: Seq<char>,
    normalized_expected: Option<Seq<char>>,
) -> Option<Result<EvidenceView, AuthenticodeError>> {
    let k = key_of(executable_hash, policy, normalized_expected);
    if policy == "ignore"@ {
        Some(Ok(EvidenceView { status: AuthenticodeStatus::NotChecked, subject: None, normalized_subject: None, network_access: false }))
    } else if cache.contains_key(k) && is_fresh(cache[k].0, now) {
        Some(cache[k].1)
    } else {
        None
    }
}

pub open spec fn text_opt(v: Option<&str>) -> Option<Seq<char>> {
    match v {
        Some(s) => Some(s@),
        None => None,
    }
}

/// Starts verifying an image whose SHA-256 is `executable_hash` under
/// `policy`; the cache drops stale verdicts (except under `ignore`, which
/// leaves it alone).
pub fn begin_verification(
    cache: &mut SignatureCache,
    now_millis: u64,
    executable_hash: &str,
    policy: &str,
    normalized_expected_subject: Option<&str>,
) -> (result: VerifyStep)
    requires
        old(cache).wf(),
    ensures
        final(cache).wf(),
        match decided_without_check(old(cache).map(), now_millis, executable_hash@, policy@, text_opt(normalized_expected_subject)) {
            Some(v) => result matches VerifyStep::Decided(r) && verdict_view(r) == v,
            None => result matches VerifyStep::Check(k)
                && k@ == key_of(executable_hash@, policy@, text_opt(normalized_expected_subject)),
        },
        policy@ == "ignore"@ ==> final(cache).map() == old(cache).map(),
        policy@ != "ignore"@ ==> forall|k: CacheKeyView| #[trigger] final(cache).map().contains_key(k)
            <==> (old(cache).map().contains_key(k) && is_fresh(old(cache).map()[k].0, now_millis)),
        forall|k: CacheKeyView| #[trigger] final(cache).map().contains_key(k) ==> final(cache).map()[k] == old(cache).map()[k],
{
    if str_eq(policy, "ignore") {
        return VerifyStep::Decided(Ok(not_checked_evidence()));
    }
    let key = SignatureCacheKey {
        executable_hash: executable_hash.to_owned(),
        policy: policy.to_owned(),
        normalized_subject: match normalized_expected_subject {
            Some(s) => Some(s.to_owned()),
            None => None,
        },
    };
    cache.retain_fresh(now_millis);
    match cache.get(&key) {
        Some(v) => VerifyStep::Decided(v),
        None => VerifyStep::Check(key),
    }
}

/// Finishes a verification whose image check produced `evidence`: judges
/// it under `policy` and records the verdict under `key` at `now_millis`.
pub fn finish_verification(
    cache: &mut SignatureCache,
    now_millis: u64,
    key: SignatureCacheKey,
    policy: &str,
    evidence: AuthenticodeEvidence,
    normalized_expected_subject: Option<&str>,
) -> (result: Verdict)
    requires
        old(cache).wf(),
    ensures
        final(cache).wf(),
        verdict_view(result) == apply_policy_spec(policy@, evidence@, text_opt(normalized_expected_subject)),
        final(cache).map() == old(cache).map().insert(key@, (now_millis, verdict_view(result))),
{
    let verdict = apply_policy(policy, evidence, normalized_expected_subject);
    cache.insert(key, now_millis, clone_verdict(&verdict));
    verdict
}

/// A recorded verdict is served again, unchanged, to a verification of the
/// same image under the same policy and expected subject until its time to
/// live has passed, and never after.
pub proof fn law_cached_verdict_is_served_only_while_fresh(
    cache: Map<CacheKeyView, (u64, Result<EvidenceView, AuthenticodeError>)>,
    executable_hash: Seq<char>,
    policy: Seq<char>,
    normalized_expected: Option<Seq<char>>,
    recorded_at: u64,
    verdict: Result<EvidenceView, AuthenticodeError>,
    now: u64,
)
    requires
        policy != "ignore"@,
        recorded_at <= now,
    ensures
        ({
            let after = cache.insert(key_of(executable_hash, policy, normalized_expected), (recorded_at, verdict));
            let served = decided_without_check(after, now, executable_hash, policy, normalized_expected);
            &&& now - recorded_at <= SIGNATURE_CACHE_TTL_MILLIS ==> served == Some(verdict)
            &&& now - recorded_at > SIGNATURE_CACHE_TTL_MILLIS ==> served is None
        }),
{
}

/// Under an enforcing policy, an image without a valid signature is never
/// accepted; `record` accepts every evidence unchanged.
pub proof fn law_enforcing_policies_fail_closed(policy: Seq<char>, e: EvidenceView, expected: Option<Seq<char>>)
    ensures
        policy == "record"@ ==> apply_policy_spec(policy, e, expected) == Ok::<EvidenceView, AuthenticodeError>(e),
        policy != "record"@ && e.status != AuthenticodeStatus::Valid ==> apply_policy_spec(policy, e, expected)
            == Err::<EvidenceView, AuthenticodeError>(AuthenticodeError::Invalid),
        e.status == AuthenticodeStatus::Valid && !subject_matches(e, expected) ==> apply_policy_spec("require_subject"@, e, expected)
            == Err::<EvidenceView, AuthenticodeError>(AuthenticodeError::SubjectMismatch),
{
    reveal_strlit("record");
    reveal_strlit("require_valid");
    reveal_strlit("require_subject");
    assert("require_subject"@.len() != "record"@.len());
    assert("require_subject"@.len() != "require_valid"@.len());
}

/// A verdict reached at `inserted` is still served at `now`.
pub open spec fn is_fresh(inserted: u64, now: u64) -> bool {
    now <= inserted || now - inserted <= SIGNATURE_CACHE_TTL_MILLIS
}

} // verus!
