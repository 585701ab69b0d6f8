use star_control::authenticode::{
    apply_policy, begin_verification, clear_authenticode_cache, evidence_from_check, finish_verification,
    status_from_code, AuthenticodeError, AuthenticodeStatus, SignatureCache, VerifyStep,
    SIGNATURE_CACHE_TTL_MILLIS, TRUST_E_NOSIGNATURE,
};

fn verify(
    cache: &mut SignatureCache,
    now: u64,
    hash: &str,
    policy: &str,
    expected: Option<&str>,
    code: i32,
    subject: Option<&str>,
) -> Result<AuthenticodeStatus, AuthenticodeError> {
    let checked = match begin_verification(cache, now, hash, policy, expected) {
        VerifyStep::Decided(verdict) => verdict,
        VerifyStep::Check(key) => {
            let evidence = evidence_from_check(
                code,
                subject.map(str::to_owned),
                subject.map(|s| s.trim().to_lowercase()),
            );
            finish_verification(cache, now, key, policy, evidence, expected)
        }
    };
    checked.map(|evidence| {
        assert!(!evidence.network_access);
        evidence.status
    })
}

#[test]
fn unsigned_invalid_offline_and_subject_policies_are_fail_closed() {
    let mut cache = SignatureCache::new();
    match begin_verification(&mut cache, 0, "sha256:not-opened", "ignore", None) {
        VerifyStep::Decided(Ok(ignored)) => {
            assert_eq!(ignored.status, AuthenticodeStatus::NotChecked);
            assert!(ignored.subject.is_none());
            assert!(ignored.normalized_subject.is_none());
        }
        _ => panic!("ignore must decide without a check"),
    }

    let recorded = verify(&mut cache, 0, "sha256:unsigned", "record", None, TRUST_E_NOSIGNATURE, None).unwrap();
    assert!(matches!(
        recorded,
        AuthenticodeStatus::Unsigned | AuthenticodeStatus::OfflineIndeterminate | AuthenticodeStatus::Invalid
    ));
    assert_eq!(
        verify(&mut cache, 0, "sha256:unsigned", "require_valid", None, TRUST_E_NOSIGNATURE, None),
        Err(AuthenticodeError::Invalid)
    );

    let subject = "Microsoft Windows";
    assert_eq!(
        verify(&mut cache, 0, "sha256:signed", "record", None, 0, Some(subject)),
        Ok(AuthenticodeStatus::Valid)
    );
    assert!(verify(&mut cache, 0, "sha256:signed", "require_subject", Some("microsoft windows"), 0, Some(subject)).is_ok());
    assert_eq!(
        verify(&mut cache, 0, "sha256:signed", "require_subject", Some("wrong publisher"), 0, Some(subject)),
        Err(AuthenticodeError::SubjectMismatch)
    );
}

#[test]
fn verification_codes_are_classified() {
    assert_eq!(status_from_code(0), AuthenticodeStatus::Valid);
    assert_eq!(status_from_code(TRUST_E_NOSIGNATURE), AuthenticodeStatus::Unsigned);
    assert_eq!(status_from_code(0x8009_2013_u32 as i32), AuthenticodeStatus::OfflineIndeterminate);
    assert_eq!(status_from_code(0x800B_010E_u32 as i32), AuthenticodeStatus::OfflineIndeterminate);
    assert_eq!(status_from_code(0x800B_0109_u32 as i32), AuthenticodeStatus::Invalid);
    assert_eq!(AuthenticodeStatus::OfflineIndeterminate.as_str(), "offline_indeterminate");
    assert_eq!(AuthenticodeError::SubjectMismatch.code(), "TOOL_AUTHENTICODE_SUBJECT_MISMATCH");
}

#[test]
fn unknown_policies_are_refused() {
    let evidence = evidence_from_check(0, None, None);
    assert_eq!(apply_policy("trust_me", evidence, None).err(), Some(AuthenticodeError::Invalid));
    let evidence = evidence_from_check(0, Some("A".to_owned()), Some("a".to_owned()));
    assert!(apply_policy("require_subject", evidence, None).is_err());
}

#[test]
fn cached_verdicts_are_served_until_they_expire() {
    let mut cache = SignatureCache::new();
    assert_eq!(verify(&mut cache, 1_000, "sha256:x", "require_valid", None, 0, None), Ok(AuthenticodeStatus::Valid));
    // A later check would fail, but the fresh cached verdict is served.
    assert_eq!(
        verify(&mut cache, 1_000 + SIGNATURE_CACHE_TTL_MILLIS, "sha256:x", "require_valid", None, TRUST_E_NOSIGNATURE, None),
        Ok(AuthenticodeStatus::Valid)
    );
    // Past the time to live the image is checked again.
    assert_eq!(
        verify(&mut cache, 1_001 + SIGNATURE_CACHE_TTL_MILLIS, "sha256:x", "require_valid", None, TRUST_E_NOSIGNATURE, None),
        Err(AuthenticodeError::Invalid)
    );
    clear_authenticode_cache(&mut cache);
    assert!(cache.is_empty());
    assert_eq!(verify(&mut cache, 0, "sha256:x", "require_valid", None, 0, None), Ok(AuthenticodeStatus::Valid));
}
