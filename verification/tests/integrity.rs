use hmac::{KeyInit, Mac};
use zipx_core::errors::ExtractError;
use zipx_core::resilience::{
    guard, verify_crc32, verify_hmac, IntegrityGuardReader, IntegrityPolicy, IntegrityVerdict,
};

#[test]
fn crc32_clean_verdict() {
    let data = b"the quick brown fox";
    let expected = crc32fast::hash(data);
    assert!(matches!(verify_crc32(data, expected), IntegrityVerdict::Clean));
}

#[test]
fn crc32_corrupt_verdict_names_both_values() {
    let data = b"payload";
    let actual = crc32fast::hash(data);
    let wrong = actual.wrapping_add(1);
    match verify_crc32(data, wrong) {
        IntegrityVerdict::Corrupt { reason } => {
            assert_eq!(
                reason,
                format!("crc mismatch expected {} got {}", wrong, actual)
            );
        }
        IntegrityVerdict::Clean => panic!("corruption not detected"),
    }
}

#[test]
fn hmac_verdicts() {
    let key = b"secret key";
    let data = b"authenticated bytes";
    let mut mac = <hmac::Hmac<sha2::Sha256> as KeyInit>::new_from_slice(key).unwrap();
    mac.update(data);
    let tag = mac.finalize().into_bytes().to_vec();
    assert!(matches!(
        verify_hmac(data, key, &tag),
        IntegrityVerdict::Clean
    ));
    let mut bad_tag = tag.clone();
    bad_tag[0] ^= 1;
    match verify_hmac(data, key, &bad_tag) {
        IntegrityVerdict::Corrupt { reason } => assert_eq!(reason, "hmac mismatch"),
        IntegrityVerdict::Clean => panic!("forged tag accepted"),
    }
}

#[test]
fn guard_checks_compose() {
    let data = b"guarded";
    let mut policy = IntegrityPolicy::default();
    assert!(guard(data, &policy).is_ok());
    policy.crc32 = Some(crc32fast::hash(data));
    let key = b"k";
    let mut mac = <hmac::Hmac<sha2::Sha256> as KeyInit>::new_from_slice(key).unwrap();
    mac.update(data);
    policy.hmac_key = Some(key.to_vec());
    policy.hmac_tag = Some(mac.finalize().into_bytes().to_vec());
    assert!(guard(data, &policy).is_ok());
    policy.crc32 = Some(crc32fast::hash(data) ^ 0xdead);
    match guard(data, &policy) {
        Err(ExtractError::IntegrityFailure { .. }) => {}
        other => panic!("expected an integrity failure, got {:?}", other),
    }
}

#[test]
fn streaming_guard_matches_one_shot() {
    let data = b"streamed in several chunks";
    let mut policy = IntegrityPolicy::default();
    policy.crc32 = Some(crc32fast::hash(data));
    let mut reader = IntegrityGuardReader::new(policy.clone());
    reader.consume(&data[..5]);
    reader.consume(&data[5..9]);
    reader.consume(&data[9..]);
    assert_eq!(reader.bytes_seen(), data.len());
    assert!(reader.finalize().is_ok());

    let mut reader = IntegrityGuardReader::new(policy);
    reader.consume(b"other bytes entirely");
    assert!(matches!(
        reader.finalize(),
        Err(ExtractError::IntegrityFailure { .. })
    ));
}

#[test]
fn streaming_guard_verifies_hmac() {
    let data = b"streamed and authenticated";
    let key = b"stream key";
    let mut mac = <hmac::Hmac<sha2::Sha256> as KeyInit>::new_from_slice(key).unwrap();
    mac.update(data);
    let mut policy = IntegrityPolicy::default();
    policy.hmac_key = Some(key.to_vec());
    policy.hmac_tag = Some(mac.finalize().into_bytes().to_vec());
    let mut reader = IntegrityGuardReader::new(policy);
    reader.consume(&data[..13]);
    reader.consume(&data[13..]);
    assert!(reader.finalize().is_ok());
}

#[test]
fn policy_presets() {
    let lenient = IntegrityPolicy::default();
    assert!(lenient.skip_bad_blocks);
    assert_eq!(lenient.retry_attempts, 1);
    let strict = IntegrityPolicy::strict();
    assert!(!strict.skip_bad_blocks);
    assert_eq!(strict.retry_attempts, 3);
}

#[test]
fn error_messages() {
    assert_eq!(
        ExtractError::Unsupported("bogus".to_string()).message(),
        "unsupported format: bogus"
    );
    assert_eq!(
        ExtractError::CorruptBlock { offset: 42 }.message(),
        "corrupt block at offset 42"
    );
    assert_eq!(
        ExtractError::Password.message(),
        "password required or incorrect"
    );
    assert_eq!(
        ExtractError::IntegrityFailure {
            details: "x".to_string()
        }
        .message(),
        "integrity failure: x"
    );
    assert_eq!(
        ExtractError::CorruptBlock { offset: 1234567890123 }.message(),
        "corrupt block at offset 1234567890123"
    );
}
