use atm::handoff::{check_digest, checksum, elevation_args, verify_transfer, HandoffError};

#[test]
fn checksum_is_lowercase_sha256() {
    assert_eq!(
        checksum(b"abc"),
        "ba7816bf8f01cfea414140de5dae2223b00361a396177a9cb410ff61f20015ad"
    );
    assert_eq!(
        checksum(b""),
        "e3b0c44298fc1c149afbf4c8996fb92427ae41e4649b934ca495991b7852b855"
    );
}

#[test]
fn transfer_round_trip() {
    let buffer = br#"[{"name":"x","enabled":true}]"#.to_vec();
    let sum = checksum(&buffer);
    assert_eq!(verify_transfer(&buffer, Some(sum.as_str())), Ok(()));
    let mut changed = buffer.clone();
    changed[3] ^= 1;
    assert_eq!(
        verify_transfer(&changed, Some(sum.as_str())),
        Err(HandoffError::HashMismatch)
    );
}

#[test]
fn scenario_hash_mismatch() {
    let buffer = b"[]".to_vec();
    assert_eq!(
        verify_transfer(&buffer, Some("0000")),
        Err(HandoffError::HashMismatch)
    );
}

#[test]
fn transfer_without_checksum_is_accepted() {
    assert_eq!(verify_transfer(b"anything", None), Ok(()));
}

#[test]
fn digest_comparison_is_exact() {
    assert_eq!(check_digest("abc", Some("abc")), Ok(()));
    assert_eq!(check_digest("abc", Some("ABC")), Err(HandoffError::HashMismatch));
    assert_eq!(check_digest("abc", Some("abc ")), Err(HandoffError::HashMismatch));
}

#[test]
fn elevated_command_arguments() {
    assert_eq!(
        elevation_args("beef", "https://m.example/", "/tmp/f"),
        vec!["refresh", "-c", "beef", "-m", "https://m.example/", "-f", "/tmp/f"]
    );
}
