use sshx::alnum::{digest_chars, stable_alphanumeric, try_stable_alphanumeric};

#[test]
fn checked_derivation_matches_unchecked() {
    let fp = b"mac:aa:bb:cc:dd:ee:ff";
    assert_eq!(
        try_stable_alphanumeric(fp, "sshx/session-id", 10),
        Some("cv0yMdoqDA".to_string())
    );
    assert_eq!(
        try_stable_alphanumeric(fp, "sshx/write-password", 14),
        Some(stable_alphanumeric(fp, "sshx/write-password", 14))
    );
}

#[test]
fn zero_length_is_empty() {
    assert_eq!(stable_alphanumeric(b"anything", "ctx", 0), "");
    assert_eq!(try_stable_alphanumeric(b"anything", "ctx", 0), Some(String::new()));
}

#[test]
fn shorter_derivation_is_prefix_of_longer() {
    let fp = b"mac:aa:bb:cc:dd:ee:ff";
    let short = stable_alphanumeric(fp, "sshx/session-id", 5);
    let long = stable_alphanumeric(fp, "sshx/session-id", 200);
    assert_eq!(short, "cv0yM");
    assert!(long.starts_with("cv0yMdoqDA"));
    assert_eq!(long.len(), 200);
    assert!(long.chars().all(|c| c.is_ascii_alphanumeric()));
}

#[test]
fn non_ascii_context_and_seed() {
    let a = stable_alphanumeric("grüße".as_bytes(), "contexte-é", 30);
    let b = stable_alphanumeric("grüße".as_bytes(), "contexte-é", 30);
    assert_eq!(a, b);
    assert_eq!(a.len(), 30);
    assert!(a.chars().all(|c| c.is_ascii_alphanumeric()));
    assert_ne!(a, stable_alphanumeric("grüße".as_bytes(), "contexte-e", 30));
}

#[test]
fn empty_seed_and_context() {
    let a = stable_alphanumeric(b"", "", 12);
    assert_eq!(a.len(), 12);
    assert!(a.chars().all(|c| c.is_ascii_alphanumeric()));
    assert_ne!(a, stable_alphanumeric(b"x", "", 12));
}

#[test]
fn digest_chars_rejects_and_maps() {
    let mut d = [250u8; 32];
    d[..8].copy_from_slice(&[0, 61, 62, 247, 248, 255, 26, 52]);
    assert_eq!(digest_chars(&d), "A9A9a0");
    assert_eq!(digest_chars(&[255u8; 32]), "");
    assert_eq!(digest_chars(&[186u8; 32]), "A".repeat(32));
}
