use sshx::alnum::stable_alphanumeric;
use sshx::identity::{machine_fingerprint, MachineFacts};
use sshx::mac::format_mac;

fn no_facts() -> MachineFacts {
    MachineFacts { mac_addresses: Vec::new(), machine_ids: Vec::new(), hostname: None }
}

#[test]
fn deterministic_and_correct_charset() {
    let fp = b"mac:aa:bb:cc:dd:ee:ff";
    let a1 = stable_alphanumeric(fp, "sshx/session-id", 10);
    let a2 = stable_alphanumeric(fp, "sshx/session-id", 10);
    assert_eq!(a1, a2, "derivation must be deterministic");
    assert_eq!(a1.len(), 10);
    assert!(a1.chars().all(|c| c.is_ascii_alphanumeric()));
}

#[test]
fn matches_reference_vectors() {
    let fp = b"mac:aa:bb:cc:dd:ee:ff";
    assert_eq!(stable_alphanumeric(fp, "sshx/session-id", 10), "cv0yMdoqDA");
    assert_eq!(stable_alphanumeric(fp, "sshx/encryption-key", 14), "P2zsXGsYxHXOKe");
    assert_eq!(stable_alphanumeric(fp, "sshx/write-password", 14), "ViWng66hGuVSgy");
}

#[test]
fn contexts_are_independent() {
    let fp = b"seed";
    let sid = stable_alphanumeric(fp, "sshx/session-id", 14);
    let key = stable_alphanumeric(fp, "sshx/encryption-key", 14);
    let wp = stable_alphanumeric(fp, "sshx/write-password", 14);
    assert_ne!(sid, key);
    assert_ne!(key, wp);
    assert_ne!(sid, wp);
}

#[test]
fn different_seeds_differ() {
    let a = stable_alphanumeric(b"mac:aa:bb:cc:dd:ee:ff", "sshx/session-id", 10);
    let b = stable_alphanumeric(b"mac:11:22:33:44:55:66", "sshx/session-id", 10);
    assert_ne!(a, b);
}

#[test]
fn explicit_seed_is_used() {
    let (fp, _src) = machine_fingerprint(Some("my-fixed-seed"), &no_facts()).unwrap();
    assert_eq!(fp, "override:my-fixed-seed");
}

#[test]
fn format_mac_is_lowercase_hex() {
    assert_eq!(format_mac(&[0xAA, 0x0B, 0xcc, 0x00, 0xEE, 0xff]), "aa:0b:cc:00:ee:ff");
}
