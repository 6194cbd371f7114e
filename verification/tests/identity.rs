use sshx::alnum::stable_alphanumeric;
use sshx::identity::{
    machine_fingerprint, select_machine_id, IdentityError, MachineFacts, StableIdentity,
};
use sshx::mac::{choose_mac, format_mac};

fn facts(macs: Vec<[u8; 6]>, ids: Vec<&str>, host: Option<&str>) -> MachineFacts {
    MachineFacts {
        mac_addresses: macs,
        machine_ids: ids.into_iter().map(|s| s.to_string()).collect(),
        hostname: host.map(|h| h.to_string()),
    }
}

#[test]
fn no_usable_mac_is_none() {
    assert_eq!(choose_mac(&vec![]), None);
    // All-zero placeholder and multicast addresses are skipped.
    assert_eq!(choose_mac(&vec![[0; 6], [0x01, 0, 0, 0, 0, 1], [0x03, 1, 2, 3, 4, 5]]), None);
}

#[test]
fn universal_mac_preferred_over_smaller_local() {
    let local = [0x02, 0, 0, 0, 0, 1];
    let hw_big = [0xa8, 0x11, 0x22, 0x33, 0x44, 0x55];
    let hw_small = [0x10, 0x11, 0x22, 0x33, 0x44, 0x55];
    assert_eq!(
        choose_mac(&vec![local, hw_big, hw_small]),
        Some(("10:11:22:33:44:55".to_string(), true))
    );
}

#[test]
fn smallest_local_mac_when_no_universal() {
    let a = [0x06, 0, 0, 0, 0, 9];
    let b = [0x02, 0xff, 0, 0, 0, 0];
    assert_eq!(choose_mac(&vec![a, b, a]), Some(("02:ff:00:00:00:00".to_string(), false)));
}

#[test]
fn mac_choice_ignores_order_and_repetition() {
    let x = [0x00, 0x1b, 0x21, 0x3a, 0x4c, 0x5d];
    let y = [0x00, 0x1b, 0x21, 0x3a, 0x4c, 0x5c];
    let z = [0x0a, 0, 0, 0, 0, 0];
    let first = choose_mac(&vec![x, y, z]);
    assert_eq!(first, choose_mac(&vec![z, y, x, y]));
    assert_eq!(first, Some(("00:1b:21:3a:4c:5c".to_string(), true)));
}

#[test]
fn machine_id_is_first_non_blank_trimmed() {
    let ids = vec![" \n\t".to_string(), "  4c4c4544\n".to_string(), "other".to_string()];
    assert_eq!(select_machine_id(&ids), Some("4c4c4544".to_string()));
    assert_eq!(select_machine_id(&vec!["\n".to_string()]), None);
    assert_eq!(select_machine_id(&vec![]), None);
}

#[test]
fn explicit_seed_is_trimmed_and_wins() {
    let f = facts(vec![[0x00, 1, 2, 3, 4, 5]], vec!["id"], Some("host"));
    let (fp, src) = machine_fingerprint(Some("  seed \n"), &f).unwrap();
    assert_eq!(fp, "override:seed");
    assert_eq!(src, "explicit seed (--machine-seed / SSHX_MACHINE_SEED)");
}

#[test]
fn blank_seed_falls_back_to_mac() {
    let f = facts(vec![[0x00, 1, 2, 3, 4, 5]], vec!["id"], Some("host"));
    let (fp, src) = machine_fingerprint(Some(" \t "), &f).unwrap();
    assert_eq!(fp, "mac:00:01:02:03:04:05");
    assert_eq!(src, "hardware MAC address 00:01:02:03:04:05");
}

#[test]
fn local_mac_source_text() {
    let f = facts(vec![[0x02, 0x42, 0xac, 0x11, 0x00, 0x02]], vec![], None);
    let (fp, src) = machine_fingerprint(None, &f).unwrap();
    assert_eq!(fp, "mac:02:42:ac:11:00:02");
    assert_eq!(src, "locally-administered MAC address 02:42:ac:11:00:02");
}

#[test]
fn machine_id_then_hostname_fallbacks() {
    let f = facts(vec![[0; 6]], vec!["", " abc \n"], Some("host"));
    let (fp, src) = machine_fingerprint(None, &f).unwrap();
    assert_eq!(fp, "machine-id:abc");
    assert_eq!(src, "system machine-id");

    let f = facts(vec![], vec!["   "], Some("box.lan"));
    let (fp, src) = machine_fingerprint(None, &f).unwrap();
    assert_eq!(fp, "hostname:box.lan");
    assert_eq!(src, "hostname box.lan");
}

#[test]
fn nothing_available_is_an_error() {
    let f = facts(vec![], vec![], Some(""));
    assert_eq!(machine_fingerprint(None, &f), Err(IdentityError::NoStableIdentifier));
    assert!(matches!(
        StableIdentity::resolve(Some("   "), &f),
        Err(IdentityError::NoStableIdentifier)
    ));
    assert_eq!(
        IdentityError::NoStableIdentifier.message(),
        "could not determine a stable machine identifier (no MAC address, machine-id, or \
         hostname available); pass --machine-seed <value> or run with --ephemeral for a \
         one-off random session"
    );
}

#[test]
fn resolve_derives_from_the_fingerprint() {
    let f = facts(vec![[0xaa, 0xbb, 0xcc, 0xdd, 0xee, 0xff]], vec![], None);
    let id = StableIdentity::resolve(None, &f).unwrap();
    // 0xaa has the local bit set, so this is a locally administered address.
    assert_eq!(id.source, "locally-administered MAC address aa:bb:cc:dd:ee:ff");
    assert_eq!(id.session_id, "cv0yMdoqDA");
    assert_eq!(id.encryption_key, "P2zsXGsYxHXOKe");
    assert_eq!(id.write_password, "ViWng66hGuVSgy");
}

#[test]
fn resolve_with_seed() {
    let f = facts(vec![], vec![], None);
    let id = StableIdentity::resolve(Some("my-fixed-seed"), &f).unwrap();
    let fp = b"override:my-fixed-seed";
    assert_eq!(id.session_id, stable_alphanumeric(fp, "sshx/session-id", 10));
    assert_eq!(id.encryption_key, stable_alphanumeric(fp, "sshx/encryption-key", 14));
    assert_eq!(id.write_password, stable_alphanumeric(fp, "sshx/write-password", 14));
    assert_eq!(id.session_id.len(), 10);
    assert_eq!(id.encryption_key.len(), 14);
    assert_eq!(id.write_password.len(), 14);
}

#[test]
fn same_machine_same_identity() {
    let f1 = facts(vec![[0x00, 1, 2, 3, 4, 5], [0x00, 0, 0, 0, 0, 9]], vec![], None);
    let f2 = facts(vec![[0x00, 0, 0, 0, 0, 9], [0x00, 1, 2, 3, 4, 5]], vec!["x"], Some("h"));
    let a = StableIdentity::resolve(None, &f1).unwrap();
    let b = StableIdentity::resolve(None, &f2).unwrap();
    assert_eq!(a.session_id, b.session_id);
    assert_eq!(a.encryption_key, b.encryption_key);
    assert_eq!(a.write_password, b.write_password);
    assert_eq!(a.source, "hardware MAC address 00:00:00:00:00:09");
}

#[test]
fn explicit_seed_ignores_the_machine() {
    let a = StableIdentity::resolve(Some("pinned"), &facts(vec![], vec![], None)).unwrap();
    let b = StableIdentity::resolve(
        Some("pinned"),
        &facts(vec![[0x00, 1, 2, 3, 4, 5]], vec!["id"], Some("host")),
    )
    .unwrap();
    assert_eq!(a.session_id, b.session_id);
    assert_eq!(a.encryption_key, b.encryption_key);
    assert_eq!(a.write_password, b.write_password);
    assert_eq!(a.source, b.source);
}

#[test]
fn formatted_addresses_keep_order_and_differ() {
    let addrs = [
        [0x00, 0x00, 0x00, 0x00, 0x00, 0x09],
        [0x00, 0x00, 0x00, 0x00, 0x00, 0x0a],
        [0x00, 0x1b, 0x21, 0x3a, 0x4c, 0x5c],
        [0x0a, 0x00, 0x00, 0x00, 0x00, 0x00],
        [0xa0, 0x00, 0x00, 0x00, 0x00, 0x00],
        [0xff, 0xff, 0xff, 0xff, 0xff, 0xff],
    ];
    for a in &addrs {
        for b in &addrs {
            assert_eq!(a < b, format_mac(a) < format_mac(b));
            assert_eq!(a == b, format_mac(a) == format_mac(b));
        }
    }
}
