use sshx::console::{greeting_text, session_name};

#[test]
fn greeting_with_single_link() {
    let text = greeting_text(Some("0.4.1"), "/bin/bash", "https://sshx.io/s/abc#key", None, None);
    assert_eq!(
        text,
        "\n  \x1b[1;32msshx\x1b[0m \x1b[32mv0.4.1\x1b[0m\n\n  \x1b[32m\u{279c}\x1b[0m  Link:  \
         \x1b[4;36mhttps://sshx.io/s/abc#key\x1b[0m\n  \x1b[32m\u{279c}\x1b[0m  Shell: \
         \x1b[38;5;8m/bin/bash\x1b[0m\n\n"
    );
}

#[test]
fn greeting_with_write_link_and_source() {
    let text = greeting_text(None, "zsh", "U", Some("W"), Some("hostname box"));
    assert_eq!(
        text,
        "\n  \x1b[1;32msshx\x1b[0m \x1b[32m[dev]\x1b[0m\n\n  \x1b[32m\u{279c}\x1b[0m  Read-only link: \
         \x1b[4;36mU\x1b[0m\n  \x1b[32m\u{279c}\x1b[0m  Writable link:  \x1b[4;36mW\x1b[0m\n  \
         \x1b[32m\u{279c}\x1b[0m  Shell:          \x1b[38;5;8mzsh\x1b[0m\n\n  \
         \x1b[32m\u{279c}\x1b[0m  This machine's URL is fixed across restarts (from hostname \
         box).\n     Pass --ephemeral for a one-off random session.\n\n"
    );
}

#[test]
fn session_name_strips_domain() {
    assert_eq!(session_name("alice", Some("box.lan")), "alice@box");
    assert_eq!(session_name("alice", Some("box")), "alice@box");
    assert_eq!(session_name("alice", Some(".hidden")), "alice@");
    assert_eq!(session_name("alice", Some("")), "alice@");
    assert_eq!(session_name("alice", None), "alice");
    assert_eq!(session_name("bob", Some("höst.example.com")), "bob@höst");
}
