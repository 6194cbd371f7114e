//! What the client shows on the terminal: the coloured greeting and the
//! default session name.

use ansi_term::Colour;
use vstd::prelude::*;

verus! {

/// The styles that the greeting uses.
#[derive(Debug, Clone, Copy, PartialEq, Eq, Structural)]
pub enum Tint {
    /// Bold green.
    BoldGreen,
    /// Green.
    Green,
    /// Underlined cyan.
    UnderlinedCyan,
    /// Grey: colour 8 of the 256-colour palette.
    Grey,
}

/// The escape sequence that starts a tint.
pub open spec fn tint_prefix(t: Tint) -> Seq<char> {
    match t {
        Tint::BoldGreen => seq!['\x1b', '[', '1', ';', '3', '2', 'm'],
        Tint::Green => seq!['\x1b', '[', '3', '2', 'm'],
        Tint::UnderlinedCyan => seq!['\x1b', '[', '4', ';', '3', '6', 'm'],
        Tint::Grey => seq!['\x1b', '[', '3', '8', ';', '5', ';', '8', 'm'],
    }
}

/// The escape sequence that resets all styles.
pub open spec fn ansi_reset() -> Seq<char> {
    seq!['\x1b', '[', '0', 'm']
}

/// `text` painted with `tint`.
pub open spec fn painted(t: Tint, text: Seq<char>) -> Seq<char> {
    tint_prefix(t) + text + ansi_reset()
}

/// Paints `text` with `ansi_term`'s `Style::paint` and renders it with its
/// `Display` impl. The tints map to `Colour::Green.bold()`,
/// `Colour::Green.normal()`, `Colour::Cyan.underline()` and
/// `Colour::Fixed(8).normal()`.
/// Claims what `ansi_term` 0.12's `write_prefix`/`write_suffix` write for
/// these styles: the escape prefix, the text, then the reset sequence.
#[verifier::external_body]
fn paint(tint: Tint, text: &str) -> (s: String)
    ensures
        s@ == painted(tint, text@),
{
    let style = match tint {
        Tint::BoldGreen => Colour::Green.bold(),
        Tint::Green => Colour::Green.normal(),
        Tint::UnderlinedCyan => Colour::Cyan.underline(),
        Tint::Grey => Colour::Fixed(8).normal(),
    };
    style.paint(text).to_string()
}

/// The version label: `v` and the version, or `[dev]` without one.
pub open spec fn version_label(version: Option<Seq<char>>) -> Seq<char> {
    match version {
        Some(v) => "v"@ + v,
        None => "[dev]"@,
    }
}

/// The arrow that starts each line of the greeting.
pub open spec fn arrow() -> Seq<char> {
    painted(Tint::Green, "\u{279c}"@)
}

/// A greeting line: the arrow, a label and a painted value.
pub open spec fn greeting_line(label: Seq<char>, t: Tint, value: Seq<char>) -> Seq<char> {
    "  "@ + arrow() + label + painted(t, value) + "\n"@
}

/// The greeting printed when a session starts: the version, the links (a
/// read-only and a writable one where there is a write link), the shell, and,
/// for a fixed identity, where it comes from.
pub open spec fn greeting(
    version: Option<Seq<char>>,
    shell: Seq<char>,
    url: Seq<char>,
    write_url: Option<Seq<char>>,
    stable_source: Option<Seq<char>>,
) -> Seq<char> {
    let head = "\n  "@ + painted(Tint::BoldGreen, "sshx"@) + " "@ + painted(
        Tint::Green,
        version_label(version),
    ) + "\n\n"@;
    let links = match write_url {
        Some(w) => greeting_line("  Read-only link: "@, Tint::UnderlinedCyan, url) + greeting_line(
            "  Writable link:  "@,
            Tint::UnderlinedCyan,
            w,
        ) + greeting_line("  Shell:          "@, Tint::Grey, shell),
        None => greeting_line("  Link:  "@, Tint::UnderlinedCyan, url) + greeting_line(
            "  Shell: "@,
            Tint::Grey,
            shell,
        ),
    };
    let body = head + links + "\n"@;
    match stable_source {
        Some(source) => body + "  "@ + arrow() + "  This machine's URL is fixed across restarts (from "@
            + source + ").\n     Pass --ephemeral for a one-off random session.\n\n"@,
        None => body,
    }
}

/// A fixed identity adds its notice after the links, with one link as with
/// two: the greeting with a source is the greeting without one, followed by
/// the notice naming the source.
pub proof fn lemma_greeting_notice(
    version: Option<Seq<char>>,
    shell: Seq<char>,
    url: Seq<char>,
    write_url: Option<Seq<char>>,
    source: Seq<char>,
)
    ensures
        greeting(version, shell, url, write_url, Some(source)) == greeting(
            version,
            shell,
            url,
            write_url,
            None,
        ) + "  "@ + painted(Tint::Green, "\u{279c}"@)
            + "  This machine's URL is fixed across restarts (from "@ + source
            + ").\n     Pass --ephemeral for a one-off random session.\n\n"@,
{
}

/// Appends a greeting line.
fn push_line(out: &mut String, label: &str, t: Tint, value: &str)
    ensures
        final(out)@ == old(out)@ + greeting_line(label@, t, value@),
{
    out.append("  ");
    let a = paint(Tint::Green, "\u{279c}");
    out.append(a.as_str());
    out.append(label);
    let v = paint(t, value);
    out.append(v.as_str());
    out.append("\n");
    assert(final(out)@ =~= old(out)@ + greeting_line(label@, t, value@));
}

/// The greeting text, ready to be printed as it is.
pub fn greeting_text(
    version: Option<&str>,
    shell: &str,
    url: &str,
    write_url: Option<&str>,
    stable_source: Option<&str>,
) -> (s: String)
    ensures
        s@ == greeting(
            match version {
                Some(v) => Some(v@),
                None => None,
            },
            shell@,
            url@,
            match write_url {
                Some(w) => Some(w@),
                None => None,
            },
            match stable_source {
                Some(src) => Some(src@),
                None => None,
            },
        ),
{
    let ghost version_view = match version {
        Some(v) => Some(v@),
        None => None,
    };
    let mut label = match version {
        Some(v) => {
            let mut l = "v".to_owned();
            l.append(v);
            l
        },
        None => "[dev]".to_owned(),
    };
    assert(label@ == version_label(version_view));
    let mut out = "\n  ".to_owned();
    let name = paint(Tint::BoldGreen, "sshx");
    out.append(name.as_str());
    out.append(" ");
    let painted_version = paint(Tint::Green, label.as_str());
    out.append(painted_version.as_str());
    out.append("\n\n");
    let ghost head = out@;
    match write_url {
        Some(w) => {
            push_line(&mut out, "  Read-only link: ", Tint::UnderlinedCyan, url);
            push_line(&mut out, "  Writable link:  ", Tint::UnderlinedCyan, w);
            push_line(&mut out, "  Shell:          ", Tint::Grey, shell);
        },
        None => {
            push_line(&mut out, "  Link:  ", Tint::UnderlinedCyan, url);
            push_line(&mut out, "  Shell: ", Tint::Grey, shell);
        },
    }
    out.append("\n");
    if let Some(source) = stable_source {
        out.append("  ");
        let a = paint(Tint::Green, "\u{279c}");
        out.append(a.as_str());
        out.append("  This machine's URL is fixed across restarts (from ");
        out.append(source);
        out.append(").\n     Pass --ephemeral for a one-off random session.\n\n");
    }
    proof {
        let wv = match write_url {
            Some(w) => Some(w@),
            None => None,
        };
        let sv = match stable_source {
            Some(src) => Some(src@),
            None => None,
        };
        assert(out@ =~= greeting(version_view, shell@, url@, wv, sv));
    }
    out
}

/// The part of a host name before its first dot.
pub open spec fn first_label(host: Seq<char>) -> Seq<char>
    decreases host.len(),
{
    if host.len() == 0 || host[0] == '.' {
        seq![]
    } else {
        seq![host[0]] + first_label(host.drop_first())
    }
}

/// The default session name: the user name, followed by `@` and the host name
/// without its domain where the host name is known.
pub open spec fn default_session_name(username: Seq<char>, hostname: Option<Seq<char>>) -> Seq<char> {
    match hostname {
        Some(h) => username + "@"@ + first_label(h),
        None => username,
    }
}

/// The label is the longest prefix of the host name without a dot: it is
/// followed by a dot or by the end of the name.
pub proof fn lemma_first_label_is_prefix_before_dot(h: Seq<char>)
    ensures
        first_label(h).len() <= h.len(),
        first_label(h) == h.take(first_label(h).len() as int),
        forall|i: int| 0 <= i < first_label(h).len() ==> #[trigger] h[i] != '.',
        first_label(h).len() == h.len() || h[first_label(h).len() as int] == '.',
    decreases h.len(),
{
    if h.len() > 0 && h[0] != '.' {
        let t = h.drop_first();
        lemma_first_label_is_prefix_before_dot(t);
        assert(first_label(h) =~= h.take(first_label(h).len() as int));
        assert forall|i: int| 0 <= i < first_label(h).len() implies #[trigger] h[i] != '.' by {
            if i > 0 {
                assert(h[i] == t[i - 1]);
            }
        }
        if first_label(t).len() < t.len() {
            assert(h[first_label(h).len() as int] == t[first_label(t).len() as int]);
        }
    } else {
        assert(h.take(0) =~= Seq::<char>::empty());
    }
}

proof fn lemma_first_label_step(h: Seq<char>, i: int)
    requires
        0 <= i < h.len(),
        h[i] != '.',
    ensures
        first_label(h.skip(i)) == seq![h[i]] + first_label(h.skip(i + 1)),
{
    assert(h.skip(i).drop_first() =~= h.skip(i + 1));
}

/// The session name shown to others: `username`, followed by `@` and the part
/// of `hostname` before its first dot where the host name is known.
pub fn session_name(username: &str, hostname: Option<&str>) -> (name: String)
    ensures
        name@ == default_session_name(
            username@,
            match hostname {
                Some(h) => Some(h@),
                None => None,
            },
        ),
{
    let mut name = username.to_owned();
    if let Some(host) = hostname {
        let n: usize = host.unicode_len();
        let mut i: usize = 0;
        assert(host@.skip(0) =~= host@);
        assert(host@.take(0) =~= Seq::<char>::empty());
        while i < n && host.get_char(i) != '.'
            invariant
                n == host@.len(),
                i <= n,
                first_label(host@) == host@.take(i as int) + first_label(host@.skip(i as int)),
            decreases n - i,
        {
            proof {
                lemma_first_label_step(host@, i as int);
                assert(host@.take(i + 1) =~= host@.take(i as int) + seq![host@[i as int]]);
            }
            i += 1;
        }
        assert(first_label(host@.skip(i as int)) =~= Seq::<char>::empty());
        let label = host.substring_char(0, i);
        name.append("@");
        name.append(label);
        assert(host@.take(i as int) =~= host@.subrange(0, i as int));
    }
    name
}

} // verus!
