//! The stable identity of a machine: which fingerprint identifies it, and the
//! session ID, encryption key and write password derived from that
//! fingerprint.

use crate::alnum::{
    derivation_fits, derived, is_ascii_alphanumeric, lemma_derived_shape, try_stable_alphanumeric,
};
use crate::mac::{
    choose_mac, lemma_preferred_mac_order_independent, lemma_universal_bit_decides, mac_text,
    preferred_mac, usable_by_bits,
};
use crate::text::{trim, trimmed};
use vstd::prelude::*;
use vstd::utf8::encode_utf8;

verus! {

/// Length of the derived session ID.
pub const SESSION_ID_LEN: usize = 10;

/// Length of the derived encryption key.
pub const ENCRYPTION_KEY_LEN: usize = 14;

/// Length of the derived write password.
pub const WRITE_PASSWORD_LEN: usize = 14;

/// What a machine reports about itself, in the order of preference in which
/// it is consulted.
#[derive(Debug, Clone)]
pub struct MachineFacts {
    /// The MAC addresses of the network interfaces, in any order (empty where
    /// they could not be listed).
    pub mac_addresses: Vec<[u8; 6]>,
    /// The contents of the system machine-id files that could be read, most
    /// preferred first.
    pub machine_ids: Vec<String>,
    /// The host name, where it could be determined.
    pub hostname: Option<String>,
}

/// The model of `MachineFacts`.
pub struct MachineFactsView {
    pub mac_addresses: Seq<[u8; 6]>,
    pub machine_ids: Seq<Seq<char>>,
    pub hostname: Option<Seq<char>>,
}

impl View for MachineFacts {
    type V = MachineFactsView;

    open spec fn view(&self) -> MachineFactsView {
        MachineFactsView {
            mac_addresses: self.mac_addresses@,
            machine_ids: self.machine_ids@.map_values(|s: String| s@),
            hostname: match self.hostname {
                Some(h) => Some(h@),
                None => None,
            },
        }
    }
}

/// A stable identity derived from the machine fingerprint.
#[derive(Debug, Clone)]
pub struct StableIdentity {
    /// Fixed session ID, sent to the server as the desired session name.
    pub session_id: String,
    /// Fixed end-to-end encryption key (URL fragment). Never sent to server.
    pub encryption_key: String,
    /// Fixed write password, used only in read-only mode.
    pub write_password: String,
    /// Human-readable description of where the fingerprint came from.
    pub source: String,
}

/// The model of `StableIdentity`.
pub struct StableIdentityView {
    pub session_id: Seq<char>,
    pub encryption_key: Seq<char>,
    pub write_password: Seq<char>,
    pub source: Seq<char>,
}

impl View for StableIdentity {
    type V = StableIdentityView;

    open spec fn view(&self) -> StableIdentityView {
        StableIdentityView {
            session_id: self.session_id@,
            encryption_key: self.encryption_key@,
            write_password: self.write_password@,
            source: self.source@,
        }
    }
}

/// Why no stable identity could be resolved.
#[derive(Debug, Clone, Copy, PartialEq, Eq, Structural)]
pub enum IdentityError {
    /// No explicit seed, MAC address, machine-id or host name is available.
    NoStableIdentifier,
    /// A derivation would need more blocks than the block counter can number.
    DerivationExhausted,
}

/// The message for a resolution error.
pub open spec fn error_message(e: IdentityError) -> Seq<char> {
    match e {
        IdentityError::NoStableIdentifier => "could not determine a stable machine identifier (no MAC address, machine-id, or hostname available); pass --machine-seed <value> or run with --ephemeral for a one-off random session"@,
        IdentityError::DerivationExhausted => "could not derive a stable identity: the derivation ran out of block counters"@,
    }
}

impl IdentityError {
    /// A human-readable description of the error.
    pub fn message(&self) -> (m: String)
        ensures
            m@ == error_message(*self),
    {
        match self {
            IdentityError::NoStableIdentifier => "could not determine a stable machine identifier (no MAC address, machine-id, or hostname available); pass --machine-seed <value> or run with --ephemeral for a one-off random session".to_owned(),
            IdentityError::DerivationExhausted => "could not derive a stable identity: the derivation ran out of block counters".to_owned(),
        }
    }
}

/// The model of an optional string argument.
pub open spec fn opt_str_view(s: Option<&str>) -> Option<Seq<char>> {
    match s {
        Some(t) => Some(t@),
        None => None,
    }
}

/// The first machine-id that is not blank, trimmed.
pub open spec fn first_machine_id(ids: Seq<Seq<char>>) -> Option<Seq<char>>
    decreases ids.len(),
{
    if ids.len() == 0 {
        None
    } else if trimmed(ids[0]).len() > 0 {
        Some(trimmed(ids[0]))
    } else {
        first_machine_id(ids.drop_first())
    }
}

/// The fingerprint of the machine and a description of its source, in order
/// of preference: a non-blank explicit seed (trimmed), the preferred MAC
/// address, the first non-blank machine-id, a non-empty host name.
pub open spec fn fingerprint(override_seed: Option<Seq<char>>, facts: MachineFactsView) -> Option<
    (Seq<char>, Seq<char>),
> {
    if override_seed is Some && trimmed(override_seed->0).len() > 0 {
        Some(
            (
                "override:"@ + trimmed(override_seed->0),
                "explicit seed (--machine-seed / SSHX_MACHINE_SEED)"@,
            ),
        )
    } else {
        match preferred_mac(facts.mac_addresses) {
            Some((m, universal)) => Some(
                (
                    "mac:"@ + mac_text(m),
                    (if universal {
                        "hardware"@
                    } else {
                        "locally-administered"@
                    }) + " MAC address "@ + mac_text(m),
                ),
            ),
            None => match first_machine_id(facts.machine_ids) {
                Some(id) => Some(("machine-id:"@ + id, "system machine-id"@)),
                None => match facts.hostname {
                    Some(h) => if h.len() > 0 {
                        Some(("hostname:"@ + h, "hostname "@ + h))
                    } else {
                        None
                    },
                    None => None,
                },
            },
        }
    }
}

/// The context label of the session ID.
pub open spec fn session_id_context() -> Seq<u8> {
    encode_utf8("sshx/session-id"@)
}

/// The context label of the encryption key.
pub open spec fn encryption_key_context() -> Seq<u8> {
    encode_utf8("sshx/encryption-key"@)
}

/// The context label of the write password.
pub open spec fn write_password_context() -> Seq<u8> {
    encode_utf8("sshx/write-password"@)
}

/// All three derivations from the fingerprint `fp` finish within the blocks
/// that the counter can number.
pub open spec fn identity_fits(fp: Seq<char>) -> bool {
    &&& derivation_fits(encode_utf8(fp), session_id_context(), SESSION_ID_LEN as nat)
    &&& derivation_fits(encode_utf8(fp), encryption_key_context(), ENCRYPTION_KEY_LEN as nat)
    &&& derivation_fits(encode_utf8(fp), write_password_context(), WRITE_PASSWORD_LEN as nat)
}

/// The identity derived from the fingerprint `fp` with source description
/// `source`.
pub open spec fn identity_from(fp: Seq<char>, source: Seq<char>) -> StableIdentityView {
    StableIdentityView {
        session_id: derived(encode_utf8(fp), session_id_context(), SESSION_ID_LEN as nat),
        encryption_key: derived(encode_utf8(fp), encryption_key_context(), ENCRYPTION_KEY_LEN as nat),
        write_password: derived(
            encode_utf8(fp),
            write_password_context(),
            WRITE_PASSWORD_LEN as nat,
        ),
        source: source,
    }
}

/// The fingerprint, and so the identity, of a machine does not depend on the
/// order in which its network interfaces are listed, nor on an address being
/// listed more than once.
pub proof fn lemma_fingerprint_ignores_interface_order(
    override_seed: Option<Seq<char>>,
    a: MachineFactsView,
    b: MachineFactsView,
)
    requires
        forall|x: [u8; 6]| a.mac_addresses.contains(x) <==> b.mac_addresses.contains(x),
        a.machine_ids == b.machine_ids,
        a.hostname == b.hostname,
    ensures
        fingerprint(override_seed, a) == fingerprint(override_seed, b),
{
    lemma_preferred_mac_order_independent(a.mac_addresses, b.mac_addresses);
}

/// A non-blank explicit seed fixes the fingerprint, and so the identity,
/// whatever the machine reports about itself.
pub proof fn lemma_explicit_seed_ignores_machine(
    seed: Seq<char>,
    a: MachineFactsView,
    b: MachineFactsView,
)
    requires
        trimmed(seed).len() > 0,
    ensures
        fingerprint(Some(seed), a) == fingerprint(Some(seed), b),
        fingerprint(Some(seed), a) == Some(
            (
                "override:"@ + trimmed(seed),
                "explicit seed (--machine-seed / SSHX_MACHINE_SEED)"@,
            ),
        ),
{
}

/// No seed was given, or only a blank one.
pub open spec fn no_explicit_seed(override_seed: Option<Seq<char>>) -> bool {
    override_seed is None || trimmed(override_seed->0).len() == 0
}

/// Without a non-blank seed, a usable MAC address decides the fingerprint,
/// whether it is universally or locally administered: the fingerprint is
/// `mac:` and the text of the chosen address, the source names its kind, and
/// neither depends on the machine-ids or the host name.
pub proof fn lemma_mac_outranks_machine_id_and_host(
    override_seed: Option<Seq<char>>,
    a: MachineFactsView,
    b: MachineFactsView,
    x: [u8; 6],
)
    requires
        no_explicit_seed(override_seed),
        a.mac_addresses.contains(x),
        usable_by_bits(x),
        a.mac_addresses == b.mac_addresses,
    ensures
        fingerprint(override_seed, a) == fingerprint(override_seed, b),
        preferred_mac(a.mac_addresses) matches Some((m, u)) && fingerprint(override_seed, a)
            == Some(
            (
                "mac:"@ + mac_text(m),
                (if u {
                    "hardware"@
                } else {
                    "locally-administered"@
                }) + " MAC address "@ + mac_text(m),
            ),
        ),
{
    lemma_universal_bit_decides(a.mac_addresses);
}

/// The first non-blank machine-id, trimmed, and every entry before it blank;
/// or no entry that is not blank.
pub proof fn lemma_first_machine_id_is_first_non_blank(ids: Seq<Seq<char>>)
    ensures
        match first_machine_id(ids) {
            Some(t) => exists|i: int|
                0 <= i < ids.len() && t == trimmed(#[trigger] ids[i]) && t.len() > 0 && forall|
                    j: int,
                | 0 <= j < i ==> trimmed(#[trigger] ids[j]).len() == 0,
            None => forall|i: int| 0 <= i < ids.len() ==> trimmed(#[trigger] ids[i]).len() == 0,
        },
        ids.len() > 0 && trimmed(ids[0]).len() > 0 ==> first_machine_id(ids) == Some(
            trimmed(ids[0]),
        ),
    decreases ids.len(),
{
    if ids.len() > 0 && trimmed(ids[0]).len() == 0 {
        let rest = ids.drop_first();
        lemma_first_machine_id_is_first_non_blank(rest);
        match first_machine_id(rest) {
            Some(t) => {
                let i = choose|i: int|
                    0 <= i < rest.len() && t == trimmed(#[trigger] rest[i]) && t.len() > 0
                        && forall|j: int| 0 <= j < i ==> trimmed(#[trigger] rest[j]).len() == 0;
                assert(ids[i + 1] == rest[i]);
                assert forall|j: int| 0 <= j < i + 1 implies trimmed(#[trigger] ids[j]).len()
                    == 0 by {
                    if j > 0 {
                        assert(ids[j] == rest[j - 1]);
                    }
                }
            },
            None => {
                assert forall|i: int| 0 <= i < ids.len() implies trimmed(#[trigger] ids[i]).len()
                    == 0 by {
                    if i > 0 {
                        assert(ids[i] == rest[i - 1]);
                    }
                }
            },
        }
    } else if ids.len() > 0 {
        assert(forall|j: int| 0 <= j < 0 ==> trimmed(#[trigger] ids[j]).len() == 0);
    }
}

/// Without a non-blank seed or a usable MAC address, a non-blank machine-id
/// decides the fingerprint: `machine-id:` and the first non-blank machine-id,
/// trimmed, whatever the host name is.
pub proof fn lemma_machine_id_outranks_host(
    override_seed: Option<Seq<char>>,
    a: MachineFactsView,
    b: MachineFactsView,
    i: int,
)
    requires
        no_explicit_seed(override_seed),
        forall|x: [u8; 6]| a.mac_addresses.contains(x) ==> !usable_by_bits(x),
        a.mac_addresses == b.mac_addresses,
        a.machine_ids == b.machine_ids,
        0 <= i < a.machine_ids.len(),
        trimmed(a.machine_ids[i]).len() > 0,
    ensures
        fingerprint(override_seed, a) == fingerprint(override_seed, b),
        first_machine_id(a.machine_ids) matches Some(id) && fingerprint(override_seed, a) == Some(
            ("machine-id:"@ + id, "system machine-id"@),
        ),
{
    lemma_universal_bit_decides(a.mac_addresses);
    lemma_first_machine_id_is_first_non_blank(a.machine_ids);
}

/// The session ID, encryption key and write password of a resolved identity
/// have their fixed lengths and consist of ASCII letters and digits.
pub proof fn lemma_identity_shape(fp: Seq<char>, source: Seq<char>)
    requires
        identity_fits(fp),
    ensures
        identity_from(fp, source).session_id.len() == SESSION_ID_LEN,
        identity_from(fp, source).encryption_key.len() == ENCRYPTION_KEY_LEN,
        identity_from(fp, source).write_password.len() == WRITE_PASSWORD_LEN,
        forall|i: int|
            0 <= i < SESSION_ID_LEN ==> is_ascii_alphanumeric(
                #[trigger] identity_from(fp, source).session_id[i],
            ),
        forall|i: int|
            0 <= i < ENCRYPTION_KEY_LEN ==> is_ascii_alphanumeric(
                #[trigger] identity_from(fp, source).encryption_key[i],
            ),
        forall|i: int|
            0 <= i < WRITE_PASSWORD_LEN ==> is_ascii_alphanumeric(
                #[trigger] identity_from(fp, source).write_password[i],
            ),
{
    lemma_derived_shape(encode_utf8(fp), session_id_context(), SESSION_ID_LEN as nat);
    lemma_derived_shape(encode_utf8(fp), encryption_key_context(), ENCRYPTION_KEY_LEN as nat);
    lemma_derived_shape(encode_utf8(fp), write_password_context(), WRITE_PASSWORD_LEN as nat);
}

/// The first machine-id among `ids` that is not blank, trimmed.
pub fn select_machine_id(ids: &Vec<String>) -> (r: Option<String>)
    ensures
        match (r, first_machine_id(ids@.map_values(|s: String| s@))) {
            (None, None) => true,
            (Some(s), Some(t)) => s@ == t,
            _ => false,
        },
{
    let ghost v = ids@.map_values(|s: String| s@);
    let mut i: usize = 0;
    assert(v.skip(0) =~= v);
    while i < ids.len()
        invariant
            i <= ids@.len(),
            v == ids@.map_values(|s: String| s@),
            first_machine_id(v) == first_machine_id(v.skip(i as int)),
        decreases ids@.len() - i,
    {
        let t = trim(ids[i].as_str());
        assert(v.skip(i as int)[0] == ids@[i as int]@);
        if !t.is_empty() {
            return Some(t.to_owned());
        }
        assert(v.skip(i as int).drop_first() =~= v.skip(i + 1));
        i += 1;
    }
    assert(v.skip(i as int).len() == 0);
    None
}

/// The fingerprint of the machine and a description of its source: a
/// non-blank `override_seed` (trimmed), else the preferred MAC address, else
/// the first non-blank machine-id, else a non-empty host name.
pub fn machine_fingerprint(override_seed: Option<&str>, facts: &MachineFacts) -> (r: Result<
    (String, String),
    IdentityError,
>)
    ensures
        match fingerprint(opt_str_view(override_seed), facts@) {
            Some((fp, source)) => r matches Ok((f, s)) && f@ == fp && s@ == source,
            None => r == Err::<(String, String), IdentityError>(IdentityError::NoStableIdentifier),
        },
{
    if let Some(seed) = override_seed {
        let t = trim(seed);
        if !t.is_empty() {
            let mut fp = "override:".to_owned();
            fp.append(t);
            return Ok((fp, "explicit seed (--machine-seed / SSHX_MACHINE_SEED)".to_owned()));
        }
    }
    if let Some((mac, universal)) = choose_mac(&facts.mac_addresses) {
        let mut fp = "mac:".to_owned();
        fp.append(mac.as_str());
        let mut source = if universal {
            "hardware".to_owned()
        } else {
            "locally-administered".to_owned()
        };
        source.append(" MAC address ");
        source.append(mac.as_str());
        return Ok((fp, source));
    }
    if let Some(id) = select_machine_id(&facts.machine_ids) {
        let mut fp = "machine-id:".to_owned();
        fp.append(id.as_str());
        return Ok((fp, "system machine-id".to_owned()));
    }
    if let Some(host) = &facts.hostname {
        if !host.as_str().is_empty() {
            let mut fp = "hostname:".to_owned();
            fp.append(host.as_str());
            let mut source = "hostname ".to_owned();
            source.append(host.as_str());
            return Ok((fp, source));
        }
    }
    Err(IdentityError::NoStableIdentifier)
}

impl StableIdentity {
    /// Resolves the stable identity of the machine that `facts` describes.
    ///
    /// A non-blank `override_seed` is used (trimmed) as the fingerprint;
    /// otherwise the fingerprint comes from, in order of preference, the MAC
    /// address, the system machine-id or the host name. The session ID,
    /// encryption key and write password are derived from the fingerprint
    /// under their own context labels.
    pub fn resolve(override_seed: Option<&str>, facts: &MachineFacts) -> (r: Result<
        StableIdentity,
        IdentityError,
    >)
        ensures
            match fingerprint(opt_str_view(override_seed), facts@) {
                None => r == Err::<StableIdentity, IdentityError>(
                    IdentityError::NoStableIdentifier,
                ),
                Some((fp, source)) => if identity_fits(fp) {
                    r matches Ok(id) && id@ == identity_from(fp, source)
                } else {
                    r == Err::<StableIdentity, IdentityError>(IdentityError::DerivationExhausted)
                },
            },
    {
        let (fingerprint, source) = match machine_fingerprint(override_seed, facts) {
            Ok(found) => found,
            Err(e) => {
                return Err(e);
            },
        };
        let bytes = fingerprint.as_str().as_bytes();
        let session_id = match try_stable_alphanumeric(bytes, "sshx/session-id", SESSION_ID_LEN) {
            Some(s) => s,
            None => {
                return Err(IdentityError::DerivationExhausted);
            },
        };
        let encryption_key = match try_stable_alphanumeric(
            bytes,
            "sshx/encryption-key",
            ENCRYPTION_KEY_LEN,
        ) {
            Some(s) => s,
            None => {
                return Err(IdentityError::DerivationExhausted);
            },
        };
        let write_password = match try_stable_alphanumeric(
            bytes,
            "sshx/write-password",
            WRITE_PASSWORD_LEN,
        ) {
            Some(s) => s,
            None => {
                return Err(IdentityError::DerivationExhausted);
            },
        };
        Ok(StableIdentity { session_id, encryption_key, write_password, source })
    }
}

} // verus!
