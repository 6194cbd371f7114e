# sshx stable machine identity

A verified library that gives a machine a fixed sshx session URL.

- `src/alnum.rs` derives fixed-length alphanumeric strings from seed material
  and a context label (SHA-256 blocks with rejection sampling).
- `src/mac.rs` picks the MAC address that identifies the machine and formats it.
- `src/identity.rs` chooses the machine fingerprint (explicit seed, MAC address,
  machine-id, host name) and derives the session ID, encryption key and write
  password from it.
- `src/console.rs` builds the coloured greeting and the default session name.
- `src/digest.rs` and `src/text.rs` hold the calls into `sha2` and std.
- `app/` probes the machine (network interfaces, machine-id files, host name),
  parses arguments, sets up logging and prints.
