# halo

Nearby-device discovery, pairing and resumable batch file transfer, with
the wire formats, policies and decisions written in Verus and proved
against their contracts.

## Layout

- `src/` — the verified library.
  - `protocol/` — the pairing and transfer control frames and data records:
    exact encoders and decoders, with round-trip laws.
  - `crypto/` — device identities (P-256 through `p256`), the pairing
    handshake's signed messages and short code, trust-store records,
    SHA-256 (`sha2`), HKDF (`hkdf`) and system randomness (`getrandom`).
  - `discovery/` — presence identifiers, the peer registry and its ranking,
    and the decisions of the mDNS, presence, direct-probe and BLE providers.
  - `transport/` — data-channel policy, connection racing, frame I/O limits,
    the pairing conversation as a state machine, and the native TLS
    identity (`rcgen`).
  - `transfer/` — batch manifests, send jobs and resume state.
  - `service/` — the coordinator, session and pairing services' decisions.
- `tests/` — scenario tests run against the compiled library.
- `app/` — the unverified edges: sockets, files, async drivers and the
  `thiserror` copies of the library's error types.

Calls into outside crates go through small trusted wrappers whose doc
comments say what is believed of them; everything around them is verified.
