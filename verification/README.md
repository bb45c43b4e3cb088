# agent_marketplace

The verified core of an agent marketplace with zkTLS proofs.

- `src/` is the library, checked by Verus:
  - `tls_record`, `record`, `crypto`, `session`: framing and opening the
    server records of a TLS 1.3 session (AES-256-GCM, HKDF-SHA384 key
    schedule), and the session check that reveals one JSON field of the
    response only where the server's handshake verifies.
  - `der`, `spki`, `chain`: walking X.509 certificates, pinning the root by
    the SHA-256 of its SubjectPublicKeyInfo, and verifying a chain link by
    link (ECDSA P-256).
  - `http`, `capture`, `prover`: reading HTTP responses (plain and chunked),
    the target of a capture's URL, the key log of a capture, and what the
    prover host derives from it.
  - `models`, `store`, `sync`, `encoding`: the in-memory index of on-chain
    events (dispatched on the Keccak-256 topic of each event signature), its
    paginated listings, and the block ranges of the sync and of polling.
  - `cli`: address parsing and formatting of the command line.
- `app/` holds the programs around it: the REST API and its event indexer,
  the `amp` commands, the prover host with its TLS capture, and the zkVM
  guest entry.
- `tests/` exercises the library on fixed vectors: a certificate chain, a
  recorded session under known traffic secrets, and event logs.
