# kratos-core

The protocol logic of the KratOs chain as a verified library: each public
function carries a `requires`/`ensures` contract that Verus proves.

- `src/` — the library.
  - `types`, `vecmap`, `merkle`: accounts, hashes, finite maps and Merkle proofs.
  - `krat`, `gas`, `staking`: token supply, gas metering, validator stake.
  - `governance`, `meta_governance`, `protocol`: chain governance, protocol
    upgrades and the constitutional bounds of the protocol parameters.
  - `identity`, `personhood`, `reputation`: identities, proof of personhood,
    multi-domain reputation.
  - `sidechains`, `messaging`: the chain registry, purges and exits, and
    cross-chain messages.
  - `dispute`, `arbitration`: cross-chain disputes, their evidence, juries
    drawn by lot, verdicts and appeals.
  - `emergency`, `fork`: emergency powers with circuit breakers and recovery,
    forks and ossification.
  - `security`: runtime monitoring of the protocol invariants, threats,
    audits and review cycles.
  - `genesis`: chain configuration, genesis specification, and the genesis
    balances and validator set.
  - `keys`: key generation and inspection over the ed25519-dalek,
    schnorrkel and hex crates.
- `tests/` — tests of the library.
- `app/` — the command line: argument parsing, printing, files, and the
  floating-point emission curves.
