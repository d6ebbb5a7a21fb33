# lumen

The ledger and payment logic of the Lumen node — a Lightning payment API
for merchants on a Bitcoin layer-2 ledger — as a Verus-verified library.

- `src/` is the library. Every function carries a `requires`/`ensures`
  contract that Verus proves; outside crates (hashes, secp256k1, bitcoin,
  base64, uuid, chrono, wasmi) are reached only through small trusted
  wrappers whose contracts say what the crate's source promises.
  - Merchant API: `merchant` (registration, invoices, webhooks, balances),
    `auth` (API keys and request authentication), `payment` (crediting
    received payments, legacy balance events), `rate_limit`, `state`.
  - Ledger: `recovery` (replaying DA batches), `settlement` (the balance
    Merkle tree and proofs), `conservation` (laws on the LSAT total),
    `snapshot`, `da_adapter`, `bridge`.
  - Bitcoin: `wallet` (signed messages, addresses), `btc_tx`, `withdraw`,
    `settlement::create_settlement_tx`, `spv`, `btc_api`.
  - `vm` (the WASM contract runner) with `base58` for account keys.
  - Text, maps and sorting: `text`, `strmap`, `sorting`.
- `tests/` runs the library on concrete values.
- `app/` is the node around it: HTTP (axum), the Lightning node
  (ldk-node), storage (redb), the DA files, webhook delivery and the
  command-line clients. It holds no ledger or payment rule of its own.

Choices of representation:

- Maps keyed by text (balances, merchants, apps, withdrawals) are
  `strmap::StrMap`, an association list with unique keys whose view is a
  sequence of key/value pairs. Verus can state and prove what `insert` and
  `get` do on it; on a `HashMap<String, _>` it proves nothing of the kind.
  The VM's accounts are likewise an ordered `Vec` of key/account pairs.
- The VM's account keys and accounts are the library's own `Pubkey` and
  `Account` types (with the fields of a Solana account), and `base58`
  prints keys as Solana does; they take the place of `solana_sdk`, which
  this library does not depend on.
- Transactions are built and signed as `btc_tx::PlainTx`, plain values
  (version, lock time, outpoints with unlocking scripts, outputs) that the
  contracts speak of; a caller turns one into a `bitcoin::Transaction`
  field by field.
