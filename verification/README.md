# quark

An experimental proof-of-stake ledger ("Quark", QRK): validators are
rewarded with quarks, combine three of them into a hadron (Up + Up + Down is
a Proton, Up + Down + Down a Neutron), and stake hadrons to gain weight in
the draw that picks who forges the next block.

Layout:

- `src/` is the library, verified with Verus:
  - `block.rs`: blocks, the SHA-256 linked chain, forging a block, checking
    and adopting a chain, the explorer page;
  - `ledger.rs`: balances and the transfer rule;
  - `transaction.rs`: signed transfers, the bytes their signature covers, their `Debug` text;
  - `validator.rs`: weights and the stake-weighted draw;
  - `quark.rs`: quark flavours and hadron recipes;
  - `wallet.rs`: Ed25519 keys, addresses, and the encrypted wallet format;
  - `node.rs`: forging hadrons, opening accounts, accepting transactions,
    merging peer lists;
  - `base58.rs`, `text.rs`: the Base58, decimal and hexadecimal renderings;
  - `crypto.rs`: the trusted wrappers around the outside crates.
- `app/` is the node program: the TCP chain exchange, the HTTP API, files.
- `tests/` runs the library on concrete values.
