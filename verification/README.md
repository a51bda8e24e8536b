# aldebaran

A small proof-of-stake ledger, verified with Verus, and a command-line
Black-Scholes option calculator built next to it.

- `src/` — the verified library: transactions identified by their SHA-256
  hash (`transaction`), blocks sealed by a hash over their header and their
  transactions and linked to their predecessor (`block`), the validator
  registry with its stake-weighted proposer election (`validator`, `pos`,
  `rng`), and the ledger that ties them together (`blockchain`). `encoding`
  renders integers in decimal and bytes in hexadecimal; `digest` calls the
  `sha2` crate.
- `tests/` — tests of the library on concrete values.
- `app/` — the program: the option-pricing command line (floating point,
  outside the verifier) and console reporting around the ledger.
