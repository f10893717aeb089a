# croniq

The Croniq configuration language and its tooling as a verified library:
the lexer and recursive-descent parser of Croniqfiles, the formatter, the
validator, the compiler to a runtime configuration, cron conversion,
schedule preview and next-fire computation, and the authentication and
credential helpers (password and token hashing, JWT claims, TOTP, sealed
secrets).

- `src/` is the library. Its own functions are verified by Verus against
  their contracts. The calls into outside crates (bcrypt, SHA-256, HKDF,
  AES-GCM, base64/base32, JWT signing, TOTP, chrono and chrono-tz, uuid,
  rand, similar) sit behind small trusted wrappers, marked
  `#[verifier::external_body]`, whose contracts state what those crates'
  sources and documentation show; they are believed, not proved. The parser's contract ties each parsed file to the token
  stream through grammar specifications (`file_scan`, `item_fits` and the
  per-construct scans), so what the compiler, validator and formatter state
  of a tree carries back to the source text; for a refused file it names
  the diagnostic wherever `file_refusal` covers the place of the refusal.
- `tests/` exercises the library on concrete inputs.
- `app/` is the command-line program around it (`validate`, `fmt`,
  `compile`, `diff`, `convert`): argument handling, file I/O and JSON
  output.
