# robine

A verified library for the Robine home-automation system: the Robine
language toolchain (lexer, parser, formatter, semantic analysis, project
manifests), the Flow automation language (parsing, checking, planning and the
run-time interpreter with idempotent gateway commands), the domain model, the
Matter and MQTT adapters' rules, the local Matter daemon, and the MCP tool
layer. The functions in `src/` are proved by Verus against their contracts,
except a few small trusted wrappers that make one call into `std`, `uuid`,
`semver` or `serde_json` each; their contracts state what those crates
document, and they are marked `#[verifier::external_body]`.

- `src/` — the library, each module with its specifications and proofs. The
  laws of the library stand there as public proof functions: among them,
  canonical texts read back (`flow_round_trip`, `format_laws`), formatting is
  idempotent (`format_idempotence`), and a saved job or secret is found again.
- `tests/` — executable tests of the library.
- `app/` — the command-line program: argument handling and file access around
  the library.
