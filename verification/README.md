# OpenAPI backend

Turns OpenAPI 3.0/3.1 documents into tools and resource templates. A document is registered as
a source; each of its operations becomes a capability whose schemas follow from the operation,
and a call of it becomes an HTTP request with the credentials that the document asks for.

- `src/` is the library. Every function states in its contract what it does, and Verus proves
  that it does. `src/laws.rs` and `src/template.rs` state what follows for the whole: names in a
  schema, what reaches a path, query or body, which credentials are asked for and where they go,
  the cap on bulk exposure, and how failures are answered.
- `tests/` runs the library on concrete documents, calls and responses.
- `app/` is what surrounds it: configuration as operators write it, files, HTTP, and the
  gateway's plugin interface.

JSON, YAML, URLs, base64 and HTTP methods are those of `serde_json`, `serde_yaml`, `url`,
`base64` and `reqwest`. What the proofs take for granted about them stands at the functions
marked `external_body` in `src/codec.rs`, `src/address.rs`, `src/credentials.rs` and
`src/exchange.rs`, and at the two specifications in `src/json.rs` and `src/text.rs`.
