# ironclaw_memory

The rules of an agent's persistent memory workspace, verified with Verus:
path normalization and classification, multi-scope reads (identity documents
stay in the primary scope), memory layers and where a layer write lands,
document patching, listing merges, the system-prompt assembly, profile
syncing, seeding decisions, the memory tools' request planning, and the
per-key rate limiter.

- `src/` is the verified library. Every public function states what it
  returns in its `ensures`; the laws that span functions are public proof
  functions named `law_*`.
- `tests/` runs the library on concrete values.
- `app/` is the unverified shell around it: the document store interface,
  async I/O, JSON parameters and environment variables. It hands the library
  plain values and acts on the plans the library returns.

JSON Schema validation of document content is split the same way: the
library decides (`error::schema_verdict` rejects a write, patch or append
exactly when the validator reports a violation, with
`WorkspaceError::SchemaValidation`), while the validator itself is a
`SchemaValidator` supplied to `app/`; the original validator's source is not
part of this project. Without a validator, schemas in metadata are not
enforced.
