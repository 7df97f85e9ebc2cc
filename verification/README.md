# rtok

rtok cuts the tokens a coding agent spends: it digests oversized skills, answers repeated
reads and commands from an archive, indexes code with tree-sitter tags for symbol,
caller, impact and dead-code queries, rewrites tool results into compact tables, caches
prompts, and reports what it saved.

## Layout

- `src/` is the verified library. Every function carries a `requires`/`ensures`
  contract proved by Verus; the laws the library keeps across calls are public proof
  functions (`law_*`) next to the functions they speak of. Calls into outside crates
  (tree-sitter, tree-sitter-tags, regex, serde_json, sha2, similar, url) sit behind small
  trusted wrappers whose contracts name what the crate computes.
- `tests/` runs the library on concrete inputs.
- `app/` is the process-facing side: file reads, the cached tags queries, JSON hook
  payloads and request bodies, and the floating-point chart geometry. It decides
  nothing; it reads, converts and hands values to the library.
