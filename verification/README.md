# Aperio

A self-hosted MCP server that exposes an Obsidian vault to AI agents: it
lists, reads, searches, writes and soft-deletes notes over the Model Context
Protocol, behind OIDC bearer-token authentication, with a small status page.

## Layout

- `src/` — the verified library. It holds the server's logic; every
  function states its behaviour in `requires` / `ensures`.
  - `text.rs` — character-level text: white space, trimming, searching,
    splitting and joining, decimal numbers, the order of texts.
  - `paths.rs` — paths as text: joining, file names, stems, extensions, the
    component order of paths.
  - `vault.rs` — notes: the frontmatter fence, titles and tags, summaries,
    ordering of listings, the depth-first walks of a listing and of a folder
    count (as step functions: the program reads each directory they ask
    for), and the search for a free name for a deleted note in `.trash/`.
  - `tools.rs` — the MCP tools' parameters and the text of every reply,
    including case-insensitive search.
  - `status.rs` — the status page: durations, sync health, vault counts.
  - `config.rs` — the configuration derived from the environment variables.
  - `auth.rs` — bearer tokens: picking the provider's key by `kid`, required
    claims and scopes, challenges (`WWW-Authenticate`) and the RFC 9728
    metadata.
  - `keys.rs` — the provider's key set and the key chosen from it.
  - `validation.rs` — what decoding a token checks: algorithm, leeway,
    audience and issuer.
  - `error.rs` — the server's errors, their HTTP statuses and messages.
- `app/` — the program around the library: environment, files, HTTP (axum),
  MCP (rmcp), JWKS fetching (reqwest), YAML and JSON (serde), templates
  (askama). It does the outside work and hands plain values to the library.
- `tests/` — tests of the library on concrete values.

The library does no I/O. Where a step needs the file system or the network,
the program performs it and passes the result in: a directory's entries, a
file's text, the outcome of parsing a YAML block or decoding a token.
