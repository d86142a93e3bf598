# asimov-huggingface-module

Reads references to Hugging Face Hub repositories (bare ids such as
`org/name`, shorthands such as `datasets/squad`, or `huggingface.co` /
`hf.co` URLs) and lays out a repository's metadata, authors and commit
history as a JSON-LD graph.

- `src/` is the library, verified with Verus:
  - `kind.rs`: the three kinds of repository and their path segments;
  - `repo.rs`: reading a reference (`parse_ref`), the public URL
    (`base_uri`), and the proof that a URL reads back as its reference;
  - `meta.rs`: the Hub's metadata (`RepoInfo`, `CommitInfo`, ...), licenses,
    author handles and person IRIs;
  - `people.rs`: the sorted set of author handles;
  - `jsonld.rs`: the JSON-LD graph and its context;
  - `api.rs`: Hub API endpoints, the commit cap, token choice and the plain
    commit listing;
  - `text.rs`: character-level helpers (trimming, searching, decimal text).
- `app/` is the `asimov-huggingface-fetcher` program: command line, HTTP
  requests, JSON reading and writing.
- `tests/` runs the library on concrete values.
