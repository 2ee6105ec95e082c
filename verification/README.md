# fetch_spp

The verified core of Fetch, a search engine for the Search Patterns
Protocol: sites publish URL patterns, finite sitemaps of bindings and
content envelopes in FON, and the engine expands them into pages,
identifies each page stably and keeps a full-text index in step with the
published catalog.

- `src/` is the library, written in Verus. Each public function states
  in its contract what it returns; the laws of the library (canonical
  patterns, unique mapping identities, idempotent index synchronization,
  exclusive leases, bounded backoff, same-origin crawling) are proof
  functions beside the code they speak of.
- `tests/` runs the library on concrete inputs.
- `app/` is the service around it: the HTTP API, the Tantivy index, the
  redb crawler state and the HTTP fetching.

Page bodies are indexed as written: ffm-parser 0.1.0 has no plain-text
renderer for Markdown. The console's database-backed handlers (users,
domain rows, sessions, OAuth sign-in) are outside this crate; the
decisions they make (domain validation, verification tokens and answers,
session cookies) are in `src/`.
