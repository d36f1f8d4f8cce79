# rebarr (verified core)

Rebarr manages a library of manga and comics: it tracks series from AniList,
finds their chapters on several provider sites, keeps the best release of each
chapter canonical, and downloads it.

This crate holds the decisions of Rebarr as a library verified with Verus:
each public function carries a `requires`/`ensures` contract, and the
properties that span functions are proof functions named `law_*`.

- `src/` — the verified library, one module per concern (canonical selection,
  the stored chapter rows and scrape merging, the task table and its queue
  order and listing, provider scores and settings, trusted groups, webhooks, imports,
  suggestions and their visibility, downloads, rate limiting, text helpers).
- `tests/` — tests of the library on concrete values.
- `app/` — what the library leaves to its caller: the clock, HTTP headers,
  JSON payloads, waiting on the rate limiter, and the retry loop of AniList
  requests.

Calls into outside crates (uuid, regex, chrono, humantime) sit behind small
trusted wrappers whose contracts name or describe what the crate returns. The
rate limiter's pacing (period and burst) is computed here as plain values;
`app/` builds the governor quota from them.
