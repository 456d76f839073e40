# Foundry Circle

A broker for the active Foundry VTT world, and the tools that acquire licensed
Foundry releases for it. The decisions are a library whose behaviour is stated
in contracts and proved with Verus; the programs around it do the reading,
sending and writing.

## Layout

- `src/` is the verified library.
  - `text`, `paths`, `json`, `html`, `digest`, `clock`, `ledger`: texts, Unix
    paths, JSON documents, login pages, digests, spans of time, and a sorted map.
  - `release`, `archive`, `cache`: release names, the validation of ZIP archives,
    and the cache with its provenance records.
  - `web`, `fetch`, `account`: URLs and where they may lead, retries and limits,
    the order of the sources, and the login flow of a licensed account.
  - `daemon`, `hook`: the acquisition service for Nix builds and the build hook
    that asks it.
  - `reconcile`: seeding of mutable module and system directories.
  - `driver`, `auth`, `http`: the live world, logins and sessions, and what the
    endpoints answer.
- `app/` holds the programs: `foundry-circle`, `foundryvtt-fetch`,
  `foundryvtt-fetchd` and `foundryvtt-fetch-hook`.
- `tests/` runs the library on concrete values.

## What is stated

Functions that can fail say on which inputs they do, and with which error: the
contracts compare the content of an error with a specification such as
`archive_fault` or `manifest_trouble`. Flows that alternate between decisions
and the outside world (`account_step`, `serve`, `session_step`, `oidc_callback`,
`retry_step`, `acquire_step`) are functions from a state and an event to what is
done next. Public proof functions named `lemma_...` state what holds across
several functions: that an accepted archive stays inside its directory, that a
read from the cache gives back what was put, that an archive is handed out only
with the declared hash, that packages are seeded once, that a session is saved
only for someone with access.

What comes from other crates (SHA-256, hexadecimal, Base64, ZIP, JSON, URLs,
times) is called through small functions marked `external_body`. Their contracts
are believed, and each says above it what it claims. A result that would take
pages to state has a name instead, such as `url_of` or `json_at`.
