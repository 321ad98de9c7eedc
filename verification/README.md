# gather

Gathers security and reliability data about the latest version of every crate
in a local copy of the crates.io index: download statistics, dependency
counts and cargo-deny advisory diagnostics, written out as one CSV row per
analysed crate face. The index walk skips hidden entries, descends into the
other directories and reads every crate file; reading a crate file stops at
the first line whose version is not a semantic version.

- `src/` is the verified library (Verus): advisory tallies (`advisories`),
  dependency counts and analysed faces (`deps`), version selection from the
  index (`index`), crates.io request URLs, pacing and retries (`crates_io`),
  CSV rows (`report`) and decimal rendering (`text`).
- `app/` is the program around it: command line, index walking, HTTP
  requests, archive unpacking, cargo and cargo-deny runs, and CSV writing.
