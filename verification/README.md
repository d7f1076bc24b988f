# localview

A verified library for the decisions of a local browser-inspection daemon:
content-addressed artifacts and their bounded store, canonical JSON and its
SHA-256 content addresses, UX contracts and their evaluation over runtime facts,
regression bisection, accessibility findings, Chromium discovery and output
bounds, and the control plane's rules for surfaces, source maps, perception
cycles and managed consequential actions.

Layout:

- `src/` — the library, written in Verus. Each public function states its
  result in `ensures` over spec functions and views; laws that relate several
  functions are public proof functions (`lemma_*`). Calls into outside crates
  (`sha2`, `hmac`, `hex`, `base64`, `url`, `serde_json`) stand behind small
  trusted wrappers whose contracts are documented where they are declared.
- `tests/` — executable tests of the library.
- `app/` — the unverified shell: file and network I/O, serde types, the
  floating-point checks, and the loops that perform the I/O the library's step
  functions ask for.
