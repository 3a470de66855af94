# stanchion

A registry for plugins. It reads manifests, works out a load order, decides what each plugin may
have, checks where a plugin came from, installs and upgrades plugins from an index, serves such an
index, and offers one host object to bindings for other languages.

The library is written in Verus: every function states what it returns or changes, and the proofs
are checked together with the code.

## Layout

- `src/`: the library.
  - Values and texts: `value`, `lua`, `json`, `document`, `text`, `path`, `names`, `version`,
    `clock`, `error`, `failure`.
  - Plugins on disk: `manifest`, `discover`, `modules`, `signature`, `digest_laws`.
  - Loading: `resolve`, `components`, `order_laws`, `load`, `loader`, `load_laws`, `reload`,
    `registry`.
  - Rights: `capability`, `callback`, `trust`, `lock`, `upgrade`, `audit`, `sandbox`, `budget`,
    `guard`.
  - Distribution: `index`, `fetch`, `package`, `archive`, `install`, `staging`, `server`,
    `window_laws`.
  - Hosts and bindings: `backend`, `bridge`, `config`, `host`, `hosting`, `binding`, `handle`,
    `class`.
- `tests/`: what the library does on given values.
- `app/`: files, sockets, archives, interpreters and language bindings around the library.

## What is taken on trust

Versions are parsed and compared by `semver`, hashes computed by `sha2`, points in time read and
written by `time`, documents parsed and strings quoted by `serde_json`, archives read and written
by `tar` and `flate2`, and image references parsed by `oci_client`. Each of these calls stands in
one small function whose doc comment says what is claimed of it.

Where a decision needs something from outside (a clock, a policy, a provider, a file), the
function that decides takes it as an argument, and its contract holds for every value of it.
