# diskzap

Reclaims regenerable cache and build files: package-manager caches, build
artifacts under a `--root` (and Xcode `DerivedData` at its fixed path), stale
versioned browser installs, container VM
disks (reported always, deleted only with `--include-vm-disks`) and named app
caches (opt-in). It reports by default and deletes only with `--apply`.

## Layout

- `src/` is the library, verified with Verus. Every decision lives here:
  - `targets`: the catalog of everything that may ever be deleted.
  - `config`: reading the command line, and what the flags allow.
  - `resolve`: home locations, stale versioned installs, manifest-gated
    build directories, and what a walk of a `--root` does with each entry.
  - `paths`: paths as component sequences; nesting and ordering.
  - `dedupe`: dropping candidates nested inside other candidates.
  - `safety`: the guards (missing, protected, outside root, in use).
  - `report`: judging a candidate, its report line (including how a removal
    went), totals, delegated cleanups.
  - `render`: the human-readable report; `units`: byte counts.
  - `volume`: free space from `df -Pk` output; `text`: small text helpers.
- `app/` is the command-line program: it reads the arguments and the
  filesystem, runs the delegated tools, removes what the library judged
  removable, and prints the report (JSON through serde).
- `tests/` exercises the library on concrete values.
