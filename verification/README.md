# oil

The decision-making core of the oil / wax package manager, written in Verus:
every function in `src/` carries a contract, and Verus proves the code meets it.

## Layout

- `src/` — the verified library.
  - `resolver` — dependency closure over a distribution index, with proofs that
    each package is emitted once, that dependencies come before dependents in
    an acyclic index, and that missing requests are reported.
  - `registry` (with `eopkg`, `opkg`, `flatpak`, `snap`) — package metadata,
    lookups by name and by provided name, the Solus index reader and the
    opkg feed locations.
  - `system_pm` — the host package manager: detection, the commands that
    drive it, and readers for its search and listing output.
  - `cask` — installing GUI applications on Linux: artifact types, checksums
    and the order of fallbacks.
  - `hooks` — pre-install hooks for apt, apk, dnf and pacman: the files they
    write and the Cellar guard they call.
  - `extractor` — archive member safety, package formats, RPM tool chains and
    what an extraction added.
  - `windows_state` — records of installed Scoop, winget and Chocolatey
    packages: where they live, listing order, lookups, link ownership and
    removal plans.
  - `path`, `order`, `text`, `xml`, `http`, `error` — paths compared as `Path`
    does, string order, text scanning, XML events, client settings, errors.
- `tests/` — tests run against the compiled library.
- `app/` — the I/O around the library: processes, files, HTTP, JSON records.

Calls into quick-xml, xz2, flate2, sha2 and a few std functions whose
behaviour Verus does not know are made through small trusted wrappers; each
one's doc comment says what its contract claims.
