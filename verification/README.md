# Katyusha core

The verified core of Katyusha, a universal package manager for Linux, written
in Verus. The library holds everything the package manager decides; the
program in `app/` performs the input and output those decisions ask for.

## Layout

- `src/text.rs` — character-level text handling (trimming, splitting, lines,
  searching, case folding), each function specified over `Seq<char>`.
- `src/repo.rs` — the package index (`[NAME][VERSION][URL][URL_PACK][DESCRIPTION]`
  per line): parsing, lookup by name, search.
- `src/manifest.rs` — the tab-separated registry of installed packages:
  reading, writing, adding, removing, lookup; proofs that a written registry
  reads back unchanged and that adding and removing keep names distinct.
- `src/security.rs` — https-only sources, the trusted-host allow-list,
  checksum comparison, and the per-entry audit of an extracted archive
  (symbolic links are resolved lexically, so a link to a missing target
  outside the extraction directory is refused too).
- `src/distro.rs` — distribution detection from `/etc/os-release`.
- `src/system_check.rs` — the order and meaning of the queries for copies
  installed by other package managers.
- `src/install.rs`, `src/remove.rs` — installation and removal as state
  machines: each step takes the outcome of the last action and gives the
  next one; proofs that nothing is downloaded from an untrusted source and
  that a changed checksum for the same version stops the installation. The
  unwrapping of a lone top-level directory is a small machine of its own
  (`Unwrapper`) whose final step states the whole way it went.
- `src/cli.rs` — the command line.
- `app/` — the executable: runs the actions (privileges, `curl`, the C core
  for archives and hashing, the file system) and prints the results.
- `tests/` — tests of the library on concrete inputs.
