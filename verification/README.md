# cml-core

The engine of CleanMyLinux, a desktop system cleaner, written in Verus: every
decision the cleaner makes is a verified function with a contract.

- `src/` — the verified library: the protected-path safelist, the parsers for
  what apt, dpkg, journalctl, flatpak and snap print, the rows each scanner
  reports, the cleanup plan (which selected item is deleted, skipped or
  refused), the privileged-helper protocol and its replies, disk-usage
  accounting with hardlinks counted once, and what the frontends display.
  Laws that span functions are public proof functions named `law_*`.
- `app/` — the shell around it: the privileged helper program, directory
  walks, `/proc`, running system tools, deleting files, the configuration file,
  `sysinfo` sampling and the JSON on the wire.
- `tests/` — tests of the library on concrete values.
