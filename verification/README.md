# kunger

An inventory of the software installed on a Linux machine: APT/dpkg
packages, Flatpak refs, desktop launchers, fonts, AppImages and software
installed by hand, merged into one list, classified, checked for
cross-manager duplicates and browsable in a terminal.

- `src/` is the library, verified with Verus: the output parsers, the
  classification rules, merging and duplicate detection, each provider's
  decisions (which commands to run, how their outcomes end a scan, which
  items they yield), the scan summary, listing and export, the cached-scan
  diff and the terminal browser's state machine and texts. Public proof
  functions named `law_*` state the properties that hold across calls.
- `app/` is the `kunger` program: it runs commands and reads files for the
  providers, keeps past scans in SQLite and draws the browser with ratatui.
- `tests/` exercises the library on concrete inputs.
