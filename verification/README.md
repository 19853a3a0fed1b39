# acceptarium

Tooling to scan receipts, keep the scans as identifiable assets, extract
transaction data from them and hand it on to plain-text accounting.

The library (`src/`) holds the logic, verified with Verus:

- `ident`, `paths`, `text`, `json`: asset identifiers and checksums, paths as
  component lists, text helpers, and a model of JSON values with its compact
  text form.
- `transaction`, `assets`, `collection`, `fields`, `annex`, `annex_laws`:
  assets and their metadata, the set of assets and its listing order, single
  fields, the git-annex metadata encoding and what reading it back gives.
- `config`, `settings`: drivers, formats and settings, how the command line
  overrides them, how settled settings are read into a configuration, and
  how a configuration is exported to a child's environment.
- `storage`, `filesystem`: where files and metadata go when an asset is
  added or removed, and the arguments and output of `git-annex`.
- `tracker`, `template`, `acceptarium`, `process`, `navigation`: version
  tracking decisions, template rendering, store selection and batch
  screening, processing decisions, and the interactive view's state.

The program (`app/`) reads the command line and configuration, and carries
out what the library decides on the filesystem, in Git and with git-annex.
