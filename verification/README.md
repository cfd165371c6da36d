# dropshot_api_manager

A manager for the OpenAPI documents that Dropshot API definitions generate:
it names document files, decides for every supported API version whether the
local, blessed (upstream) and generated documents agree, lists the problems
and the fixes for them, and renders compatibility issues between a blessed
and a generated document.

The library under `src/` is written in Verus, and Verus proves the contract
of every function except the few trusted wrappers (marked
`#[verifier::external_body]`). Each wrapper makes one call into `std`,
`semver`, `git-stub`, `camino`, `textwrap`, `serde_json` or `similar`; its contract is assumed, not proved: it names what the outside
code returns and states only the short facts that its source shows. Its
modules:

- `names`, `docpath`, `pointer`, `text`: file names, versions, JSON pointers
  and document paths.
- `problems`, `resolve`, `per_api`, `overview`, `summary`, `messages`,
  `fixes`: resolution of each API version, the problems found, their fixes
  (as planned file operations), and the texts and exit codes of a check or
  generation.
- `tree`, `groups`, `compat`, `render`, `humanize`, `wrap`: the `$ref` trees
  of compatibility issues, their grouping by endpoint, de-duplication across
  versions, and rendering as styled, wrapped text.
- `detect`: comparing a blessed and a generated document: normalizing old
  websocket responses first, then turning the report of `drift`'s
  comparison into compatibility issues. `drift::compare` itself panics on
  some documents that no check made beforehand can rule out, so it is
  called from `app/`.
- `generate`, `diffing`, `unidiff`: the plan of the `generate` command and
  the counts of what came of it; the versions the `diff` command shows; the
  layout of unified diffs.
- `vcs`, `stubs`, `entries`, `sources`, `titles`, `listing`,
  `plural`, `errors`: what is read from Git and Jujutsu, Git stub files,
  directory and revision listings, argument-driven source selection, and
  output helpers.

`app/` holds the ordinary Rust around it: terminal styles, command-line
arguments, running Git and Jujutsu, comparing documents with `drift`,
carrying out fix and generation plans on disk, and writing diffs.
