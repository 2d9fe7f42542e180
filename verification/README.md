# diffpane

Review a git diff in your browser, comment on the lines, and hand the
feedback back as markdown for a person or JSON for an agent.

## Layout

- `src/` — the library, verified with Verus: the command line (`args`), the
  scope and the `git diff` command it stands for (`scope`), the changed-file
  model, the blob diff and hunk building (`changes`, `unified`, `hunks`,
  `classify`), the report
  renderers and the review's outcome (`report`), request validation and the
  HTTP API's guards and state transitions (`validate`, `server`), session
  naming (`session`), and the small pieces of the command around them (`cli`,
  `assets`, `skill`, `wait`, `browser`). Calls into `gix`, `sha2`,
  `getrandom`, `fastrand` and `bstr` go through small trusted wrappers whose
  contracts say what the library relies on.
- `app/` — the binary: reading the repository and its blobs with `gix`, the `axum` server,
  the session directory on disk, waiting with `tokio`, and the serde shapes of
  the JSON.
- `tests/` — the library's tests.

Exit codes: 0 approved (or nothing to review), 1 changes requested, 2
abandoned or timed out, 3 error.
