# sfhtml

A command-line tool for single-file HTML apps that carry an AI-SKILL-HEADER
(a markdown block in an HTML comment describing the app): scanning a
workspace, reading and locating code, applying unified diffs with a history
for rollback, validating the header against the code, following module
dependencies, serving a page with live reload, and driving a browser over the
DevTools protocol.

## Layout

- `src/` — the library, written in Verus. Every function states what it
  returns in its contract and is proved against it; the laws that relate
  several functions (a reversed hunk undoes its hunk, the history cache keeps
  within its limit and evicts the oldest first, `init` writes a header the
  tool finds, sorts keep their elements in order, the output controls' bounds)
  are proof functions. Calls into other crates (`similar`, `oxc`,
  `html5ever`, `memchr`, `sha2`, `base64`, `serde_json`) and into the parts of
  the standard library that Verus does not specify go through small trusted
  wrappers whose contracts say what the crates document.
- `tests/` — tests of the library on concrete inputs.
- `app/` — the command line around the library: argument parsing, files,
  the network, threads, the browser, and the floating-point relevance score.
