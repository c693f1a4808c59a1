# codeloupe-mcp

A server for the Model Context Protocol that gives coding agents bounded, local
access to large code bases: reading files and symbols, searching names and
contents, comparing directories, and structured edits. It speaks JSON-RPC on
standard input and output.

## Layout

- `src/` is the library. Its functions are verified with Verus: each states what it
  returns, and the laws that relate several functions are proved beside them as
  public proof functions. What the library takes from other crates and from std
  beyond what Verus knows stands behind small wrappers whose contracts are
  believed, not proved: `encoding_rs` for text encodings, `similar` for
  differences of texts, `regex` and `glob` for patterns, `grep-regex` and
  `grep-searcher` for the lines of a file that match one, `fuzzy-matcher` for
  scores, `bytecount` for counting, `tree-sitter` with its grammars for syntax,
  and a few functions of std.
  - `text`, `lines`, `words`, `numbers`, `order`, `sorted`, `sorted_map`,
    `fractions`, `json`: texts, numbers and collections.
  - `paths`, `path_order`, `common`, `workspaces`: paths, and how the paths and
    workspaces that a client names are resolved.
  - `encoding`, `line_endings`, `history`, `diffs`: the contents of files and
    what is recorded of their changes.
  - `syntax`, `parsing`, `patterns`, `globs`, `line_search`, `unicode`: syntax
    trees, regular expressions, glob patterns and the search for lines.
  - `indexer/`: the index of paths and the state of the index of contents.
  - `security/`: the guard of paths and the limit on the rate of calls.
  - `transport`, `requests`: the framing of messages and the answers to them.
  - `tools/`: what each tool decides and computes.
- `app/` is the server around the library: files, threads, the stores on disk and
  the rendering of answers as JSON.
- `tests/` runs the library on concrete values.
