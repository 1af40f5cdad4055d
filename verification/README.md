# literate_docs

Markdown documents whose code runs: every fenced code block in a known
language marked `exec` (or hidden in an `<!-- lang exec: code -->` comment)
is run, and its output is written after it, as an `output` code block or,
where the document already uses one, as an `<!-- output: ... -->` comment.

The library under `src/` is verified with Verus.

- `document`, `parse_markdown`, `render_markdown`, `escaping`: the document
  tree, read from and written back to markdown with the `markdown` and
  `mdast_util_to_markdown` crates; a document is handed to the writer only
  where the writer can take it (no text it escapes comes after a non-ASCII
  character in the same run, no unordered list starts with a code block).
- `with_output_nodes`, `fill_output_blocks`, `output_node`,
  `extract_code_blocks`, `literate_docs`: pairing blocks with output nodes,
  removing outputs that belong to no block, writing each block's output
  into the output node that follows it.
- `stability`, `output_order`: the laws of processing (pairing, idempotence,
  blocks kept, documents with nothing to run left unchanged, each output
  after its block, and outputs that already follow their blocks kept in
  their format).
- `execute_code_blocks`, `code_runner`, `process`: the language table and
  running code.
- `event_pipeline`: the same processing over a `pulldown-cmark` event stream.
- `tui`: the state of the interactive view: render nodes, output boxes,
  scrolling, keys, layout.

`app/` is the command-line program: argument handling, reading the input,
the terminal, and the background runs of the interactive view.
