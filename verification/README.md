# typst_docs_convert

Converts the Typst documentation from Markdown to Typst markup: the Markdown
pages below a docs root, the doc comments of the Typst sources, and the
descriptions of the reference's function groups.

The library in `src/` is verified with Verus:

- `md.rs`: the document model (nodes, front matter, options, errors) and the
  executable conversion of a parsed document.
- `convert.rs`: what each node converts to, as specification, with the laws of
  the conversion (fences that content cannot close, escaped text that reads
  back, link and footnote definitions read back by identifier, one-line
  headings, list lines that start with a marker or indentation, the import
  line of a page).
- `passes.rs`: the passes around a conversion: options for docs pages,
  trimmed output lines, formatted doc comments, and doc comments put back in
  their source files.
- `parse.rs`: the documentation's Markdown dialect, and Markdown text parsed
  in it with the `markdown` crate.
- `paths.rs`: `/`-separated paths below the docs root: their number of
  components and their form without the file's extension.
- `visitor.rs`: finding the doc comments of definitions from the attributes of
  items.
- `text.rs`: character-level text operations.
- `outside.rs`: the calls into std and outside crates (`markdown`, `regex`,
  `heck`, `typstyle-core`) whose results are taken on trust.

`app/` is the program around the library: it reads the files, reads front
matter with `serde_yaml`, walks Rust sources with `syn`, and writes the
results.
