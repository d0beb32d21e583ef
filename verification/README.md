# rusk

`rusk` transpiles an indentation-based Rust dialect (blocks by layout, `fn .. = body`,
`do expr`, `#derive(..)` attributes, `Type[T]` generics, dotted paths) to Rust, with a
line source map and a JSON source tree.

The library in `src/` is written in Verus; every function carries a contract that the
verifier proves against mathematical models of its inputs and results:

- `text`, `lower`, `expr`: character classes and searches, `[..]` generics and dotted
  paths, `if .. then .. else` and other expression lowering.
- `layout`: source lines (tabs refused) and the indentation tree.
- `classify`, `emit`, `render`: the kinds of lines and the emitter, specified in `emit` and
  carried out in `render`.
- `json`, `model`: the public result types and the JSON source tree; `json_reading` reads
  JSON text back into values, to state what the source tree's JSON says.
- `symbols`, `cli`, `editor`, `web`: the decisions of the language server, the command
  line, the editor extension and the playground web server.
- `laws`: properties of the library as a whole, each a proof function.

`app/` holds the programs around the library: the command-line tool, the language server,
the web server, the editor extension and the WebAssembly entry points.
