# yabumi

The verified core of yabumi, a small scripting language: its parser, the code that puts the files
of a program together, its standard library, and its language server.

`src/` is the library. Every function in it has a contract, and Verus proves it.

- `lexer`, `diagnostics`, `sources`, `text`, `numerals`, `names`, `ast`, `ast_build`, `types`,
  `generics`: what the rest is built on.
- `parser`: the grammar as a function from parse states to syntax trees (`grammar`, `state`), the
  parser that follows it, and the attachment of comments (`comments`, `comment_attach`).
- `module_resolve`: which files go together, what a module may hold, the namespace that all files
  share, and the values of constants.
- `eval`: values, keys and programs.
- `stdlib`: the functions of the language, and the codecs for JSON, YAML, TOML and CSV.
- `lsp`: positions, addresses, messages and their transport, queries, and the state of the server.

The files whose names end in `_laws`, and `comment_texts`, `toml_lines`, `numbering` and `distinct`,
hold what is proved of several functions together: that what was written reads back, that no comment
is lost, that constants do not depend on their order, that nodes have numbers of their own. `sealed`
hands out the grammar one step at a time, which keeps the proofs about node numbers small.

Floating-point numbers are held by their spelling. What reads and adds them is handed in.

`app/` is ordinary Rust around the library: files, processes, the network, the clock, floating
point, and the loop of the language server. `tests/` runs the library from outside.
