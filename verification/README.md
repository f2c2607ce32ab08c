# tdlang

A small statically typed scripting language, written in Verus: every
function of the library under `src/` carries a contract that Verus proves.

The pipeline, module by module:

- `token`, `chars`, `lex`: the tokens and the lexer (identifiers and white
  space by the Unicode tables of `unicode-xid`, string escapes by `unescape`).
- `ast`, `syntax`, `grammar`, `parser`: the syntax tree, its mathematical
  value, the grammar as functions from token positions to such values, and a
  recursive-descent parser that returns exactly what the grammar gives.
- `ty`, `tables`, `scope`, `type_ast`, `semantic`: the type table (an
  `indexmap::IndexMap`), the struct and function tables, the scopes of names,
  and the type analysis, whose results obey the typing rules of `semantic::typed`.
- `ir`: lowering of typed functions to basic blocks.
- `bytecode`, `package`, `compiler`: the register bytecode, constant interning
  (an `indexmap::IndexSet`) and the compiler from blocks to bytecode.
- `heap`, `vm`, `builtin`: the heap of objects (a `slotmap::SlotMap`) with a
  mark-and-sweep collector, the virtual machine as a step function whose every
  transition is specified, and native functions over it.
- `env`, `generator`: the tree of namespaces and the name tables of the code
  generator.

`app/main.rs` is the program around the library: it reads a source file, runs
the pipeline and drives the machine, doing the float arithmetic it hands out.
The tests under `tests/` run the library on concrete programs and values.
