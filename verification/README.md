# perfectionist

The decision logic of a set of Rust lint rules, written in Verus with
its contracts proved.

- `src/` is the verified library. Each rule in `src/rules/` takes plain
  facts about the code under lint and returns the diagnostics to emit:
  `excessive_nesting`, `named_prelude_imports`, `overly_long_file`,
  `overly_long_function`, `overly_long_method_chain`,
  `too_many_struct_fields` and `unordered_struct_fields`.
  `code_lines.rs` counts lines of code over `rustc_lexer`'s tokens,
  `rule_index.rs` holds the sorted lint list and the registration rules,
  `derive_list.rs` reads `derive(...)` lists, and `text.rs` the shared
  character-level helpers and the order on texts.
- `app/` is the compiler plugin around it: lint declarations, the lint
  passes that read the compiler's HIR and AST into the library's types,
  `dylint.toml` parsing, and diagnostic emission. It needs the
  compiler's private crates (`rustc-dev`).
- `tests/` runs the library on concrete inputs.
