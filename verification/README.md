# mago_linter

Three rules of a PHP linter, written in Verus with their contracts proved:

- `argument_order`: named arguments must follow the order of the parameters of
  the function, method, constructor or attribute they are passed to, wherever
  the call stands in the program; the first issue of a call carries a fix that
  sorts the arguments by parameter position.
- `named_argument_ordering`: named arguments must be in alphabetical order; the
  issue carries a fix that sorts them by name.
- `slow_array_function_in_loop`: `count()`/`sizeof()` in a loop condition and
  `$a = array_merge($a, ...)` in a loop body, also inside its blocks and the
  branches of `if`, `switch` and `try`, are reported.

Layout of `src/`:

- `ast.rs`: the part of a PHP syntax tree that the rules read. Nodes carry the
  byte offsets of their text; names are UTF-8 bytes. An identifier carries both
  the name as written and the name that name resolution gave it.
- `reporting.rs`: levels, issues, fix plans, the codebase of known functions and
  methods, and the context into which a rule reports.
- `rule.rs`: rule metadata and settings.
- `text.rs`, `order.rs`: byte strings in the order of `str`, ASCII case folding,
  decimal rendering, joining, and stable sorting of positions by a key.
- `laws.rs`: properties of the rules proved for every input.

Each rule's `check` appends to the context exactly the issues that its
specification (`spec_issues`) gives for the node.

`app/` holds the serde forms of the configuration types, with conversions to
and from the library's types.
