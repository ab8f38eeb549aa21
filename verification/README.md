# monkey

A lexer, a Pratt parser and two tree-walking evaluators for the Monkey
language, written in Verus with their behaviour stated as contracts.

- `src/` is the verified library: `token`, `utils`, `lexer`, `parser`, `ast`,
  `object`, `environment`, `evaluator` (with environments and closures),
  `builtins`, and the plain evaluator `evaluator_enum` over `ast_enum` and
  `object_enum`.
- `tests/` runs the library on concrete programs.
- `app/` is the read-eval-print loop.
