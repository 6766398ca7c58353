# ries_rs

Find algebraic equations given their solution: for a target number `T`,
search for equations `LHS(x) = RHS` with a root near `T`, built from
integers, constants such as π and e, and elementary functions.

## Layout

- `src/` is the library, verified with Verus. It holds the symbolic core:
  the symbol alphabet (`symbol`), postfix expressions and their parsing
  (`expr`, `tree`), infix rendering (`infix`, `named`, `output`), structural and
  numeric-class constraints (`constraints`), solving an equation for `x`
  (`solve`), canonical keys (`canon`), the generation configuration and its
  pruning rules (`gen`, `config`, `expand`, `dedupe`), the command-line helpers that
  only handle text and integers (`args`, `diagnostics`, `profile`,
  `presets`, `runtime`, `options`), calendar arithmetic for run manifests
  (`manifest`), and the integer side of the relation search (`pslq`,
  `relation_text`).
  Every public function states its result in its contract.
- `app/` is the program: option parsing, reading profile files, and the
  floating-point parts of the search (evaluation with derivatives, Newton
  refinement, ranking by error, the report's scores, PSLQ iterations),
  which call into the library for every decision that is not numeric.
- `tests/` exercises the library on concrete values.
