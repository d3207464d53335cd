# polygraph

Cypher and ISO GQL queries, as SPARQL. The library under `src/` is written in
Verus: what each function does is stated in its contract and proved.

- `ast`, `parser`: the syntax of queries, and the parsers. A text is matched
  against a grammar; `parser::meaning` says what syntax a parse tree stands for;
  `parser::laws` holds what is true of every text.
- `sparql`: the SPARQL algebra that the translator writes.
- `translator`: from expressions and clauses to the algebra. `expr::meaning` says
  what each expression is translated to; `laws` holds what is true of every
  translation.
- `lqa`: the logical algebra, and the compiler of queries that write.
- `difftest`: the course of a run of a query against an `oxigraph` store, which
  `difftest::store` opens and updates.
- `number`: doubles. A decimal text is read as the nearest double, and a double is
  written with the fewest digits that are read as it, both by whole numbers alone.

Doubles are held by the texts that stand for them. The translations of function
calls, of path patterns and of arithmetic on dates, times and doubles are given in
the scope of a translation.

`app/` holds what is around the library: whole translations, printing by way of
`spargebra`, the queries to the store with the functions on doubles that they call,
errors that can be displayed, and floating point.
