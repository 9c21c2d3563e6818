# big_sql

SQL for a bitmap engine, as a library: one statement goes in, and what comes out is the calls of
the query language it means, the shape its answers are shown in, and the privileges whoever sends
it has to hold. What the engine cannot answer is refused by name, with a sentence saying what
exists instead.

Every function carries a contract that Verus proves, but for the one that reads the clock, of which
nothing can be said.

- `lex`, `parse/`: text to a statement. A rule of the grammar is a specification function over
  tokens, `read_...`, and the parser's methods are proved to follow it, position and refusal
  included.
- `qualify`: the database of every name the statement did not qualify itself.
- `lower/`: a statement to calls and a shape, `lowered_...`. `lower/meaning`, `lower/laws` and
  `lower/asked` state what holds of every lowered statement.
- `sql`: the steps together, and `Sql::demands`.
- `rbac`: roles, grants and the decision.
- `explain`, `render`, `print`: statements and schemas as text. `readback` proves that a rendered
  schema parses back to itself, where its names are words, its columns are ones a statement can
  declare, and its engine's name has no quote in it.
- `civil`, `rounding`: the calendar, and why a comparison of a rounded date is a range.
- `text`, `sorted`: what the rest is built from. `text` also holds the contracts of the functions
  of the standard library that are taken as given.

`tests/` runs the library from outside.
