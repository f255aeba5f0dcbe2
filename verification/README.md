# mini_scheme

A small Scheme interpreter whose lexer, reader, evaluator, builtins and
interactive-loop decisions are written in Verus and proved against
mathematical models.

## Layout

| Module | What it holds |
|---|---|
| `src/text.rs` | character classes and conversions between `str`, `String` and `Vec<char>` |
| `src/bignat.rs` | natural numbers of any size as decimal digits: add, subtract, multiply, divide, gcd |
| `src/number.rs` | exact rational numbers of any size (`Number`), their arithmetic and printing |
| `src/value.rs` | values and tokens, their models (`SValue`, `SToken`), copying and printing |
| `src/error.rs` | the error enum, its model and its messages |
| `src/lexer.rs` | source text to tokens (`tokenize`) |
| `src/reader.rs` | tokens to S-expressions (`parse`, `parse_all`) |
| `src/env.rs` | environments: an arena of frames with parent links, plus the output buffer |
| `src/builtins.rs` | the builtin procedures |
| `src/eval.rs` | the evaluator: special forms, calls, closures, `map` and `apply` |
| `src/repl.rs` | the global environment, `run`, `eval_to_string`, the bracket balance check and the interactive loop's decisions (`Repl::feed`) |
| `src/laws.rs`, `src/eval_laws.rs`, `src/wellformed.rs`, `src/read_back.rs` | proved laws about environments, builtins, evaluation, well-formedness, and printing then reading back |
| `app/main.rs` | the terminal program: reads lines, feeds them to `Repl`, prints what it reports |

Every executable function in `src/` states its result in terms of the model
(`sem_eval`, `sem_run`, `repl_feed`, ...). Evaluation carries a depth budget
(`EVAL_DEPTH` per top-level expression), so a runaway recursion reports
`Recursion depth exceeded` instead of exhausting the stack.

Numbers are exact fractions of integers of any size, so arithmetic on numbers
always gives a number (division by zero aside) and every numeral is read. A
non-integer prints its whole decimal expansion when the expansion ends (its
denominator is made of twos and fives), so every number read from a numeral
prints back as a numeral of itself; other fractions (such as 1/3) print
sixteen significant digits.
