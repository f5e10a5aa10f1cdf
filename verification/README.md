# lisp

A small Lisp read-eval-print loop whose reader, evaluator and printer are
verified with Verus.

Each line typed is uppercased, read into an s-expression, evaluated with the
global environment as its local environment, and printed. `SETQ` puts a
binding in front of the global environment, which the next line sees.

## Layout

- `src/sexpr.rs`: cells (`Elem`, `Expr`), their model `Sx`, the diagnostics the
  interpreter reports, the faults where it stops, and the list primitives
  (`car`, `cdr`, `cons`, `eq`, `append`, ...).
- `src/text.rs`: text as UTF-8 bytes: character boundaries, whitespace
  splitting, decimal numbers.
- `src/reader.rs`: the reader. A parenthesized text is cut at its top level into
  words and groups, with the parentheses located by the `regex` crate.
- `src/printer.rs`: the printer.
- `src/eval.rs`: the evaluator, as spec functions (`eval_s` and the functions
  it calls) and executable functions proved to compute them.
- `src/repl.rs`: one line of the loop, and the initial bindings.
- `src/laws.rs`, `src/fuel.rs`, `src/roundtrip.rs`, `src/bindings.rs`,
  `src/isolation.rs`, `src/untouched.rs`: properties across functions, proved:
  CAR/CDR undo CONS, EQ is equality, APPEND concatenates, ASSOC finds the first
  binding, a SETQ is read back, larger evaluation budgets agree, printed
  s-expressions read back as themselves and canonical texts print as read, the
  global environment only grows, is never read, and is left alone by an
  evaluation that holds no SETQ.
- `app/main.rs`: standard input and output.

## Model

- Text is handled as UTF-8 bytes, and symbols are byte strings.
- Where the program would panic (an integer overflow, a division by zero, a
  text slice off a character boundary, a character index past the end), the
  library returns a `Fault` instead; the program then panics.
- Evaluation takes a budget (`fuel`): each nested evaluation spends one unit,
  and a form that does not finish within it ends in `Fault::OutOfFuel`. The
  program passes `u64::MAX`.
- Diagnostics are appended to a log, which the program prints before the value
  of the line.
