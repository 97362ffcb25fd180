# mogwai-server

The decisions of a simulated trading venue, verified with Verus.

- `src/` holds the library. It decides what a configuration may say, how orders,
  history requests and control requests are answered, what an account's risk
  policy costs it, which boats carry which passengers, what is written of a tape,
  and how the reference pages look on a terminal. Each function states what it
  gives. Where another crate computes a part of it, the result is stated in terms
  of that crate's own, and as digits only where these are known. What relates
  several functions is proved beside them.
- `tests/` runs the library on concrete values, with the crates that it calls.
- `app/` is the program around the library: arguments, files, sockets and clocks,
  and what is measured in floating point.

What the library takes from other crates stands behind small functions whose doc
comments say what is believed of them: decimal arithmetic in `decimal.rs`, Markdown
in `markdown.rs`, colours in `ansi.rs`, TOML in `tree.rs`.
