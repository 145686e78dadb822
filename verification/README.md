# rust_calc

The logic of a small desktop calculator whose history is kept in a
FerriteDB database, written in Verus and verified.

- `src/operator.rs`: the four operators and their keypad signs.
- `src/calculator.rs`: the calculator's input and evaluation state: typing
  digits and the decimal comma, backspace, choosing an operator, and the two
  steps of `=` (what to compute, and what the result does to the state).
  The state is generic over the number type; the program uses `f64`.
- `src/number.rs`: the decimal comma of displayed numbers.
- `src/history.rs`: history entries, the zero-padded record keys (with the
  proof that they sort in insertion order), the in-memory history and the
  latest entries shown above the keypad.
- `src/paths.rs`: where the database lives.
- `src/text.rs`: character-level string helpers.
- `app/`: the GTK program, the floating-point arithmetic and formatting, and
  the database I/O.

The program in `app/` shows the calculator, the three latest entries and a
history dialog that lists every entry, newest first. It has no language
selector, no statistics and no way to clear the history (records are
append-only), and a dialog row cannot be put back on the display: the
library keeps the entries as texts. Directory settings from the environment
that are not valid UTF-8 count as unset, since paths are held as strings.
