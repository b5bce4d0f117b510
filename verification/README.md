# Aureus

The rules of a portfolio tracker, verified with Verus.

- `src/` is the library. It decides which records of a portfolio count, in what order they
  take effect, what they do to holdings and balances, what forms accept, what pages show and
  how it is worded. Every function states what it returns, and Verus proves it. Public proof
  functions state what holds of several functions together.
- `app/` is the window around it, with GTK and libadwaita. It loads records, fetches market
  data, computes with amounts as floating-point numbers along the steps that the library
  gives it, and draws.
- `tests/` runs the library on concrete values.

Amounts, prices and rates stay outside of the library. A record in it holds the facts about
its amounts that decisions rest on, such as a sign, or whether there is a price. Results name
records by their positions in the lists that were handed in.

JSON is read and written by `serde_json`; the module `json` says what is relied on.
