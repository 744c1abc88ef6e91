# Joe's Book

A pick'em site for sports predictions with friends. Players pick against the
spread and rank their picks `1..=n` within each group of games: a right pick
earns its rank in points, a wrong one earns nothing. Books hold members and
weekly chapters; chapters hold spread groups and free-text questions.

## Layout

- `src/` — the rules of the site, verified with Verus:
  - `text.rs`: number parsing, joining, case folding of text;
  - `db/`: the records (books, chapters, events, picks);
  - `routes/`: what each page and form decides — checking pick submissions
    (a group's points must rank its games), chapter and book names, recorded
    answers and the points they award, the results table, sign-up and sign-in
    checks, who may enter a book or its admin pages;
  - `server/`: the checks of the server functions (owner-only actions,
    closing times, password hashing and login);
  - `error.rs`: how a refused request is answered.
- `tests/` — tests of the library on concrete values.
- `app/` — the web server: HTTP routing, Postgres queries, HTML, sessions,
  the robot check and Google sign-in. It reads requests and rows, hands plain
  values to the library and acts on what it decides.
