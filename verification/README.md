# hn_reader

A terminal reader for Hacker News stories, with its logic verified by Verus.

- `src/` is the verified library:
  - `text.rs`: searching, replacing, tag removal, line splitting and decimal
    rendering over characters, each proved against its definition;
  - `models.rs`: stories, result pages, comment trees, and the stable
    highest-score-first ordering of stories;
  - `api.rs`: the addresses of the search and items requests;
  - `ui.rs`: HTML cleanup of comments, flattening of comment trees, date
    display, and the reader state with its key handling, together with the
    laws these keep;
  - `render.rs`: the text of each screen.
- `app/` is the program around it: the HTTP requests (reqwest, tokio), the
  JSON wire format (serde), the terminal (crossterm, ratatui) and the browser
  (opener).
- `tests/` runs the library on concrete values.
