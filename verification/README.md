# narratarr

narratarr watches the ebooks you own (in Audiobookshelf, or a directory of
Calibre `.opf` sidecars), matches each one against Audible's catalog, and
adds confident matches to Listenarr as monitored audiobooks. Doubtful
matches go to a review report and a small web page; you answer in a plain
text overrides file or on the page.

## Layout

- `src/` — the library, verified with Verus:
  - `text`, `json`, `http`, `pattern`: characters and strings, JSON values,
    HTTP requests as plain values, and regular expressions (through the
    `regex` crate).
  - `matcher`: title and author normalizers, the facts a candidate is
    penalized or rewarded for, and the verdict rules.
  - `store`: decisions, their keys and status texts, and when a cycle
    works on a book again.
  - `reconcile`: interval parsing, the overrides file, the review report.
  - `abs`, `audible`, `listenarr`, `opf`: the requests to and replies from
    Audiobookshelf, Audible and Listenarr, and `.opf` sidecars.
  - `web`: routing, query decoding, the review page's payloads and verdicts.
  - `cycle`: one reconcile cycle's decisions — book order, verdict records,
    overrides, check-then-act sync.
  - `settings`: command line, config values, and how they combine.
- `app/` — the program: HTTP (ureq), the SQLite decision table (rusqlite),
  the web server (tiny_http), the config file (serde + toml), and the
  floating-point similarity scoring (difflib).
- `tests/` — tests of the library.
