# cairn

A terminal bookmark manager for web URLs. Each bookmark is a directory in the
library holding an `info.toml`; a SQLite index can be rebuilt from the
directories at any time.

## Layout

- `src/` is the verified library. Every function there carries a contract;
  Verus proves each one, except for the few functions marked
  `#[verifier::external_body]` that call the outside crates (`url`, `slug`,
  `scraper`, `dom_smoothie`, `shellexpand`, `nucleo-matcher`, `toml`) or
  std string functions, whose contracts are believed as their sources and
  documentation state them:
  - `urls`: normalizing URLs and the canonical key under which two URLs of
    the same page compare equal (with the laws that scheme, `www.`, case,
    trailing slashes, tracking parameters and query order do not matter);
  - `storage`, `paths`: directory names, collision suffixes, slugs, the
    trash, and path joining;
  - `capture`, `fetch`, `enrich`: what adding a URL does, what a fetched
    page says about itself, how saved metadata is completed, and what an
    enrichment changes;
  - `listing`, `filtering`, `tui`, `keys`, `session`: the browser's list,
    cursor, search, sort orders, tag and theme pickers, what each key does
    and how the search and add bars change;
  - `dedup`: grouping duplicate bookmarks by URL and by title;
  - `theme`, `catalog`, `config`, `validate`, `index`, `notes`: themes and
    the theme catalog, configuration, library checks, index rows and Apple
    Notes scripts;
  - `text`, `text_split`, `sorting`, `model`: the text, ordering and
    bookmark model the rest is stated in.
- `app/` is the program around the library: the command line, files, the
  network, the SQLite index and the terminal interface.
- `tests/` runs the library on concrete values.
