# outside

The logic of `outside`, a terminal weather client, as a library verified
with Verus, and the program around it.

- `src/` — the verified library:
  - `text` — whitespace, splitting, joining, padding, number rendering over `Seq<char>`;
  - `geo` — US state codes and their names;
  - `location` — normalising location strings and looked-up names, planning
    a lookup, choosing among geocoding results, reusing cached records;
  - `http` — the HTTP/1.1 client's byte-level work: chunked decoding, judging
    a response, the request text, URL planning, the retry policy;
  - `terminal` — socket errors, terminal size, ANSI sequences, the screen
    backend's state and the keyboard decoder;
  - `settings` — units, output formats and the output templates;
  - `display` — the panels of the interactive display;
  - `bookmarks` — the bookmarked locations and their display order;
  - `cache` — cache file names.
- `tests/` — tests of the library.
- `app/` — the `outside` program: settings from file and command line,
  HTTP, files, the WASI host bindings and screen backend.
