# epg — a terminal XMLTV programme guide, verified with Verus

`epg` shows an XMLTV programme guide in the terminal with vim-style keys:
a channel list with what is on now and next, each channel's schedule, the
detail of a programme, search (`/`, `n`, `N`), filter mode (`f`) and sorting
(`s`). The guide is cached in SQLite and refreshed from a URL on request.

## Layout

- `src/` — the library, verified with Verus:
  - `app.rs`: the viewer's state (`App`) and its model (`AppView`), the
    selections and scroll windows, times and durations;
  - `search.rs`: searching and filtering the channel list;
  - `sort.rs`: the stable sort of the channel list by name or count;
  - `schedule.rs`: a channel's schedule, the detail view, the now/next cache;
  - `keys.rs`: what every key does on every screen, and the outside work
    (a search of the cache, a schedule, a refresh) a key needs first;
  - `ui.rs`: what the screens show as text (highlighting, truncation,
    wrapping, the status and hint lines);
  - `xmltv.rs`: XMLTV dates and the importer that turns a document's events
    into channel and programme records;
  - `text.rs`, `guide.rs`: strings and the guide's rows.
- `app/` — the program: command line, terminal, drawing with ratatui, the
  SQLite cache, downloads, and reading XML files with quick-xml.
- `tests/` — tests of the library.
