# luncher

A daemon-backed Wayland launcher with script, application, clipboard-history and
Hyprland window-switcher modes. The decision logic is a Verus-verified library;
the program around it does the I/O.

- `src/` — the verified library (`luncher`):
  - `search` — launcher items, query parsing (`#tag` filters), the fuzzy search
    over items (backed by `nucleo`);
  - `state` — the window's state machine: query editing on UTF-8 boundaries,
    selection, scrolling, what a key does;
  - `modes/` — the rows of each mode (scripts, piped lines, desktop entries,
    Hyprland windows, clipboard history), exec/fetch/tool outputs;
  - `clipboard/` — clipboard entries and their labels, URI-list and path
    normalisation, the history the daemon reports, store eviction, client
    reply checks;
  - `protocol` — daemon messages and their length-prefixed framing;
  - `renderer` — pixel compositing, rectangles, row layout, preview scrolling
    and greedy word wrapping;
  - `cli`, `app`, `config`, `text` — mode selection, refresh timing, defaults and
    string helpers.
- `app/` — the executable: argument parsing, configuration files, the daemon and
  its socket, the clipboard store on disk, the Wayland window, font rendering.
- `tests/` — tests of the library.
