# pane

The verified core of Pane, a clipboard manager with a text expander.

- `src/` is the library, verified with Verus:
  - `text`: substring search, trimming, lines, UTF-8 byte lengths, lowercasing;
  - `numbers`: decimal and hexadecimal numerals, and reading an `i64`;
  - `categories`: labels copied text as color, URL, HTML, code or text;
  - `clipboard`: what a clipboard change turns into (skip flag, 50 KiB cut,
    hashing, de-duplication, image encoding through `image` and `base64`);
  - `db`: the stored records and the rules around the queries (flags,
    settings, clean-up sizes, copying back);
  - `expander`: the typed-keys state machine, the longest-trigger choice and
    the steps that paste a shortcut through the clipboard.
- `app/` is the Tauri application around it: the SQLite queries (rusqlite),
  the clipboard monitor thread (clipboard-master, arboard), the global key
  listener (rdev) and the commands.
- `tests/` exercise the library on concrete values.
