# slasher_horrorscripts

A terminal tool that shows horror-movie icons as ANSI art, optionally beside
system information, written as a Verus library with a thin program around it.

- `src/` is the verified library:
  - `text` — decimal rendering and parsing, padding, prefixes, line splitting;
  - `ansi` — cutting text to a column budget without breaking escape sequences;
  - `paint` — colouring through the `colored` crate;
  - `fetch` — the system-information values and the lines that show them;
  - `layout` — the image block beside the information, the logo fetch, and the
    text around a Sixel image;
  - `term` — terminal width and character-cell size;
  - `cli` — options, render style names and what to do for them;
  - `assets` — choosing the image to show and the messages about it.
- `app/` reads the environment, the terminal and the system, decodes and
  scales images (floating point), renders them with `px2ansi` and prints.
- `tests/` runs the library on concrete values.
