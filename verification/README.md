# bu-rust-mp3

A terminal player for MP3 playlists, written in Verus.

- `src/` is the library `bu_mp3`: what the player decides and computes, with contracts that Verus
  proves. It reads no files, no keys and no clock; it takes what was read as values.
- `app/` is the program around it: files, keys, the clock, the sound and the painting of the
  screen. Two shapes are computed there, because they take floating point: how much of the
  progress bar is filled, and the area that is a square in pixels. With `BU_MP3_COMPACT` set in
  the environment it runs the compact player.
- `tests/` runs the library on concrete values.

| module | what it holds |
| --- | --- |
| `models` | the data of the player |
| `args` | the command line |
| `scanner`, `path` | the files of a playlist, and their paths |
| `metadata`, `order` | tags, and sorting by them |
| `records`, `wire`, `cache` | what is stored between runs, as bytes, and when it still holds |
| `player`, `playlist`, `app` | the controls, and a run of the player |
| `tui` | what is on the screen |
| `terminal_image`, `encoding` | album art in the terminal |
| `compact` | the compact player |
| `text` | texts |
