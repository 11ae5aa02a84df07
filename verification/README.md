# media_utils

Verified logic for looking after MP4 camera recordings, and two command-line tools
around it.

- `rewriter check` and `rewriter fix` find and finish recordings whose rewrite stage,
  which embeds the capture time of every frame, was interrupted by a crash.
- `bframes check` and `bframes fix` find and repair files whose timing contradicts
  the display order of the H.264 bitstream.

## Layout

- `src/` is the library, written in Verus: every function states in its contract what
  it returns, and Verus proves that it does. It works on plain values and performs no
  I/O. What it relies on without proof are five calls: the type of a NAL unit
  (`h264-reader`), moving a point in time (`chrono`), the extension of a path
  (`camino`), escaping a search pattern (`glob`) and lower case (`std`). Each stands
  behind a small function whose comment says what is relied on.
- `tests/` runs the library, those calls included.
- `app/` reads and writes: command line, files, video. Rounded figures (rates,
  milliseconds) are formatted there, in floating point.
