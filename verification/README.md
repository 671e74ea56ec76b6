# intro_outro

Finds the common opening and ending of a season's episodes and cuts them out of
every episode, into new files. The episodes themselves are never written to.

- `src/` is the library, written in Rust and verified with Verus: which videos
  there are, what is kept of each, which commands are run and in which order, what
  follows from what came of them, what the window shows.
- `src/laws/` states what holds of the library as a whole: that what is kept is
  what was not detected, but for fragments shorter than half a second, that no
  episode is planned or cut onto itself, that only files which a run left are
  removed after it, and that they are however it went, that times which are shown
  can be typed again.
- `app/` is the program around it: it starts ffmpeg, ffprobe and needle, reads and
  writes files, and draws the window.
- `tests/` holds the tests of the library.

Times are whole nanoseconds in the library; `app/` turns floating-point numbers
into them where needle or the window have such. A time that is not zero is at least
one nanosecond long, and one that is out of range is the last that is in it. Where a
time is written, or handed to needle, the seconds are taken as the number that 64
bits, or 32, can hold. Paths are texts; `app/` finds a text for those that are none.
A path is a Windows path where it begins with a drive and a separator, or with a
`\`; every other path has `/` as its only separator. `app/` writes the paths of the
system it runs on accordingly.

One thing is taken on trust: that `String::push` appends a character.
