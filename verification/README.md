# oTo

The decisions of an audio converter that drives FFmpeg, written in Verus: each
function states what it returns, and Verus proves it.

- `src/` is the library. It opens no file and starts no process. It reads what
  FFprobe and FFmpeg report, decides which files are converted and in what
  order, writes the arguments of each command, finds a place for each result,
  and counts progress and the room that temporary files take.
- `app/` is the desktop program around it: the windows, the processes, the
  files, and the loops that perform what the library asks for and hand back
  what came of it.
- `tests/` runs the library.

Work that takes several steps is a state machine: `convert` for one file,
`task` for one result of a batch, `resolve` for the place of a result, `probe`
for a look at an input, `copying` for an input from the network, `uploading` for
a result that goes there, `replace` for putting a new file in the place of an old
one. Each takes what came of the last action and returns the next one.

Nothing in the library is a floating-point number. Times are in millionths of a
second, levels in millionths of a decibel, ratios in billionths and percentages
in billionths of a percent. Decimals past these are rounded. A path is told from
others by its components, and an input is reported as it was given.

`src/outside.rs` and one declaration in `src/text.rs` hold what is taken on
trust: identifiers from `uuid`, base64 from `base64`, JSON from `serde_json`,
and a few functions of the standard library. Public proof functions state what
holds across several functions.
