# rewindd

The helper behind Rewind, a local time machine for the desktop. It captures the
focused output while recording is on, keeps what it captured in an archive below
the user's data directory, and answers searches, timelines and plans over it.
Nothing leaves the machine.

The rules of the helper are a library that is proved against its contracts with
Verus. What needs the desktop, the disk or the clock stands around it.

## Layout

- `src/` is the library.
  - `gate` decides when anything may be written: the switch, the pauses, the
    stretches of recording that a job belongs to, and what is put off while
    recording stands still. `pause`, `exclude` and `hypr` say why it stands still.
  - `daemon` says what a command, a picture, a clipboard text and a crop lead to;
    `ipc` and `cli` read commands, `capture`, `encode`, `dhash` and `pixel` deal
    with pictures, `ocr` and `clipboard` with texts.
  - `shot` takes a frame from the screen into the archive, `reader` reads the crops
    that were kept; each says what is to be done next, and is told what came of it.
  - `table`, `rows` and `archive` are the model of what is kept; `store` holds it,
    `tx` changes it all or not at all, `lookup`, `search`, `views` and `query` read
    it, `wipe` forgets it.
  - `plan` makes the plan by which windows are reopened.
  - `json`, `text` and `float` are what the rest is written with. `json` and
    `encode` hold the calls into `serde_json` and `image`.
- `tests/` runs the library.
- `app/` is the program: processes, files, SQLite, the compositor's protocol,
  threads, and whatever is reckoned in floating point.

## What is proved

- While recording is off or stands still nothing is captured or kept, and what is
  put off waits. A job that began before a pause can never write after it.
- A frame that is given up leaves none of its files behind: all of them are named
  for removal.
- A clipboard text kept in one stretch of recording is carried by no frame of
  another.
- Recording is on only where consent was given.
- A transaction happens as a whole or not at all: it asks before each write and
  before its end whether writing is still allowed, and the first no undoes it.
- A kept frame or clipboard text leaves the archive within its cap, counted in
  bytes, with the oldest observations gone first.
- What is removed leaves its files on a list until they are gone, and a wipe says
  so where one is left.
- A search shows the newest hits first and finds what was copied; a moment
  resolves every frame; a plan accounts for every window.
