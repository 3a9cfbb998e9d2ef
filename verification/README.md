# aircard

The verified core of a Windows tool that restyles Apple Wallet cards and the
passcode keypad of an iPhone.

`src/` is the library, proved with Verus:

- `scanner` — recognising card hashes and pass names in device log lines,
  cutting the log stream into lines, and keeping the list of saved cards.
- `passthm` — reading `.passthm` keypad-theme archives into the files to
  write (and writing such archives), with the file names every keypad
  language looks for.
- `pdf` — the one-page PDF that carries card artwork.
- `flasher` — the flash runs: which files go to which device directory, in
  which order, and what happens when a write fails.
- `session`, `ui` — what background tasks change in the session, when the
  write buttons are enabled, log lines, labels and device selection.
- `afc`, `apple`, `paths`, `text`, `pattern` — device file-service paths,
  locating Apple Mobile Device Support, path names, text helpers, and the
  regular-expression calls.

Calls into `regex`, `base64`, `zip`, `image` and `miniz_oxide` stand behind
small trusted wrappers whose contracts name what the crates compute.

`app/` holds what surrounds the library: files on disk, the clock,
randomness, image resampling, and the loops that drive the device through a
connection the caller supplies. `tests/` runs the library on concrete inputs.
