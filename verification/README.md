# ragequiet

Ragequiet listens to a microphone and nudges whoever speaks too loudly. It lives
in the tray, learns what a calm voice sounds like on each microphone, and plays
an alert when a voice is both louder and brighter than that for long enough.

- `src/` is the library, verified with Verus: single-precision arithmetic
  (`binary32`), the detection engine and its calibration (`engine`), the per-frame
  detector (`detector`), hold and cooldown (`alert`), framing of captured samples
  (`audio`), playback (`player`), alert sounds (`sounds`, `decode`), settings
  (`config`), the app's state machine (`app`) and what its windows show (`ui`).
- `app/` is the program around it: devices, files, the tray and the windows.
- `tests/` runs the library on concrete values.

The library holds a sample or a level as an `F32`, the bits of a single, and its
contracts say exactly how each operation rounds. Sines, exponentials, logarithms
and spectra are worked out by `app/` and handed in. The one thing the proofs take
on trust is the decoding of PNG icons.
