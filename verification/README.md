# vtt

The logic of VTT, an offline push-to-talk dictation app, as a Verus-verified
library, with the desktop shell around it.

- `src/` — the verified library:
  - `text` — Unicode whitespace, trimming, word splitting and joining;
  - `polish` — transcript cleanup (filler removal, leading openers, repeated
    words, the pronoun "I", sentence capitals, closing punctuation);
  - `perf` — hardware profiles and the settings they imply;
  - `models` — the model catalog, lookup by id, download bookkeeping;
  - `config` — default settings and the transcript history;
  - `session` — what hotkeys, recordings, the tray and saved settings lead to;
  - `vad` — speech detection and silence trimming, from which frames are loud;
  - `audio`, `inject`, `transcribe`, `gpu` — recording limits, text delivery
    plans and the paste shortcut, segment joining, and the GPU backend name.
- `tests/` — tests of the library on concrete values.
- `app/` — the Tauri shell: microphone capture, the speech model, keyboard
  and clipboard, files on disk, and the floating-point signal code (frame
  energies, resampling).
