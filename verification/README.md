# daudio

The decision logic of the daudio audio-plugin suite (a filter, a polyphonic
synth and a pitch-to-MIDI analyzer), written in Verus and proved against its
contracts.

- `src/` — the verified library:
  - `notes` — note names and scale quantization (nearest scale note, ties
    upward), with the octave, transposition and idempotence laws;
  - `trigger` — the debounced monophonic note trigger of the analyzer, as a
    state machine with its monophony and debounce laws;
  - `voice` — voice allocation (free voices first, oldest stolen) and the
    choice of voice a note-off releases;
  - `pitch` — the sample ring and hop gate behind windowed pitch detection,
    and the packing of a detection into one atomic word;
  - `pitch_to_midi` — root, response and bend-mode settings, the scale mask,
    the auto-bend decision, presets and the note readout;
  - `plugin_args` — the accepted arguments of the plugin attribute;
  - `preview` — the demo command lines and interleaved-to-stereo framing;
  - `meter`, `oscillator`, `synth` — the meter channel and waveform choices.
- `tests/` — scenario tests of the library.
- `app/` — the unverified rest: floating-point DSP, the threaded pitch
  tracker, the nih-plug plugins and their Vizia editors, the preview harnesses
  (cpal/hound) and the attribute's code generation (syn/quote).
