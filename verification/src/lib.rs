//! Verified core logic of the daudio plugin suite: scale quantization and note
//! naming, voice allocation, the pitch-to-MIDI note trigger and its decision
//! rules, windowed sample buffering for pitch detection, the preview
//! harnesses' command lines, and the rules of the plugin attribute's arguments.
pub mod meter;
pub mod notes;
pub mod oscillator;
pub mod pitch;
pub mod pitch_to_midi;
pub mod plugin_args;
pub mod preview;
pub mod synth;
pub mod trigger;
pub mod voice;
