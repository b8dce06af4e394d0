//! A compiler and renderer for a compact textual music notation: input text
//! is split into channels and flags, each channel's notes are compiled, and
//! the result is laid out as sample-exact synthesis plans, with WAV
//! serialization for export. Around the core live the small verified pieces
//! of the surrounding application: content files, animation sheets, braille
//! rendering, endpoints, and configuration records.

pub mod api;
pub mod art;
pub mod channels;
pub mod client;
pub mod compose;
pub mod config;
pub mod content;
pub mod endpoint;
pub mod errors;
pub mod laws;
pub mod notes;
pub mod render;
pub mod server;
pub mod text;

pub use channels::{parse_channels, ChannelConfig};
pub use compose::{compile_composition, has_channel_flag, CompiledComposition};
pub use errors::MusicError;
pub use notes::{validate_midi_composition, MidiParser, Note, Seconds, Waveform};
pub use render::{plan_note, plan_notes, wav_bytes, Segment, SAMPLE_RATE};
