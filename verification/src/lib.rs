//! The logic of a soundboard that plays sounds into a voice-chat
//! application through the PipeWire audio graph.
pub mod registry;
pub mod sounds;
pub mod stream;
pub mod text;
