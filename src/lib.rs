//! Incremental stabilisation of a live speech-recognition transcript: token
//! batches in, a bounded sequence of display blocks plus one live line out.

pub mod text;
pub mod subtitle;
pub mod blocks;
pub mod languages;
pub mod soniox;
pub mod modes;
pub mod state;
pub mod laws;
