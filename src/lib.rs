//! Text-to-speech core: text normalization (and the proof that it is
//! idempotent), the phoneme vocabulary, the voice catalog and embedding store,
//! the synthesis cache with its size and age limits, the decisions of the
//! synthesis pipeline, the audio container, and the values of the HTTP
//! boundary.
pub mod audio;
pub mod cache;
pub mod embedding;
pub mod error;
pub mod normalize;
pub mod normalize_laws;
pub mod server;
pub mod text;
pub mod tts;
pub mod vocab;
pub mod voices;
