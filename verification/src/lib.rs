//! Playlist parsing and identity generation for a media-playlist backend.
//!
//! The core of the library is a permissive parser for extended-M3U playlist
//! text and a deterministic identifier generator for the channel records the
//! parser produces. Parsing is total: malformed input yields fewer records,
//! never an error. Identifiers are a pure function of a record's name and
//! url, so repeated parses reproduce them exactly.

pub mod channel;
pub mod ident;
pub mod parser;
pub mod text;

pub use channel::Channel;
pub use ident::generate_id;
pub use parser::parse_m3u;
