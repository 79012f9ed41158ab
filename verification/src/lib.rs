//! Utilities for parsing HTTP Live Streaming (HLS) media playlists
//! (i.e. not master playlists).
//!
//! The parser follows the media-playlist subset of RFC 8216, section 4:
//! header validation, singleton tag enforcement, duration parsing and
//! segment extraction. Every function is verified: the single entry point
//! [`MediaPlaylist::parse_ext_m3u`] is proved to return exactly the value
//! that the specification-level parse [`media_playlist::spec_parse`]
//! assigns to its input.

pub mod duration;
pub mod laws;
pub mod media_playlist;
pub mod numbers;
pub mod text;

pub use duration::Duration;
pub use media_playlist::{MediaPlaylist, MediaSegment, ParseError, TagKind};
