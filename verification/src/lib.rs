//! Core state of a small audio-player: an ordered playlist with cursor-based
//! traversal (linear or shuffled, with repeat policies) and a JSON
//! persistence format for the entry list.
//!
//! Audio decoding, output devices, tag readers and the host-facing glue live
//! outside this crate; the playlist never performs I/O itself. Persistence is
//! split accordingly: this crate renders and parses the JSON text, the host
//! moves it to and from disk.

use vstd::prelude::*;

pub mod json;
pub mod playlist;

pub use playlist::{
    EntryView, Playlist, PlaylistEntry, PlaylistError, PlaylistView, RepeatMode, ShuffleMode,
};

verus! {

/// Playback state of the player facade that owns a playlist.
#[derive(Debug, Clone, Copy, PartialEq, Eq, Structural)]
pub enum PlayerState {
    Stopped,
    Playing,
    Paused,
}

/// Error type surfaced to the host application.
#[derive(Debug)]
pub enum AmpereError {
    AudioError { message: String },
    FileError { message: String },
    InvalidParameter { message: String },
}

/// Whether `e` is the file-error variant, whatever its message.
pub open spec fn is_file_error(e: AmpereError) -> bool {
    match e {
        AmpereError::FileError { .. } => true,
        _ => false,
    }
}

/// Whether `e` is the invalid-parameter variant, whatever its message.
pub open spec fn is_invalid_parameter(e: AmpereError) -> bool {
    match e {
        AmpereError::InvalidParameter { .. } => true,
        _ => false,
    }
}

} // verus!
