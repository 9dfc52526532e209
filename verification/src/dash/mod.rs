//! MPEG-DASH (mpd) support: manifest parsing, representation (quality)
//! listing, and segment planning.
//!
//! Video representations are exposed as qualities; the chosen representation
//! id is carried back in a `#rep=<id>` fragment of the manifest URL.

pub mod download;
pub mod duration;
pub mod duration_laws;
pub mod element;
pub mod laws;
pub mod manifest;
pub mod manifest_laws;
pub mod segment_laws;
pub mod segments;
