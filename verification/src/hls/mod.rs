//! HLS (m3u8) support: playlist reading, quality variants, and segments with
//! AES-128 encryption.

pub mod download;
pub mod error;
pub mod iv;
pub mod keys;
pub mod laws;
pub mod listing;
pub mod playlist;
pub mod variants;
