//! Download engine and queue of a desktop download manager.

pub mod browser;
pub mod clipboard;
pub mod dash;
pub mod download;
pub mod downloader;
pub mod grabber;
pub mod hls;
pub mod http;
pub mod model;
pub mod order;
pub mod sniffer;
pub mod sniffer_laws;
pub mod text;
pub mod text_laws;
pub mod torrent;
pub mod transfer_laws;
pub mod urls;
pub mod view_laws;
pub mod web_laws;
pub mod workers;
pub mod xml;

pub use crate::model::{DownloadTask, FinishedEvent, ProgressEvent, Quality, StreamInfo};
