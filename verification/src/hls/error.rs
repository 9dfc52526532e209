//! What can go wrong with a playlist or its segments.

use vstd::prelude::*;

verus! {

/// Why a playlist or its segments could not be had.
#[derive(Debug)]
pub enum HlsError {
    /// A request failed; the text says why.
    Http(String),
    /// A file operation failed; the text says why.
    Io(String),
    /// The playlist cannot be read; the text says why.
    Playlist(String),
    /// A segment is encrypted in a way that is not supported.
    UnsupportedEncryption,
    /// A segment could not be decrypted.
    Decrypt,
    /// The download was cancelled.
    Cancelled,
}

/// An error as a mathematical value.
pub enum HlsErrorView {
    Http(Seq<char>),
    Io(Seq<char>),
    Playlist(Seq<char>),
    UnsupportedEncryption,
    Decrypt,
    Cancelled,
}

impl View for HlsError {
    type V = HlsErrorView;

    open spec fn view(&self) -> HlsErrorView {
        match self {
            HlsError::Http(m) => HlsErrorView::Http(m@),
            HlsError::Io(m) => HlsErrorView::Io(m@),
            HlsError::Playlist(m) => HlsErrorView::Playlist(m@),
            HlsError::UnsupportedEncryption => HlsErrorView::UnsupportedEncryption,
            HlsError::Decrypt => HlsErrorView::Decrypt,
            HlsError::Cancelled => HlsErrorView::Cancelled,
        }
    }
}

/// The message shown for an error.
pub open spec fn error_message(e: HlsErrorView) -> Seq<char> {
    match e {
        HlsErrorView::Http(m) => "network error: "@ + m,
        HlsErrorView::Io(m) => "io error: "@ + m,
        HlsErrorView::Playlist(m) => "invalid playlist: "@ + m,
        HlsErrorView::UnsupportedEncryption => "segment uses an unsupported encryption method"@,
        HlsErrorView::Decrypt => "decryption failed"@,
        HlsErrorView::Cancelled => "cancelled"@,
    }
}

impl HlsError {
    /// The message shown for the error.
    pub fn message(&self) -> (out: String)
        ensures
            out@ == error_message(self@),
    {
        match self {
            HlsError::Http(m) => "network error: ".to_owned().concat(m.as_str()),
            HlsError::Io(m) => "io error: ".to_owned().concat(m.as_str()),
            HlsError::Playlist(m) => "invalid playlist: ".to_owned().concat(m.as_str()),
            HlsError::UnsupportedEncryption =>
                "segment uses an unsupported encryption method".to_owned(),
            HlsError::Decrypt => "decryption failed".to_owned(),
            HlsError::Cancelled => "cancelled".to_owned(),
        }
    }
}

} // verus!
