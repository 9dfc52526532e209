//! Outcomes of torrent downloads.

use vstd::prelude::*;

verus! {

/// Why a torrent could not be downloaded.
#[derive(Debug)]
pub enum TorrentError {
    /// The torrent session failed; the text says why.
    Session(String),
    /// The download was cancelled.
    Cancelled,
}

/// An error as a mathematical value.
pub enum TorrentErrorView {
    Session(Seq<char>),
    Cancelled,
}

impl View for TorrentError {
    type V = TorrentErrorView;

    open spec fn view(&self) -> TorrentErrorView {
        match self {
            TorrentError::Session(m) => TorrentErrorView::Session(m@),
            TorrentError::Cancelled => TorrentErrorView::Cancelled,
        }
    }
}

/// The message shown for an error.
pub open spec fn error_message(e: TorrentErrorView) -> Seq<char> {
    match e {
        TorrentErrorView::Session(m) => "torrent error: "@ + m,
        TorrentErrorView::Cancelled => "cancelled"@,
    }
}

impl TorrentError {
    /// The message shown for the error.
    pub fn message(&self) -> (out: String)
        ensures
            out@ == error_message(self@),
    {
        match self {
            TorrentError::Session(m) => "torrent error: ".to_owned().concat(m.as_str()),
            TorrentError::Cancelled => "cancelled".to_owned(),
        }
    }
}

/// How waiting for a torrent ended.
pub enum WaitEnd {
    /// The download was cancelled while waiting.
    CancelSeen,
    /// The torrent is complete.
    Completed,
    /// The session failed; the text says why.
    Failed(String),
}

/// The outcome of a torrent download; `cancelled` tells whether it is cancelled
/// by now.
pub fn outcome(end: WaitEnd, cancelled: bool) -> (out: Result<(), TorrentError>)
    ensures
        match end {
            WaitEnd::CancelSeen => out matches Err(e) && e@ == TorrentErrorView::Cancelled,
            WaitEnd::Failed(why) => out matches Err(e) && e@ == TorrentErrorView::Session(why@),
            WaitEnd::Completed => if cancelled {
                out matches Err(e) && e@ == TorrentErrorView::Cancelled
            } else {
                out is Ok
            },
        },
{
    match end {
        WaitEnd::CancelSeen => Err(TorrentError::Cancelled),
        WaitEnd::Failed(why) => Err(TorrentError::Session(why)),
        WaitEnd::Completed => if cancelled {
            Err(TorrentError::Cancelled)
        } else {
            Ok(())
        },
    }
}

} // verus!
