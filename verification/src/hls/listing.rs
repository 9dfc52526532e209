//! What a playlist lists, as read with the `m3u8-rs` crate.

use crate::model;
use m3u8_rs::KeyMethod;
use vstd::prelude::*;

verus! {

/// An encryption method.
#[derive(Debug)]
pub enum Encryption {
    Off,
    Aes128,
    SampleAes,
    Other(String),
}

/// The key of a segment.
#[derive(Debug)]
pub struct ListedKey {
    pub method: Encryption,
    pub uri: Option<String>,
    pub iv: Option<String>,
}

/// A segment of a media playlist.
#[derive(Debug)]
pub struct ListedSegment {
    pub uri: String,
    pub key: Option<ListedKey>,
}

/// A media playlist.
#[derive(Debug)]
pub struct MediaList {
    pub media_sequence: u64,
    pub end_list: bool,
    pub segments: Vec<ListedSegment>,
}

/// A variant of a master playlist.
#[derive(Debug)]
pub struct ListedVariant {
    pub uri: String,
    pub bandwidth: u64,
    /// The height of the picture, where a resolution is stated.
    pub height: Option<u64>,
}

/// An encryption method as a mathematical value.
pub enum EncryptionView {
    Off,
    Aes128,
    SampleAes,
    Other(Seq<char>),
}

/// A key as a mathematical value.
pub struct KeyView {
    pub method: EncryptionView,
    pub uri: Option<Seq<char>>,
    pub iv: Option<Seq<char>>,
}

/// A segment as a mathematical value.
pub struct ListedSegmentView {
    pub uri: Seq<char>,
    pub key: Option<KeyView>,
}

/// A media playlist as a mathematical value.
pub struct MediaListView {
    pub media_sequence: u64,
    pub end_list: bool,
    pub segments: Seq<ListedSegmentView>,
}

/// A variant as a mathematical value.
pub struct ListedVariantView {
    pub uri: Seq<char>,
    pub bandwidth: u64,
    pub height: Option<u64>,
}

impl View for Encryption {
    type V = EncryptionView;

    open spec fn view(&self) -> EncryptionView {
        match self {
            Encryption::Off => EncryptionView::Off,
            Encryption::Aes128 => EncryptionView::Aes128,
            Encryption::SampleAes => EncryptionView::SampleAes,
            Encryption::Other(name) => EncryptionView::Other(name@),
        }
    }
}

impl View for ListedKey {
    type V = KeyView;

    open spec fn view(&self) -> KeyView {
        KeyView {
            method: self.method@,
            uri: model::text_view(self.uri),
            iv: model::text_view(self.iv),
        }
    }
}

impl View for ListedSegment {
    type V = ListedSegmentView;

    open spec fn view(&self) -> ListedSegmentView {
        ListedSegmentView {
            uri: self.uri@,
            key: match self.key {
                Some(key) => Some(key@),
                None => None,
            },
        }
    }
}

impl View for MediaList {
    type V = MediaListView;

    open spec fn view(&self) -> MediaListView {
        MediaListView {
            media_sequence: self.media_sequence,
            end_list: self.end_list,
            segments: self.segments@.map_values(|s: ListedSegment| s@),
        }
    }
}

impl View for ListedVariant {
    type V = ListedVariantView;

    open spec fn view(&self) -> ListedVariantView {
        ListedVariantView { uri: self.uri@, bandwidth: self.bandwidth, height: self.height }
    }
}

/// The views of some variants.
pub open spec fn variant_list(list: Seq<ListedVariant>) -> Seq<ListedVariantView> {
    list.map_values(|v: ListedVariant| v@)
}

/// What `m3u8_rs::parse_media_playlist_res` gives for a playlist: what it lists,
/// or the error in the form of its `Debug`.
pub uninterp spec fn media_playlist(bytes: Seq<u8>) -> Result<MediaListView, Seq<char>>;

/// What `m3u8_rs::parse_master_playlist_res` gives for a playlist: its variants,
/// or the error in the form of its `Debug`.
pub uninterp spec fn master_playlist(bytes: Seq<u8>) -> Result<
    Seq<ListedVariantView>,
    Seq<char>,
>;

/// What `m3u8_rs::is_master_playlist` says of a playlist.
pub uninterp spec fn is_master(bytes: Seq<u8>) -> bool;

/// Calls `m3u8_rs::parse_media_playlist_res` and hands out the parts of the
/// playlist that are used here. The result is a function of the bytes.
#[verifier::external_body]
pub(crate) fn read_media(bytes: &[u8]) -> (out: Result<MediaList, String>)
    ensures
        match out {
            Ok(list) => media_playlist(bytes@) == Ok::<MediaListView, Seq<char>>(list@),
            Err(e) => media_playlist(bytes@) == Err::<MediaListView, Seq<char>>(e@),
        },
{
    let method = |m: KeyMethod| match m {
        KeyMethod::None => Encryption::Off,
        KeyMethod::AES128 => Encryption::Aes128,
        KeyMethod::SampleAES => Encryption::SampleAes,
        KeyMethod::Other(name) => Encryption::Other(name),
    };
    let key = |k: m3u8_rs::Key| ListedKey { method: method(k.method), uri: k.uri, iv: k.iv };
    let segment = |s: m3u8_rs::MediaSegment| ListedSegment { uri: s.uri, key: s.key.map(key) };
    m3u8_rs::parse_media_playlist_res(bytes).map_err(|e| format!("{e:?}")).map(|p| MediaList {
        media_sequence: p.media_sequence,
        end_list: p.end_list,
        segments: p.segments.into_iter().map(segment).collect(),
    })
}

/// Calls `m3u8_rs::parse_master_playlist_res` and hands out the URI, bandwidth
/// and picture height of each variant. The result is a function of the bytes.
#[verifier::external_body]
pub(crate) fn read_master(bytes: &[u8]) -> (out: Result<Vec<ListedVariant>, String>)
    ensures
        match out {
            Ok(list) => master_playlist(bytes@) == Ok::<Seq<ListedVariantView>, Seq<char>>(
                variant_list(list@),
            ),
            Err(e) => master_playlist(bytes@) == Err::<Seq<ListedVariantView>, Seq<char>>(e@),
        },
{
    let variant = |v: m3u8_rs::VariantStream| ListedVariant {
        uri: v.uri,
        bandwidth: v.bandwidth,
        height: v.resolution.map(|r| r.height),
    };
    m3u8_rs::parse_master_playlist_res(bytes)
        .map(|p| p.variants.into_iter().map(variant).collect())
        .map_err(|e| format!("{e:?}"))
}

/// Calls `m3u8_rs::is_master_playlist`, which looks for the first tag that only
/// a master or only a media playlist has. The result is a function of the bytes.
#[verifier::external_body]
pub(crate) fn looks_like_master(bytes: &[u8]) -> (out: bool)
    ensures
        out == is_master(bytes@),
{
    m3u8_rs::is_master_playlist(bytes)
}

} // verus!
