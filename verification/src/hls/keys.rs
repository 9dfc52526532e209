//! Segment keys and decryption.

use crate::hls::error::{HlsError, HlsErrorView};
use crate::hls::playlist::{Segment, SegmentKey, SegmentKeyView, SegmentView};
use crate::hls::playlist;
use crate::text;
use cbc::cipher::{block_padding::Pkcs7, BlockDecryptMut, KeyIvInit};
use vstd::prelude::*;

verus! {

/// What AES-128 in CBC mode with PKCS#7 padding decrypts to
/// (`cbc::Decryptor<aes::Aes128>`); none where length or padding are wrong.
pub uninterp spec fn aes_cbc_decrypted(data: Seq<u8>, key: Seq<u8>, iv: Seq<u8>) -> Option<
    Seq<u8>,
>;

/// Calls `decrypt_padded_mut::<Pkcs7>` of `cbc::Decryptor<aes::Aes128>`. The
/// result is a function of data, key and initialization vector. It fails where
/// the data are not a whole number of 16-byte blocks; otherwise the padding that
/// it takes off has 1 to 16 bytes.
#[verifier::external_body]
fn decrypt_blocks(data: &[u8], key: &[u8; 16], iv: &[u8; 16]) -> (out: Option<Vec<u8>>)
    ensures
        match out {
            Some(plain) => aes_cbc_decrypted(data@, key@, iv@) == Some(plain@),
            None => aes_cbc_decrypted(data@, key@, iv@) is None,
        },
        out matches Some(plain) ==> data@.len() % 16 == 0 && plain@.len() < data@.len()
            <= plain@.len() + 16,
{
    let mut buf = data.to_vec();
    let cipher = cbc::Decryptor::<aes::Aes128>::new(key.into(), iv.into());
    cipher.decrypt_padded_mut::<Pkcs7>(&mut buf).ok().map(|p| p.to_vec())
}

/// The plain data of a segment.
pub open spec fn decrypted(data: Seq<u8>, key: Seq<u8>, iv: Seq<u8>) -> Result<
    Seq<u8>,
    HlsErrorView,
> {
    match aes_cbc_decrypted(data, key, iv) {
        Some(plain) => Ok(plain),
        None => Err(HlsErrorView::Decrypt),
    }
}

/// The view of some data or an error.
pub open spec fn data_view(out: Result<Vec<u8>, HlsError>) -> Result<Seq<u8>, HlsErrorView> {
    match out {
        Ok(data) => Ok(data@),
        Err(e) => Err(e@),
    }
}

/// Decrypts a segment.
pub fn decrypt_segment(data: &[u8], key: &[u8; 16], iv: &[u8; 16]) -> (out: Result<
    Vec<u8>,
    HlsError,
>)
    ensures
        data_view(out) == decrypted(data@, key@, iv@),
        out matches Ok(plain) ==> data@.len() % 16 == 0 && plain@.len() < data@.len()
            <= plain@.len() + 16,
{
    match decrypt_blocks(data, key, iv) {
        Some(plain) => Ok(plain),
        None => Err(HlsError::Decrypt),
    }
}

// ---------------------------------------------------------------------------
// The keys of a playlist
// ---------------------------------------------------------------------------

/// The distinct key URLs of some segments, in the order of their first use.
pub open spec fn key_urls_of(segments: Seq<SegmentView>) -> Seq<Seq<char>>
    decreases segments.len(),
{
    if segments.len() == 0 {
        Seq::empty()
    } else {
        let before = key_urls_of(segments.drop_last());
        match segments.last().key {
            Some(key) => if before.contains(key.key_url) {
                before
            } else {
                before.push(key.key_url)
            },
            None => before,
        }
    }
}

/// Whether a text is among some others.
fn is_listed(list: &Vec<String>, s: &str) -> (out: bool)
    ensures
        out == text::string_views(list@).contains(s@),
{
    let mut i: usize = 0;
    while i < list.len()
        invariant
            i <= list.len(),
            forall|j: int| 0 <= j < i ==> text::string_views(list@)[j] != s@,
        decreases list.len() - i,
    {
        if text::same(list[i].as_str(), s) {
            assert(text::string_views(list@)[i as int] == s@);
            return true;
        }
        i += 1;
    }
    false
}

/// The distinct key URLs of some segments: each key is fetched once.
pub fn key_urls(segments: &Vec<Segment>) -> (out: Vec<String>)
    ensures
        text::string_views(out@) == key_urls_of(playlist::segment_views(segments@)),
{
    let ghost all = playlist::segment_views(segments@);
    let mut out: Vec<String> = Vec::new();
    let mut i: usize = 0;
    assert(text::string_views(out@) =~= key_urls_of(all.take(0)));
    while i < segments.len()
        invariant
            i <= segments.len(),
            all == playlist::segment_views(segments@),
            text::string_views(out@) == key_urls_of(all.take(i as int)),
        decreases segments.len() - i,
    {
        assert(all.take(i + 1).drop_last() =~= all.take(i as int));
        assert(all.take(i + 1).last() == segments@[i as int]@);
        match &segments[i].key {
            Some(key) => {
                if !is_listed(&out, key.key_url.as_str()) {
                    let ghost before = out@;
                    out.push(key.key_url.clone());
                    assert(text::string_views(out@) =~= text::string_views(before).push(key.key_url@));
                }
            },
            None => {},
        }
        i += 1;
    }
    assert(all.take(all.len() as int) =~= all);
    out
}

/// A fetched key: it must have 16 bytes.
pub fn accept_key(bytes: &[u8]) -> (out: Result<[u8; 16], HlsError>)
    ensures
        match out {
            Ok(key) => bytes@.len() == 16 && key@ == bytes@,
            Err(e) => bytes@.len() != 16 && e@ == HlsErrorView::Playlist("key is not 16 bytes"@),
        },
{
    if bytes.len() != 16 {
        return Err(HlsError::Playlist("key is not 16 bytes".to_owned()));
    }
    let mut key: [u8; 16] = [0; 16];
    let mut i: usize = 0;
    while i < 16
        invariant
            i <= 16,
            bytes.len() == 16,
            key@.take(i as int) == bytes@.take(i as int),
        decreases 16 - i,
    {
        key[i] = bytes[i];
        i += 1;
        assert(key@.take(i as int) =~= bytes@.take(i as int));
    }
    assert(key@.take(16) =~= key@ && bytes@.take(16) =~= bytes@);
    Ok(key)
}

/// The keys that have been fetched, by URL.
pub struct KeyCache {
    entries: Vec<(String, [u8; 16])>,
}

impl View for KeyCache {
    type V = Map<Seq<char>, Seq<u8>>;

    closed spec fn view(&self) -> Map<Seq<char>, Seq<u8>> {
        entries_map(self.entries@)
    }
}

/// The keys that a list of entries holds; the last entry of a URL counts.
spec fn entries_map(entries: Seq<(String, [u8; 16])>) -> Map<Seq<char>, Seq<u8>>
    decreases entries.len(),
{
    if entries.len() == 0 {
        Map::empty()
    } else {
        entries_map(entries.drop_last()).insert(entries.last().0@, entries.last().1@)
    }
}

impl KeyCache {
    /// No keys.
    pub fn new() -> (out: KeyCache)
        ensures
            out@ == Map::<Seq<char>, Seq<u8>>::empty(),
    {
        KeyCache { entries: Vec::new() }
    }

    /// Keeps the key of a URL.
    pub fn insert(&mut self, url: String, key: [u8; 16])
        ensures
            final(self)@ == old(self)@.insert(url@, key@),
    {
        let ghost before = self.entries@;
        self.entries.push((url, key));
        assert(self.entries@.drop_last() =~= before);
    }

    /// The key of a URL.
    pub fn get(&self, url: &str) -> (out: Option<[u8; 16]>)
        ensures
            match out {
                Some(key) => self@.contains_key(url@) && self@[url@] == key@,
                None => !self@.contains_key(url@),
            },
    {
        let ghost all = self.entries@;
        let mut i: usize = self.entries.len();
        assert(all.take(all.len() as int) =~= all);
        while i > 0
            invariant
                i <= self.entries.len(),
                all == self.entries@,
                entries_map(all).contains_key(url@) == entries_map(
                    all.take(i as int),
                ).contains_key(url@),
                entries_map(all)[url@] == entries_map(all.take(i as int))[url@],
            decreases i,
        {
            assert(all.take(i as int).drop_last() =~= all.take(i - 1));
            if text::same(self.entries[i - 1].0.as_str(), url) {
                return Some(self.entries[i - 1].1);
            }
            i -= 1;
        }
        None
    }
}

impl Clone for KeyCache {
    fn clone(&self) -> (out: KeyCache)
        ensures
            out@ == self@,
    {
        let ghost all = self.entries@;
        let mut out = KeyCache::new();
        let mut i: usize = 0;
        while i < self.entries.len()
            invariant
                i <= self.entries.len(),
                all == self.entries@,
                out@ == entries_map(all.take(i as int)),
            decreases self.entries.len() - i,
        {
            assert(all.take(i + 1).drop_last() =~= all.take(i as int));
            out.insert(self.entries[i].0.clone(), self.entries[i].1);
            i += 1;
        }
        assert(all.take(all.len() as int) =~= all);
        out
    }
}

/// The data of a segment as it is stored: decrypted where the segment has a
/// key.
pub open spec fn stored_data(
    data: Seq<u8>,
    key: Option<SegmentKeyView>,
    keys: Map<Seq<char>, Seq<u8>>,
) -> Result<Seq<u8>, HlsErrorView> {
    match key {
        None => Ok(data),
        Some(key) => if keys.contains_key(key.key_url) {
            decrypted(data, keys[key.key_url], key.iv)
        } else {
            Err(HlsErrorView::Playlist("key not cached"@))
        },
    }
}

/// The data of a segment as it is stored.
pub fn segment_data(data: &[u8], key: &Option<SegmentKey>, keys: &KeyCache) -> (out: Result<
    Vec<u8>,
    HlsError,
>)
    ensures
        data_view(out) == stored_data(data@, playlist::key_view(*key), keys@),
{
    match key {
        None => {
            let mut out: Vec<u8> = Vec::new();
            let mut i: usize = 0;
            while i < data.len()
                invariant
                    i <= data.len(),
                    out@ == data@.take(i as int),
                decreases data.len() - i,
            {
                out.push(data[i]);
                i += 1;
            }
            assert(data@.take(data.len() as int) =~= data@);
            Ok(out)
        },
        Some(k) => match keys.get(k.key_url.as_str()) {
            Some(bytes) => decrypt_segment(data, &bytes, &k.iv),
            None => Err(HlsError::Playlist("key not cached".to_owned())),
        },
    }
}

// ---------------------------------------------------------------------------
// Laws
// ---------------------------------------------------------------------------

/// No key is fetched twice, and the key of every segment is fetched.
pub proof fn lemma_key_urls(segments: Seq<SegmentView>)
    ensures
        key_urls_of(segments).no_duplicates(),
        forall|i: int|
            0 <= i < segments.len() ==> (#[trigger] segments[i].key matches Some(key)
                ==> key_urls_of(segments).contains(key.key_url)),
    decreases segments.len(),
{
    if segments.len() > 0 {
        let front = segments.drop_last();
        let before = key_urls_of(front);
        let all = key_urls_of(segments);
        lemma_key_urls(front);
        assert forall|i: int| 0 <= i < segments.len() && #[trigger] segments[i].key is Some implies
            all.contains(segments[i].key->0.key_url) by {
            let url = segments[i].key->0.key_url;
            if i < front.len() {
                assert(front[i].key is Some);
                assert(before.contains(url));
                let k = choose|k: int| 0 <= k < before.len() && before[k] == url;
                assert(all[k] == url);
            } else if !before.contains(url) {
                assert(all.last() == url);
            }
        }
    }
}

/// Once the keys of all segments are cached, no segment fails for want of its
/// key: decryption alone decides.
pub proof fn lemma_cached_keys_suffice(
    segments: Seq<SegmentView>,
    keys: Map<Seq<char>, Seq<u8>>,
    i: int,
    data: Seq<u8>,
)
    requires
        0 <= i < segments.len(),
        forall|k: int|
            0 <= k < key_urls_of(segments).len() ==> keys.contains_key(
                #[trigger] key_urls_of(segments)[k],
            ),
    ensures
        stored_data(data, segments[i].key, keys) == match segments[i].key {
            None => Ok::<Seq<u8>, HlsErrorView>(data),
            Some(key) => decrypted(data, keys[key.key_url], key.iv),
        },
{
    lemma_key_urls(segments);
    assert(segments[i].key is Some ==> key_urls_of(segments).contains(
        segments[i].key->0.key_url,
    ));
}

} // verus!
