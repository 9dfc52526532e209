//! What the segments, keys and qualities of a playlist are.

use crate::hls::error::HlsErrorView;
use crate::hls::iv;
use crate::hls::keys;
use crate::hls::listing::{
    EncryptionView, KeyView, ListedSegmentView, ListedVariantView, MediaListView,
};
use crate::hls::listing;
use crate::hls::playlist::{PlaylistView, SegmentView, StepView};
use crate::hls::playlist;
use crate::hls::variants::VariantView;
use crate::hls::variants;
use crate::order;
use crate::text;
use crate::text_laws;
use crate::urls;
use vstd::prelude::*;

verus! {

// ---------------------------------------------------------------------------
// Initialization vectors
// ---------------------------------------------------------------------------

/// The value of a hexadecimal digit, -1 for any other character.
pub open spec fn nibble(c: char) -> int {
    if 48 <= c as int <= 57 {
        c as int - 48
    } else if 97 <= c as int <= 102 {
        c as int - 87
    } else if 65 <= c as int <= 70 {
        c as int - 55
    } else {
        -1
    }
}

/// Whether a text is made of hexadecimal digits alone.
pub open spec fn all_hex(s: Seq<char>) -> bool {
    forall|i: int| 0 <= i < s.len() ==> nibble(#[trigger] s[i]) >= 0
}

/// The attribute that states some digits, with `0x` in front or without.
pub open spec fn attribute(digits: Seq<char>, marked: bool) -> Seq<char> {
    if marked {
        seq!['0', 'x'] + digits
    } else {
        digits
    }
}

/// Whether a byte sequence is what 32 hexadecimal digits denote, two to a byte.
pub open spec fn are_bytes_of(bytes: Seq<u8>, digits: Seq<char>) -> bool {
    &&& bytes.len() == 16
    &&& forall|j: int|
        0 <= j < 16 ==> (#[trigger] bytes[j]) as int == nibble(digits[2 * j]) * 16 + nibble(
            digits[2 * j + 1],
        )
}

/// Whether a byte sequence is a number of 128 bits, the highest byte first.
pub open spec fn is_big_endian(bytes: Seq<u8>, n: int) -> bool {
    &&& bytes.len() == 16
    &&& forall|j: int|
        0 <= j < 16 ==> (#[trigger] bytes[j]) as int == (n / vstd::arithmetic::power::pow(
            256,
            (15 - j) as nat,
        )) % 256
}

proof fn lemma_be_bytes(n: nat, len: nat)
    ensures
        iv::be_bytes(n, len).len() == len,
        forall|j: int|
            0 <= j < len ==> (#[trigger] iv::be_bytes(n, len)[j]) as int == (n as int
                / vstd::arithmetic::power::pow(256, (len - 1 - j) as nat)) % 256,
    decreases len,
{
    reveal(vstd::arithmetic::power::pow);
    if len > 0 {
        lemma_be_bytes(n / 256, (len - 1) as nat);
        let all = iv::be_bytes(n, len);
        assert forall|j: int| 0 <= j < len implies (#[trigger] all[j]) as int == (n as int
            / vstd::arithmetic::power::pow(256, (len - 1 - j) as nat)) % 256 by {
            if j < len - 1 {
                let k = (len - 2 - j) as nat;
                let p = vstd::arithmetic::power::pow(256, k);
                assert(all[j] == iv::be_bytes(n / 256, (len - 1) as nat)[j]);
                vstd::arithmetic::power::lemma_pow_positive(256, k);
                assert(vstd::arithmetic::power::pow(256, k + 1) == 256 * p);
                vstd::arithmetic::div_mod::lemma_div_denominator(n as int, 256, p);
            } else {
                assert(vstd::arithmetic::power::pow(256, 0) == 1);
                assert(n as int / 1 == n);
            }
        }
    }
}

/// An `IV` attribute of 32 hexadecimal digits is the initialization vector,
/// whatever the media sequence number; one without digits leaves that to the
/// number. One with any other character is an error, and so is one with an odd
/// number of digits.
pub proof fn lemma_iv(digits: Seq<char>, marked: bool, sequence: u64)
    requires
        !marked ==> !(digits.len() >= 2 && digits[0] == '0' && digits[1] == 'x'),
    ensures
        digits.len() == 32 && all_hex(digits) ==> (iv::iv_of(
            Some(attribute(digits, marked)),
            sequence,
        ) matches Ok(bytes) && are_bytes_of(bytes, digits)),
        digits.len() > 0 && (!all_hex(digits) || digits.len() % 2 == 1) ==> iv::iv_of(
            Some(attribute(digits, marked)),
            sequence,
        ) == Err::<Seq<u8>, HlsErrorView>(HlsErrorView::Playlist("bad IV"@)),
        digits.len() != 32 && digits.len() % 2 == 0 && all_hex(digits) ==> (iv::iv_of(
            Some(attribute(digits, marked)),
            sequence,
        ) matches Ok(bytes) && is_big_endian(bytes, sequence as int)),
        iv::iv_of(None, sequence) matches Ok(bytes) && is_big_endian(bytes, sequence as int),
{
    let raw = attribute(digits, marked);
    assert(iv::iv_digits(raw) =~= digits);
    lemma_be_bytes(sequence as nat, 16);
    assert forall|c: char| #[trigger] nibble(c) >= 0 <==> iv::hex_value(c) is Some by {}
    if all_hex(digits) {
        assert forall|i: int| 0 <= i < digits.len() implies iv::hex_value(
            #[trigger] digits[i],
        ) is Some by {
            assert(nibble(digits[i]) >= 0);
        }
    } else {
        let i = choose|i: int| 0 <= i < digits.len() && nibble(#[trigger] digits[i]) < 0;
        assert(iv::hex_value(digits[i]) is None);
    }
    if digits.len() == 32 && all_hex(digits) {
        let bytes = iv::hex_bytes(digits);
        assert forall|j: int| 0 <= j < 16 implies (#[trigger] bytes[j]) as int == nibble(
            digits[2 * j],
        ) * 16 + nibble(digits[2 * j + 1]) by {
            assert(nibble(digits[2 * j]) >= 0);
            assert(nibble(digits[2 * j + 1]) >= 0);
            assert(nibble(digits[2 * j]) * 16 + nibble(digits[2 * j + 1]) < 256);
        }
    }
}

// ---------------------------------------------------------------------------
// Segments
// ---------------------------------------------------------------------------

/// Every segment of a playlist that is built has the URL that is listed for it,
/// joined to that of the playlist, and a key exactly where one is listed. The
/// key is AES-128 at the URL that is listed for it. A playlist is live where its
/// list is not closed.
pub proof fn lemma_segments(base: Seq<char>, list: MediaListView, i: int)
    requires
        playlist::sequence_fits(list),
        0 <= i < list.segments.len(),
    ensures
        playlist::playlist_of(base, list) matches Ok(built) ==> {
            let listed = list.segments[i];
            let segment = built.segments[i];
            &&& built.segments.len() == list.segments.len()
            &&& built.is_live <==> !list.end_list
            &&& urls::joined(base, listed.uri) == Ok::<Seq<char>, Seq<char>>(segment.url)
            &&& segment.key is Some <==> listed.key is Some
            &&& listed.key matches Some(key) ==> key.method == EncryptionView::Aes128
                && key.uri is Some && urls::joined(base, key.uri->0) == Ok::<
                Seq<char>,
                Seq<char>,
            >(segment.key->0.key_url)
        },
{
    playlist::lemma_playlist_complete(base, list);
    if playlist::playlist_of(base, list) is Ok {
        let segment = playlist::playlist_of(base, list)->Ok_0.segments[i];
        assert(playlist::segment_of(base, list.segments[i], (list.media_sequence + i) as u64)
            == Ok::<SegmentView, HlsErrorView>(segment));
    }
}

/// Where a listed key has an `IV` attribute of 32 hexadecimal digits, with `0x`
/// or without, the segment carries exactly the bytes that they denote.
pub proof fn lemma_listed_iv(
    base: Seq<char>,
    list: MediaListView,
    i: int,
    digits: Seq<char>,
    marked: bool,
)
    requires
        playlist::sequence_fits(list),
        0 <= i < list.segments.len(),
        list.segments[i].key matches Some(key) && key.iv == Some(attribute(digits, marked)),
        digits.len() == 32 && all_hex(digits),
    ensures
        playlist::playlist_of(base, list) matches Ok(built) ==> built.segments[i].key is Some
            && are_bytes_of(built.segments[i].key->0.iv, digits),
{
    if !marked && digits[1] == 'x' {
        assert(nibble(digits[1]) >= 0);
    }
    lemma_iv(digits, marked, (list.media_sequence + i) as u64);
    playlist::lemma_playlist_complete(base, list);
    if playlist::playlist_of(base, list) is Ok {
        let segment = playlist::playlist_of(base, list)->Ok_0.segments[i];
        assert(playlist::segment_of(base, list.segments[i], (list.media_sequence + i) as u64)
            == Ok::<SegmentView, HlsErrorView>(segment));
    }
}

/// Where a listed key has no `IV` attribute, the segment carries its media
/// sequence number: that of the playlist for the first segment, one more for
/// each that follows.
pub proof fn lemma_counted_iv(base: Seq<char>, list: MediaListView, i: int)
    requires
        playlist::sequence_fits(list),
        0 <= i < list.segments.len(),
        list.segments[i].key matches Some(key) && key.iv is None,
    ensures
        playlist::playlist_of(base, list) matches Ok(built) ==> built.segments[i].key is Some
            && is_big_endian(built.segments[i].key->0.iv, list.media_sequence + i),
{
    lemma_iv(Seq::empty(), true, (list.media_sequence + i) as u64);
    playlist::lemma_playlist_complete(base, list);
    if playlist::playlist_of(base, list) is Ok {
        let segment = playlist::playlist_of(base, list)->Ok_0.segments[i];
        assert(playlist::segment_of(base, list.segments[i], (list.media_sequence + i) as u64)
            == Ok::<SegmentView, HlsErrorView>(segment));
    }
}

/// Whether nothing about a listed segment stands in the way of building it.
pub open spec fn can_be_built(base: Seq<char>, listed: ListedSegmentView) -> bool {
    &&& urls::joined(base, listed.uri) is Ok
    &&& listed.key matches Some(key) ==> key.method == EncryptionView::Aes128 && (
    key.uri matches Some(uri) && urls::joined(base, uri) is Ok) && forall|n: u64|
        (#[trigger] iv::iv_of(key.iv, n)) is Ok
}

/// What stands in the way of building a listed segment, if anything does.
pub open spec fn fault_of(base: Seq<char>, listed: ListedSegmentView, sequence: u64) -> Option<
    HlsErrorView,
> {
    match urls::joined(base, listed.uri) {
        Err(why) => Some(HlsErrorView::Playlist(why)),
        Ok(_) => match listed.key {
            None => None,
            Some(key) => if key.method != EncryptionView::Aes128 || key.uri is None {
                Some(HlsErrorView::UnsupportedEncryption)
            } else {
                match (urls::joined(base, key.uri->0), iv::iv_of(key.iv, sequence)) {
                    (Err(why), _) => Some(HlsErrorView::Playlist(why)),
                    (_, Err(e)) => Some(e),
                    _ => None,
                }
            },
        },
    }
}

/// A playlist is refused for the first segment that cannot be built, and with
/// what stands in its way: a URL that cannot be joined, encryption that is not
/// supported or an initialization vector that cannot be read.
pub proof fn lemma_first_fault(base: Seq<char>, list: MediaListView, k: int)
    requires
        playlist::sequence_fits(list),
        0 <= k < list.segments.len(),
        forall|i: int| 0 <= i < k ==> can_be_built(base, #[trigger] list.segments[i]),
        fault_of(base, list.segments[k], (list.media_sequence + k) as u64) is Some,
    ensures
        playlist::playlist_of(base, list) is Err,
        playlist::playlist_of(base, list)->Err_0 == fault_of(
            base,
            list.segments[k],
            (list.media_sequence + k) as u64,
        )->0,
{
    lemma_fault_upto(base, list.segments, list.media_sequence, k);
}

proof fn lemma_fault_upto(
    base: Seq<char>,
    listed: Seq<ListedSegmentView>,
    sequence: u64,
    k: int,
)
    requires
        sequence + listed.len() <= u64::MAX,
        0 <= k < listed.len(),
        forall|i: int| 0 <= i < k ==> can_be_built(base, #[trigger] listed[i]),
        fault_of(base, listed[k], (sequence + k) as u64) is Some,
    ensures
        playlist::segments_of(base, listed, sequence) is Err,
        playlist::segments_of(base, listed, sequence)->Err_0 == fault_of(
            base,
            listed[k],
            (sequence + k) as u64,
        )->0,
    decreases listed.len(),
{
    let front = listed.drop_last();
    assert forall|i: int| 0 <= i < k && i < front.len() implies can_be_built(
        base,
        #[trigger] front[i],
    ) by {
        assert(front[i] == listed[i]);
    }
    if k < front.len() {
        lemma_fault_upto(base, front, sequence, k);
    } else {
        lemma_built_upto(base, front, sequence);
        assert(listed[k] == listed.last());
    }
}

/// A playlist is built where every segment can be.
pub proof fn lemma_built(base: Seq<char>, list: MediaListView)
    requires
        playlist::sequence_fits(list),
        forall|i: int|
            0 <= i < list.segments.len() ==> can_be_built(base, #[trigger] list.segments[i]),
    ensures
        playlist::playlist_of(base, list) is Ok,
{
    lemma_built_upto(base, list.segments, list.media_sequence);
}

proof fn lemma_built_upto(base: Seq<char>, listed: Seq<ListedSegmentView>, sequence: u64)
    requires
        sequence + listed.len() <= u64::MAX,
        forall|i: int| 0 <= i < listed.len() ==> can_be_built(base, #[trigger] listed[i]),
    ensures
        playlist::segments_of(base, listed, sequence) is Ok,
    decreases listed.len(),
{
    if listed.len() > 0 {
        let front = listed.drop_last();
        assert forall|i: int| 0 <= i < front.len() implies can_be_built(
            base,
            #[trigger] front[i],
        ) by {
            assert(front[i] == listed[i]);
        }
        lemma_built_upto(base, front, sequence);
        assert(can_be_built(base, listed[listed.len() - 1]));
    }
}

// ---------------------------------------------------------------------------
// Master playlists
// ---------------------------------------------------------------------------

/// The variant that is followed is the last of those with the highest bandwidth,
/// at its URL joined to that of the master playlist.
pub proof fn lemma_followed(base: Seq<char>, list: Seq<ListedVariantView>, k: int)
    requires
        0 <= k < list.len(),
        forall|i: int| 0 <= i < list.len() ==> (#[trigger] list[i]).bandwidth <= list[k].bandwidth,
        forall|i: int| k < i < list.len() ==> (#[trigger] list[i]).bandwidth < list[k].bandwidth,
    ensures
        playlist::best_variant(list) == Some(list[k]),
        match urls::joined(base, list[k].uri) {
            Ok(url) => playlist::variant_url(base, list) == Ok::<Seq<char>, HlsErrorView>(url),
            Err(m) => playlist::variant_url(base, list) == Err::<Seq<char>, HlsErrorView>(
                HlsErrorView::Playlist(m),
            ),
        },
    decreases list.len(),
{
    let front = list.drop_last();
    let last = list.len() - 1;
    if k == last {
        playlist::lemma_best_variant(front);
        if front.len() > 0 {
            let best = playlist::best_variant(front)->0;
            let j = choose|j: int| 0 <= j < front.len() && front[j] == best;
            assert(list[j].bandwidth <= list[k].bandwidth);
        }
    } else {
        assert forall|i: int| 0 <= i < front.len() implies (#[trigger] front[i]).bandwidth
            <= front[k].bandwidth by {
            assert(front[i] == list[i]);
        }
        assert forall|i: int| k < i < front.len() implies (#[trigger] front[i]).bandwidth
            < front[k].bandwidth by {
            assert(front[i] == list[i]);
        }
        lemma_followed(base, front, k);
        assert(list[last].bandwidth < list[k].bandwidth);
    }
}

/// A body is read as what it is: a media playlist gives its segments, a master
/// playlist the variant to follow, and one that cannot be read the error.
pub proof fn lemma_step(base: Seq<char>, body: Seq<u8>)
    ensures
        !listing::is_master(body) && listing::media_playlist(body) is Ok ==> (
        playlist::step_of(base, body) is Ok <==> playlist::playlist_of(
            base,
            listing::media_playlist(body)->Ok_0,
        ) is Ok) && (playlist::step_of(base, body) matches Ok(step) ==> step == StepView::Ready(
            playlist::playlist_of(base, listing::media_playlist(body)->Ok_0)->Ok_0,
        )),
        listing::is_master(body) && listing::master_playlist(body) is Ok ==> (
        playlist::step_of(base, body) matches Ok(step) ==> step is Follow && playlist::variant_url(
            base,
            listing::master_playlist(body)->Ok_0,
        ) == Ok::<Seq<char>, HlsErrorView>(step->Follow_0)),
        listing::is_master(body) && listing::master_playlist(body) is Err ==> playlist::step_of(
            base,
            body,
        ) == Err::<StepView, HlsErrorView>(
            HlsErrorView::Playlist(listing::master_playlist(body)->Err_0),
        ),
        listing::media_playlist(body) matches Ok(list) ==> playlist::variant_of(base, body)
            == playlist::playlist_of(base, list),
        listing::media_playlist(body) matches Err(m) ==> playlist::variant_of(base, body) == Err::<
            PlaylistView,
            HlsErrorView,
        >(HlsErrorView::Playlist(m)),
        !listing::is_master(body) && listing::media_playlist(body) is Ok
            && playlist::step_of(base, body) is Err ==> playlist::step_of(base, body)->Err_0
            == playlist::playlist_of(base, listing::media_playlist(body)->Ok_0)->Err_0,
        (listing::is_master(body) || listing::media_playlist(body) is Err)
            && listing::master_playlist(body) is Ok ==> {
            let found = playlist::variant_url(base, listing::master_playlist(body)->Ok_0);
            &&& playlist::step_of(base, body) is Ok <==> found is Ok
            &&& found matches Ok(url) ==> playlist::step_of(base, body)->Ok_0 == StepView::Follow(
                url,
            )
            &&& found matches Err(e) ==> playlist::step_of(base, body)->Err_0 == e
        },
        listing::media_playlist(body) is Err && listing::master_playlist(body) is Err
            ==> playlist::step_of(base, body) is Err,
        playlist::variant_url(base, Seq::empty()) == Err::<Seq<char>, HlsErrorView>(
            HlsErrorView::Playlist("master playlist has no variants"@),
        ),
{
}

/// A quality is called by its picture height, as in `720p`, or where that is not
/// known by its bandwidth in thousands, as in `800 kbps`.
pub proof fn lemma_quality_name(v: ListedVariantView)
    ensures
        v.height is Some && v.height->0 > 0 ==> text_laws::shows_with(
            variants::label_of(v),
            v.height->0 as int,
            "p"@,
        ),
        v.height is None || v.height->0 == 0 ==> text_laws::shows_with(
            variants::label_of(v),
            v.bandwidth as int / 1000,
            " kbps"@,
        ),
{
    let n: nat = if v.height is Some && v.height->0 > 0 {
        v.height->0 as nat
    } else {
        (v.bandwidth / 1000) as nat
    };
    text_laws::lemma_decimal_shows(n);
    assert(text_laws::shows_number(text::decimal(n), n as int, 0));
}

/// The qualities of one picture height.
pub open spec fn of_height(list: Seq<VariantView>, h: u64) -> Seq<VariantView> {
    list.filter(|v: VariantView| variants::height_in(v.label) == h)
}

/// The qualities of a master playlist are its variants, each called by its name
/// and at its URL joined to that of the playlist, the highest picture first;
/// those of one height stand in the order of the playlist.
pub proof fn lemma_qualities(playlist_url: Seq<char>, list: Seq<ListedVariantView>)
    ensures
        variants::master_variants(playlist_url, list) matches Ok(out) ==> {
            let base = urls::parsed(playlist_url)->Ok_0;
            let found = variants::resolved_variants(base, list)->Ok_0;
            &&& urls::parsed(playlist_url) is Ok && variants::resolved_variants(base, list) is Ok
            &&& list.len() > 0 && out.len() == list.len() && found.len() == list.len()
            &&& forall|i: int|
                0 <= i < list.len() ==> (#[trigger] found[i]).label == variants::label_of(list[i])
                    && urls::joined(base, list[i].uri) == Ok::<Seq<char>, Seq<char>>(found[i].url)
            &&& out.to_multiset() == found.to_multiset()
            &&& forall|i: int, j: int|
                0 <= i < j < out.len() ==> variants::height_in((#[trigger] out[i]).label)
                    >= variants::height_in((#[trigger] out[j]).label)
            &&& forall|h: u64| #[trigger] of_height(out, h) == of_height(found, h)
        },
{
    if variants::master_variants(playlist_url, list) is Ok {
        let base = urls::parsed(playlist_url)->Ok_0;
        let found = variants::resolved_variants(base, list)->Ok_0;
        let key = variants::by_height();
        let out = order::by_key_desc(found, key);
        lemma_resolved(base, list);
        order::lemma_by_key_desc(found, key);
        assert forall|i: int, j: int| 0 <= i < j < out.len() implies variants::height_in(
            (#[trigger] out[i]).label,
        ) >= variants::height_in((#[trigger] out[j]).label) by {
            assert(order::keys_of(out, key)[i] >= order::keys_of(out, key)[j]);
        }
        assert forall|h: u64| #[trigger] of_height(out, h) == of_height(found, h) by {
            let f = |v: VariantView| variants::height_in(v.label) == h;
            order::lemma_stable(found, key, h, f);
            assert(out.filter(f) == found.filter(f));
        }
    }
}

proof fn lemma_resolved(base: Seq<char>, list: Seq<ListedVariantView>)
    ensures
        variants::resolved_variants(base, list) matches Ok(found) ==> found.len() == list.len()
            && forall|i: int|
            0 <= i < list.len() ==> (#[trigger] found[i]).label == variants::label_of(list[i])
                && urls::joined(base, list[i].uri) == Ok::<Seq<char>, Seq<char>>(found[i].url),
    decreases list.len(),
{
    if list.len() > 0 {
        let front = list.drop_last();
        lemma_resolved(base, front);
        if variants::resolved_variants(base, list) is Ok {
            let found = variants::resolved_variants(base, list)->Ok_0;
            let before = variants::resolved_variants(base, front)->Ok_0;
            assert forall|i: int| 0 <= i < list.len() implies (#[trigger] found[i]).label
                == variants::label_of(list[i]) && urls::joined(base, list[i].uri) == Ok::<
                Seq<char>,
                Seq<char>,
            >(found[i].url) by {
                if i < front.len() {
                    assert(found[i] == before[i]);
                    assert(front[i] == list[i]);
                }
            }
        }
    }
}

/// The qualities of a master playlist are listed where there are any, its URL is
/// valid and each of theirs can be joined to it. Else the first URL that cannot be
/// used is told.
pub proof fn lemma_listed_qualities(
    playlist_url: Seq<char>,
    list: Seq<ListedVariantView>,
    k: int,
)
    ensures
        urls::parsed(playlist_url) matches Err(why) ==> variants::master_variants(
            playlist_url,
            list,
        ) == Err::<Seq<VariantView>, HlsErrorView>(HlsErrorView::Playlist(why)),
        urls::parsed(playlist_url) matches Ok(base) ==> {
            let out = variants::master_variants(playlist_url, list);
            &&& list.len() == 0 ==> out == Err::<Seq<VariantView>, HlsErrorView>(
                HlsErrorView::Playlist("master playlist has no variants"@),
            )
            &&& list.len() > 0 && (forall|i: int|
                0 <= i < list.len() ==> urls::joined(base, (#[trigger] list[i]).uri) is Ok)
                ==> out is Ok
            &&& 0 <= k < list.len() && urls::joined(base, list[k].uri) is Err && (forall|i: int|
                0 <= i < k ==> urls::joined(base, (#[trigger] list[i]).uri) is Ok) ==> out == Err::<
                Seq<VariantView>,
                HlsErrorView,
            >(HlsErrorView::Playlist(urls::joined(base, list[k].uri)->Err_0))
        },
{
    if urls::parsed(playlist_url) is Ok {
        let base = urls::parsed(playlist_url)->Ok_0;
        lemma_resolved(base, list);
        lemma_resolved_upto(base, list, k);
        let found = variants::resolved_variants(base, list);
        if found is Ok {
            order::lemma_by_key_desc(found->Ok_0, variants::by_height());
        }
    }
}

proof fn lemma_resolved_upto(base: Seq<char>, list: Seq<ListedVariantView>, k: int)
    ensures
        (forall|i: int| 0 <= i < list.len() ==> urls::joined(base, (#[trigger] list[i]).uri) is Ok)
            ==> variants::resolved_variants(base, list) is Ok,
        0 <= k < list.len() && urls::joined(base, list[k].uri) is Err && (forall|i: int|
            0 <= i < k ==> urls::joined(base, (#[trigger] list[i]).uri) is Ok)
            ==> variants::resolved_variants(base, list) == Err::<Seq<VariantView>, HlsErrorView>(
            HlsErrorView::Playlist(urls::joined(base, list[k].uri)->Err_0),
        ),
    decreases list.len(),
{
    if list.len() > 0 {
        let front = list.drop_last();
        lemma_resolved_upto(base, front, k);
        assert(list[list.len() - 1] == list.last());
        assert forall|i: int| 0 <= i < front.len() implies #[trigger] front[i] == list[i] by {}
        if forall|i: int|
            0 <= i < list.len() ==> urls::joined(base, (#[trigger] list[i]).uri) is Ok {
            assert forall|i: int| 0 <= i < front.len() implies urls::joined(
                base,
                (#[trigger] front[i]).uri,
            ) is Ok by {
                assert(front[i] == list[i]);
            }
        }
        if k == list.len() - 1 && (forall|i: int|
            0 <= i < k ==> urls::joined(base, (#[trigger] list[i]).uri) is Ok) {
            assert forall|i: int| 0 <= i < front.len() implies urls::joined(
                base,
                (#[trigger] front[i]).uri,
            ) is Ok by {
                assert(front[i] == list[i]);
            }
        }
    }
}

/// The qualities of a body: a media playlist is its own single quality, and a
/// playlist counts as protected where it names SAMPLE-AES.
pub proof fn lemma_body_qualities(playlist_url: Seq<char>, body: Seq<u8>)
    ensures
        !listing::is_master(body) && listing::media_playlist(body) is Ok ==> (
        variants::variants_of(playlist_url, body) matches Ok(v) && v.variants.len() == 1
            && v.variants[0].url == playlist_url && v.variants[0].label == "source"@),
        listing::is_master(body) ==> (variants::variants_of(playlist_url, body) matches Ok(v)
            ==> listing::master_playlist(body) is Ok && variants::master_variants(
            playlist_url,
            listing::master_playlist(body)->Ok_0,
        ) == Ok::<Seq<VariantView>, HlsErrorView>(v.variants)),
        variants::variants_of(playlist_url, body) matches Ok(v) ==> v.is_drm
            == variants::is_protected(body),
        (listing::is_master(body) || listing::media_playlist(body) is Err) ==> {
            let out = variants::variants_of(playlist_url, body);
            match listing::master_playlist(body) {
                Err(why) => out is Err && out->Err_0 == HlsErrorView::Playlist(why),
                Ok(list) => match variants::master_variants(playlist_url, list) {
                    Err(e) => out is Err && out->Err_0 == e,
                    Ok(found) => out is Ok && out->Ok_0.variants == found,
                },
            }
        },
{
}

/// A playlist of ASCII characters that names the method SAMPLE-AES, in letters of
/// either case, counts as protected; one that does not name it does not.
pub proof fn lemma_protection(body: Seq<u8>, s: Seq<char>)
    requires
        vstd::utf8::is_ascii_chars(s),
        vstd::utf8::valid_utf8(body),
        vstd::utf8::decode_utf8(body) == s,
    ensures
        variants::is_protected(body) <==> exists|at: int|
            0 <= at <= s.len() - 17 && #[trigger] names_method(s, at),
{
    let up = text::upper(s);
    let name = "METHOD=SAMPLE-AES"@;
    reveal_strlit("METHOD=SAMPLE-AES");
    text_laws::lemma_case_of_ascii(s);
    assert(text::lossy(body) == s);
    if variants::is_protected(body) {
        let at = choose|at: int|
            0 <= at <= up.len() - name.len() && #[trigger] up.subrange(at, at + name.len())
                == name;
        assert forall|i: int| 0 <= i < 17 implies (#[trigger] name[i]) as int
            == upper_code(s[at + i]) by {
            assert(up.subrange(at, at + name.len())[i] == up[at + i]);
        }
        assert(names_method(s, at));
    }
    if exists|at: int| 0 <= at <= s.len() - 17 && #[trigger] names_method(s, at) {
        let at = choose|at: int| 0 <= at <= s.len() - 17 && #[trigger] names_method(s, at);
        assert forall|i: int| 0 <= i < 17 implies up.subrange(at, at + 17)[i] == name[i] by {
            assert(up.subrange(at, at + 17)[i] == up[at + i]);
            assert(name[i] as int == upper_code(s[at + i]));
        }
        assert(up.subrange(at, at + name.len()) =~= name);
    }
}

/// The code of a character in upper case.
pub open spec fn upper_code(c: char) -> int {
    if 97 <= c as int <= 122 {
        c as int - 32
    } else {
        c as int
    }
}

/// Whether the method SAMPLE-AES is named at a place of a text.
pub open spec fn names_method(s: Seq<char>, at: int) -> bool {
    forall|i: int|
        0 <= i < 17 ==> (#[trigger] "METHOD=SAMPLE-AES"@[i]) as int == upper_code(s[at + i])
}

// ---------------------------------------------------------------------------
// Keys
// ---------------------------------------------------------------------------

/// Each key that is fetched is that of some segment, and keys are fetched in the
/// order of their first use.
pub proof fn lemma_keys_in_order(segments: Seq<SegmentView>, last: SegmentView)
    ensures
        keys::key_urls_of(Seq::empty()).len() == 0,
        last.key is None ==> keys::key_urls_of(segments.push(last)) == keys::key_urls_of(segments),
        last.key matches Some(key) ==> keys::key_urls_of(segments.push(last))
            == if exists|i: int|
            0 <= i < segments.len() && ((#[trigger] segments[i]).key matches Some(k) && k.key_url
                == key.key_url) {
            keys::key_urls_of(segments)
        } else {
            keys::key_urls_of(segments).push(key.key_url)
        },
{
    assert(segments.push(last).drop_last() =~= segments);
    keys::lemma_key_urls(segments);
    if last.key is Some {
        let url = last.key->0.key_url;
        lemma_key_origin(segments, url);
        if exists|i: int|
            0 <= i < segments.len() && ((#[trigger] segments[i]).key matches Some(k) && k.key_url
                == url) {
            let i = choose|i: int|
                0 <= i < segments.len() && ((#[trigger] segments[i]).key matches Some(k)
                    && k.key_url == url);
            assert(segments[i].key is Some);
        }
    }
}

proof fn lemma_key_origin(segments: Seq<SegmentView>, url: Seq<char>)
    ensures
        keys::key_urls_of(segments).contains(url) ==> exists|i: int|
            0 <= i < segments.len() && ((#[trigger] segments[i]).key matches Some(k) && k.key_url
                == url),
    decreases segments.len(),
{
    if keys::key_urls_of(segments).contains(url) {
        let front = segments.drop_last();
        let before = keys::key_urls_of(front);
        lemma_key_origin(front, url);
        let k = choose|k: int|
            0 <= k < keys::key_urls_of(segments).len() && keys::key_urls_of(segments)[k] == url;
        if before.contains(url) {
            let i = choose|i: int|
                0 <= i < front.len() && ((#[trigger] front[i]).key matches Some(k) && k.key_url
                    == url);
            assert(segments[i] == front[i]);
        } else {
            if k < before.len() {
                assert(before[k] == url);
            }
            assert(segments[segments.len() - 1].key is Some);
        }
    }
}

/// A segment without a key is stored as it came. One with a key is decrypted with
/// the key that was fetched from its URL and its own initialization vector; it is
/// an error where that fails or the key is not there.
pub proof fn lemma_stored(
    data: Seq<u8>,
    key: playlist::SegmentKeyView,
    cache: Map<Seq<char>, Seq<u8>>,
)
    ensures
        keys::stored_data(data, None, cache) == Ok::<Seq<u8>, HlsErrorView>(data),
        cache.contains_key(key.key_url) ==> (match keys::aes_cbc_decrypted(
            data,
            cache[key.key_url],
            key.iv,
        ) {
            Some(plain) => keys::stored_data(data, Some(key), cache) == Ok::<
                Seq<u8>,
                HlsErrorView,
            >(plain),
            None => keys::stored_data(data, Some(key), cache) == Err::<Seq<u8>, HlsErrorView>(
                HlsErrorView::Decrypt,
            ),
        }),
        !cache.contains_key(key.key_url) ==> keys::stored_data(data, Some(key), cache) == Err::<
            Seq<u8>,
            HlsErrorView,
        >(HlsErrorView::Playlist("key not cached"@)),
{
}

/// Whatever its other values, a key is refused where its method is not AES-128 or
/// it has no URL.
pub proof fn lemma_other_encryption(base: Seq<char>, key: KeyView, sequence: u64)
    requires
        key.method != EncryptionView::Aes128 || key.uri is None,
    ensures
        playlist::decryption_of(base, key, sequence) == Err::<
            playlist::SegmentKeyView,
            HlsErrorView,
        >(HlsErrorView::UnsupportedEncryption),
{
}

/// The numbers of a playlist fit where the one behind its last segment does.
pub proof fn lemma_sequence_fits(list: MediaListView)
    ensures
        playlist::sequence_fits(list) <==> list.media_sequence + list.segments.len()
            <= 0xffff_ffff_ffff_ffffint,
{
}

/// Whatever its bytes, a playlist counts as protected where its text, repaired
/// where need be and in upper case, names the method SAMPLE-AES.
pub proof fn lemma_any_protection(body: Seq<u8>)
    ensures
        variants::is_protected(body) <==> text_laws::holds(
            text::upper(text::lossy(body)),
            "METHOD=SAMPLE-AES"@,
        ),
{
    text_laws::lemma_put_together(text::upper(text::lossy(body)), "METHOD=SAMPLE-AES"@);
}

} // verus!
