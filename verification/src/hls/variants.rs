//! The qualities that a playlist offers.

use crate::hls::error::{HlsError, HlsErrorView};
use crate::hls::listing::{read_master, ListedVariant, ListedVariantView};
use crate::hls::listing;
use crate::hls::playlist::read_media_of;
use crate::hls::playlist;
use crate::order;
use crate::text;
use crate::urls::{join_url, parse_url, url_string};
use crate::urls;
use url::Url;
use vstd::prelude::*;

verus! {

/// A selectable quality variant of a master playlist.
#[derive(Debug, Clone)]
pub struct Variant {
    pub label: String,
    pub url: String,
}

/// The qualities of a playlist with DRM detection, for the quality picker.
#[derive(Debug)]
pub struct HlsVariants {
    pub is_drm: bool,
    pub variants: Vec<Variant>,
}

/// A quality as a mathematical value.
pub struct VariantView {
    pub label: Seq<char>,
    pub url: Seq<char>,
}

/// The qualities of a playlist as a mathematical value.
pub struct VariantsView {
    pub is_drm: bool,
    pub variants: Seq<VariantView>,
}

impl View for Variant {
    type V = VariantView;

    open spec fn view(&self) -> VariantView {
        VariantView { label: self.label@, url: self.url@ }
    }
}

/// The views of some qualities.
pub open spec fn variant_views(list: Seq<Variant>) -> Seq<VariantView> {
    list.map_values(|v: Variant| v@)
}

impl View for HlsVariants {
    type V = VariantsView;

    open spec fn view(&self) -> VariantsView {
        VariantsView { is_drm: self.is_drm, variants: variant_views(self.variants@) }
    }
}

/// Whether a playlist names SAMPLE-AES, the mark of DRM.
pub open spec fn is_protected(body: Seq<u8>) -> bool {
    text::contains_text(text::upper(text::lossy(body)), "METHOD=SAMPLE-AES"@)
}

/// What a quality is called: its picture height, or else its bandwidth.
pub open spec fn label_of(v: ListedVariantView) -> Seq<char> {
    match v.height {
        Some(h) => if h > 0 {
            text::decimal(h as nat) + "p"@
        } else {
            text::decimal((v.bandwidth / 1000) as nat) + " kbps"@
        },
        None => text::decimal((v.bandwidth / 1000) as nat) + " kbps"@,
    }
}

/// The picture height that a label states, 0 where it states none.
pub open spec fn height_in(label: Seq<char>) -> u64 {
    if label.len() > 0 && label.last() == 'p' {
        match text::parse_u64(label.drop_last()) {
            Some(h) => h,
            None => 0,
        }
    } else {
        0
    }
}

/// The key by which qualities are listed.
pub open spec fn by_height() -> spec_fn(VariantView) -> u64 {
    |v: VariantView| height_in(v.label)
}

/// The variants with their URLs resolved, or the error of the first that
/// cannot be.
pub open spec fn resolved_variants(base: Seq<char>, list: Seq<ListedVariantView>) -> Result<
    Seq<VariantView>,
    HlsErrorView,
>
    decreases list.len(),
{
    if list.len() == 0 {
        Ok(Seq::empty())
    } else {
        match resolved_variants(base, list.drop_last()) {
            Err(e) => Err(e),
            Ok(front) => match urls::joined(base, list.last().uri) {
                Err(message) => Err(HlsErrorView::Playlist(message)),
                Ok(url) => Ok(front.push(VariantView { label: label_of(list.last()), url })),
            },
        }
    }
}

/// The qualities of a master playlist, highest picture first.
pub open spec fn master_variants(
    playlist_url: Seq<char>,
    list: Seq<ListedVariantView>,
) -> Result<Seq<VariantView>, HlsErrorView> {
    match urls::parsed(playlist_url) {
        Err(message) => Err(HlsErrorView::Playlist(message)),
        Ok(base) => match resolved_variants(base, list) {
            Err(e) => Err(e),
            Ok(variants) => if variants.len() == 0 {
                Err(HlsErrorView::Playlist("master playlist has no variants"@))
            } else {
                Ok(order::by_key_desc(variants, by_height()))
            },
        },
    }
}

/// The qualities that the body of a playlist offers: a media playlist is its
/// own single quality.
pub open spec fn variants_of(playlist_url: Seq<char>, body: Seq<u8>) -> Result<
    VariantsView,
    HlsErrorView,
> {
    if playlist::media_of(body) is Some {
        Ok(
            VariantsView {
                is_drm: is_protected(body),
                variants: seq![VariantView { label: "source"@, url: playlist_url }],
            },
        )
    } else {
        match listing::master_playlist(body) {
            Err(message) => Err(HlsErrorView::Playlist(message)),
            Ok(list) => match master_variants(playlist_url, list) {
                Err(e) => Err(e),
                Ok(variants) => Ok(VariantsView { is_drm: is_protected(body), variants }),
            },
        }
    }
}

/// Whether a playlist names SAMPLE-AES. AES-128 is plain HLS encryption and can
/// be downloaded.
pub fn raw_is_drm(bytes: &[u8]) -> (out: bool)
    ensures
        out == is_protected(bytes@),
{
    let body = text::from_utf8_lossy(bytes);
    let upper = text::to_upper(body.as_str());
    text::has_text(&text::chars_of(upper.as_str()), "METHOD=SAMPLE-AES")
}

/// The picture height that a label states.
pub fn variant_height(label: &str) -> (out: u64)
    ensures
        out == height_in(label@),
{
    let chars = text::chars_of(label);
    let n: usize = chars.len();
    if n > 0 && chars[n - 1] == 'p' {
        let digits = text::slice_of(&chars, 0, n - 1);
        assert(digits@ =~= label@.drop_last());
        match text::to_u64(&digits) {
            Some(h) => h,
            None => 0,
        }
    } else {
        0
    }
}

/// What a quality is called.
fn read_label(v: &ListedVariant) -> (out: String)
    ensures
        out@ == label_of(v@),
{
    let h: u64 = match v.height {
        Some(h) => h,
        None => 0,
    };
    if h > 0 {
        text::decimal_of(h).concat("p")
    } else {
        text::decimal_of(v.bandwidth / 1000).concat(" kbps")
    }
}

/// An error among the first variants is the error of them all.
proof fn lemma_first_error(base: Seq<char>, list: Seq<ListedVariantView>, n: int)
    requires
        0 <= n <= list.len(),
        resolved_variants(base, list.take(n)) is Err,
    ensures
        resolved_variants(base, list) == resolved_variants(base, list.take(n)),
    decreases list.len(),
{
    if n == list.len() {
        assert(list.take(n) =~= list);
    } else {
        assert(list.drop_last().take(n) =~= list.take(n));
        lemma_first_error(base, list.drop_last(), n);
    }
}

/// The view of a list of qualities.
pub open spec fn list_view(out: Result<Vec<Variant>, HlsError>) -> Result<
    Seq<VariantView>,
    HlsErrorView,
> {
    match out {
        Ok(list) => Ok(variant_views(list@)),
        Err(e) => Err(e@),
    }
}

/// The variants with their URLs resolved, sorted.
fn resolve_variants(base: &Url, list: &Vec<ListedVariant>) -> (out: Result<
    Vec<Variant>,
    HlsError,
>)
    ensures
        match resolved_variants(urls::url_text(*base), listing::variant_list(list@)) {
            Ok(found) => list_view(out) == Ok::<Seq<VariantView>, HlsErrorView>(
                order::by_key_desc(found, by_height()),
            ) && (out matches Ok(v) ==> v.len() == found.len()),
            Err(e) => list_view(out) == Err::<Seq<VariantView>, HlsErrorView>(e),
        },
{
    let ghost root = urls::url_text(*base);
    let ghost all = listing::variant_list(list@);
    let mut out: Vec<Variant> = Vec::new();
    let mut keys: Vec<u64> = Vec::new();
    let mut i: usize = 0;
    let ghost mut found: Seq<VariantView> = Seq::empty();
    assert(variant_views(out@) =~= order::by_key_desc(found, by_height()));
    assert(keys@ =~= order::keys_of(variant_views(out@), by_height()));
    while i < list.len()
        invariant
            i <= list.len(),
            root == urls::url_text(*base),
            all == listing::variant_list(list@),
            resolved_variants(root, all.take(i as int)) == Ok::<Seq<VariantView>, HlsErrorView>(
                found,
            ),
            variant_views(out@) == order::by_key_desc(found, by_height()),
            keys@ == order::keys_of(variant_views(out@), by_height()),
            out.len() == found.len(),
        decreases list.len() - i,
    {
        proof {
            assert(all.take(i + 1).drop_last() =~= all.take(i as int));
            assert(all.take(i + 1).last() == list@[i as int]@);
            if resolved_variants(root, all.take(i + 1)) is Err {
                lemma_first_error(root, all, i + 1);
            }
        }
        let url = match join_url(base, list[i].uri.as_str()) {
            Ok(url) => url_string(&url),
            Err(message) => return Err(HlsError::Playlist(message)),
        };
        let variant = Variant { label: read_label(&list[i]), url };
        let height: u64 = variant_height(variant.label.as_str());
        let place: usize = order::place_for(&keys, height);
        let ghost before = out@;
        out.insert(place, variant);
        keys.insert(place, height);
        proof {
            let grown = found.push(variant@);
            assert(grown.drop_last() =~= found);
            assert(variant_views(out@) =~= variant_views(before).insert(place as int, variant@));
            assert(keys@ =~= order::keys_of(variant_views(out@), by_height()));
            found = grown;
        }
        i += 1;
    }
    assert(all.take(all.len() as int) =~= all);
    Ok(out)
}

/// The qualities of a master playlist that lists `list`, highest picture first.
pub fn variants_from_master(playlist_url: &str, list: &Vec<ListedVariant>) -> (out: Result<
    Vec<Variant>,
    HlsError,
>)
    ensures
        list_view(out) == master_variants(playlist_url@, listing::variant_list(list@)),
{
    let base = match parse_url(playlist_url) {
        Ok(base) => base,
        Err(message) => return Err(HlsError::Playlist(message)),
    };
    match resolve_variants(&base, list) {
        Ok(variants) => if variants.len() == 0 {
            Err(HlsError::Playlist("master playlist has no variants".to_owned()))
        } else {
            Ok(variants)
        },
        Err(e) => Err(e),
    }
}

/// The qualities that the body of the playlist at `playlist_url` offers.
pub fn variants_from_body(playlist_url: &str, body: &[u8]) -> (out: Result<HlsVariants, HlsError>)
    ensures
        match out {
            Ok(v) => variants_of(playlist_url@, body@) == Ok::<VariantsView, HlsErrorView>(v@),
            Err(e) => variants_of(playlist_url@, body@) == Err::<VariantsView, HlsErrorView>(e@),
        },
{
    let is_drm = raw_is_drm(body);
    match read_media_of(body) {
        Some(_) => {
            let mut variants: Vec<Variant> = Vec::new();
            variants.push(Variant { label: "source".to_owned(), url: playlist_url.to_owned() });
            assert(variant_views(variants@) =~= seq![
                VariantView { label: "source"@, url: playlist_url@ },
            ]);
            Ok(HlsVariants { is_drm, variants })
        },
        None => match read_master(body) {
            Ok(list) => match variants_from_master(playlist_url, &list) {
                Ok(variants) => Ok(HlsVariants { is_drm, variants }),
                Err(e) => Err(e),
            },
            Err(message) => Err(HlsError::Playlist(message)),
        },
    }
}

// ---------------------------------------------------------------------------
// Laws
// ---------------------------------------------------------------------------

/// A quality that is called by its picture height is listed by that height.
pub proof fn lemma_height_of_label(v: ListedVariantView)
    ensures
        height_in(label_of(v)) == match v.height {
            Some(h) => h,
            None => 0,
        },
{
    reveal_strlit("p");
    reveal_strlit(" kbps");
    match v.height {
        Some(h) => {
            if h > 0 {
                assert(label_of(v).drop_last() =~= text::decimal(h as nat));
                text::lemma_decimal_round_trip(h as nat);
            } else {
                assert(label_of(v).last() == 's');
            }
        },
        None => {
            assert(label_of(v).last() == 's');
        },
    }
}

/// The qualities of a master playlist are all of its variants, with picture
/// heights that never grow down the list.
pub proof fn lemma_variants_sorted(playlist_url: Seq<char>, list: Seq<ListedVariantView>)
    ensures
        master_variants(playlist_url, list) matches Ok(variants) ==> {
            &&& variants.len() == list.len()
            &&& variants.to_multiset() == resolved_variants(
                urls::parsed(playlist_url)->Ok_0,
                list,
            )->Ok_0.to_multiset()
            &&& order::is_desc(order::keys_of(variants, by_height()))
        },
{
    if urls::parsed(playlist_url) is Ok {
        let base = urls::parsed(playlist_url)->Ok_0;
        lemma_resolved_len(base, list);
        if resolved_variants(base, list) is Ok {
            order::lemma_by_key_desc(resolved_variants(base, list)->Ok_0, by_height());
        }
    }
}

proof fn lemma_resolved_len(base: Seq<char>, list: Seq<ListedVariantView>)
    ensures
        resolved_variants(base, list) matches Ok(found) ==> found.len() == list.len(),
    decreases list.len(),
{
    if list.len() > 0 {
        lemma_resolved_len(base, list.drop_last());
    }
}

} // verus!
