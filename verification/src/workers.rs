//! Segment files on disk and the workers that fetch them.

use crate::text;
use vstd::prelude::*;

verus! {

/// The largest number of segment downloads that run at once.
pub const MAX_WORKERS: usize = 64;

/// `n` brought into the range from `low` to `high`.
pub open spec fn clamped(n: int, low: int, high: int) -> int {
    if n < low {
        low
    } else if n > high {
        high
    } else {
        n
    }
}

/// How many segment downloads may run at once.
pub fn worker_limit(wanted: usize) -> (out: usize)
    ensures
        out == clamped(wanted as int, 1, MAX_WORKERS as int),
{
    if wanted < 1 {
        1
    } else if wanted > MAX_WORKERS {
        MAX_WORKERS
    } else {
        wanted
    }
}

/// The file name of the segment with index `i`, counted from 0.
pub open spec fn numbered_name(i: int, ext: Seq<char>) -> Seq<char> {
    "segment_"@ + text::zero_padded((i + 1) as nat, 5) + ext
}

/// The file name of the segment with index `i`, counted from 0.
pub fn segment_file(i: usize, ext: &str) -> (out: String)
    requires
        i < usize::MAX,
    ensures
        out@ == numbered_name(i as int, ext@),
{
    let number = text::padded_of(i as u64 + 1, 5);
    let mut out = "segment_".to_owned();
    out.append(number.as_str());
    out.append(ext);
    out
}

/// No two segments share a file name.
pub proof fn lemma_names_distinct(i: int, j: int, ext: Seq<char>)
    requires
        0 <= i,
        0 <= j,
        numbered_name(i, ext) == numbered_name(j, ext),
    ensures
        i == j,
{
    let a = text::zero_padded((i + 1) as nat, 5);
    let b = text::zero_padded((j + 1) as nat, 5);
    let n = "segment_"@.len() as int;
    assert(numbered_name(i, ext).len() == n + a.len() + ext.len());
    assert(numbered_name(j, ext).len() == n + b.len() + ext.len());
    assert(numbered_name(i, ext).subrange(n, n + a.len()) =~= a);
    assert(numbered_name(j, ext).subrange(n, n + a.len()) =~= b);
    text::lemma_padded_round_trip((i + 1) as nat, 5);
    text::lemma_padded_round_trip((j + 1) as nat, 5);
}

/// The indices of the segments that are not on disk yet, in order.
pub open spec fn missing(present: Seq<bool>) -> Seq<usize>
    decreases present.len(),
{
    if present.len() == 0 {
        Seq::empty()
    } else if present.last() {
        missing(present.drop_last())
    } else {
        missing(present.drop_last()).push((present.len() - 1) as usize)
    }
}

/// How many segments are on disk.
pub open spec fn stored(present: Seq<bool>) -> nat
    decreases present.len(),
{
    if present.len() == 0 {
        0
    } else {
        stored(present.drop_last()) + if present.last() {
            1nat
        } else {
            0nat
        }
    }
}

/// How many segments are on disk before the first that is missing.
pub open spec fn leading(present: Seq<bool>) -> nat
    decreases present.len(),
{
    if present.len() == 0 || !present[0] {
        0
    } else {
        1 + leading(present.drop_first())
    }
}

/// Splits segments into those on disk, which are counted, and those that are
/// still to be fetched.
pub fn split_pending(present: &Vec<bool>) -> (out: (u64, Vec<usize>))
    ensures
        out.0 == stored(present@),
        out.1@ == missing(present@),
{
    let mut done: u64 = 0;
    let mut pending: Vec<usize> = Vec::new();
    let mut i: usize = 0;
    assert(missing(present@.take(0)) =~= Seq::empty());
    while i < present.len()
        invariant
            i <= present.len(),
            done <= i,
            done == stored(present@.take(i as int)),
            pending@ == missing(present@.take(i as int)),
        decreases present.len() - i,
    {
        assert(present@.take(i + 1).drop_last() =~= present@.take(i as int));
        if present[i] {
            done += 1;
        } else {
            pending.push(i);
        }
        i += 1;
    }
    assert(present@.take(present.len() as int) =~= present@);
    (done, pending)
}

/// Every segment is either on disk or still to be fetched.
pub proof fn lemma_split_complete(present: Seq<bool>)
    requires
        present.len() <= usize::MAX,
    ensures
        stored(present) + missing(present).len() == present.len(),
        forall|k: int|
            0 <= k < missing(present).len() ==> {
                let i = #[trigger] missing(present)[k];
                i < present.len() && !present[i as int]
            },
        forall|i: int|
            0 <= i < present.len() && !(#[trigger] present[i]) ==> missing(present).contains(
                i as usize,
            ),
        forall|j: int, k: int|
            0 <= j < k < missing(present).len() ==> missing(present)[j] < missing(present)[k],
    decreases present.len(),
{
    if present.len() > 0 {
        let front = present.drop_last();
        lemma_split_complete(front);
        assert forall|i: int| 0 <= i < present.len() && !(#[trigger] present[i]) implies missing(
            present,
        ).contains(i as usize) by {
            if i < front.len() {
                assert(!front[i]);
                let k = choose|k: int| 0 <= k < missing(front).len() && missing(front)[k] == i;
                assert(missing(present)[k] == i);
            } else {
                assert(missing(present).last() == i);
            }
        }
    }
}

/// The number of segments on disk before the first that is missing.
pub fn leading_count(present: &Vec<bool>) -> (out: usize)
    ensures
        out == leading(present@),
{
    let mut i: usize = 0;
    assert(present@.skip(0) =~= present@);
    while i < present.len()
        invariant
            i <= present.len(),
            leading(present@) == i + leading(present@.skip(i as int)),
        decreases present.len() - i,
    {
        assert(present@.skip(i as int).drop_first() =~= present@.skip(i + 1));
        if !present[i] {
            return i;
        }
        i += 1;
    }
    i
}

/// The files of the segments on disk, in order.
pub open spec fn stored_names(present: Seq<bool>, ext: Seq<char>) -> Seq<Seq<char>>
    decreases present.len(),
{
    if present.len() == 0 {
        Seq::empty()
    } else if present.last() {
        stored_names(present.drop_last(), ext).push(numbered_name(present.len() - 1, ext))
    } else {
        stored_names(present.drop_last(), ext)
    }
}

/// The files of the segments on disk, in order, behind those in `first`.
pub fn stored_files(first: Vec<String>, present: &Vec<bool>, ext: &str) -> (out: Vec<String>)
    ensures
        text::string_views(out@) == text::string_views(first@) + stored_names(present@, ext@),
{
    let ghost lead = text::string_views(first@);
    let mut out = first;
    let mut i: usize = 0;
    assert(text::string_views(out@) =~= lead + stored_names(present@.take(0), ext@));
    while i < present.len()
        invariant
            i <= present.len(),
            text::string_views(out@) == lead + stored_names(present@.take(i as int), ext@),
        decreases present.len() - i,
    {
        assert(present@.take(i + 1).drop_last() =~= present@.take(i as int));
        if present[i] {
            let ghost before = out@;
            let name = segment_file(i, ext);
            out.push(name);
            assert(text::string_views(out@) =~= text::string_views(before).push(name@));
            assert(text::string_views(out@) =~= lead + stored_names(present@.take(i + 1), ext@));
        }
        i += 1;
    }
    assert(present@.take(present.len() as int) =~= present@);
    out
}

/// Once every segment is on disk, the files are all of them, in order.
pub proof fn lemma_all_stored(present: Seq<bool>, ext: Seq<char>)
    requires
        forall|i: int| 0 <= i < present.len() ==> #[trigger] present[i],
    ensures
        stored_names(present, ext) == Seq::new(present.len(), |i: int| numbered_name(i, ext)),
    decreases present.len(),
{
    if present.len() > 0 {
        lemma_all_stored(present.drop_last(), ext);
        assert(stored_names(present, ext) =~= Seq::new(
            present.len(),
            |i: int| numbered_name(i, ext),
        ));
    } else {
        assert(stored_names(present, ext) =~= Seq::new(
            present.len(),
            |i: int| numbered_name(i, ext),
        ));
    }
}

} // verus!
