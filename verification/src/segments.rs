//! Cutting a video of a whole number of seconds into segments of equal length.
use vstd::prelude::*;
use vstd::string::*;
use crate::text::{decimal, decimal_text, owned};
use crate::cli::{parse_u64_spec, lemma_parse_decimal, lemma_decimal_digits};

verus! {

/// The number of segments of `length` seconds cut from a video of `duration`
/// seconds: one more than the number of whole segments that fit.
pub open spec fn segment_count_spec(duration: nat, length: nat) -> nat {
    duration / length + 1
}

/// The second at which segment `index` (counted from 0) starts.
pub open spec fn segment_start_spec(index: nat, length: nat) -> nat {
    index * length
}

/// The file that receives segment `index` (counted from 0):
/// `<folder>/segment_<index + 1>.mp4`.
pub open spec fn segment_path_spec(folder: Seq<char>, index: nat) -> Seq<char> {
    folder + "/segment_"@ + decimal(index + 1) + ".mp4"@
}

/// The number of segments of `length` seconds cut from a video of `duration`
/// seconds.
pub fn segment_count(duration: u64, length: u64) -> (r: u64)
    requires
        length > 0,
        duration / length < u64::MAX,
    ensures
        r == segment_count_spec(duration as nat, length as nat),
{
    duration / length + 1
}

/// The second at which segment `index` of a video of `duration` seconds cut
/// into segments of `length` seconds starts.
pub fn segment_start(duration: u64, length: u64, index: u64) -> (r: u64)
    requires
        length > 0,
        index < segment_count_spec(duration as nat, length as nat),
    ensures
        r == segment_start_spec(index as nat, length as nat),
        r <= duration,
{
    proof {
        lemma_segment_starts_within(duration as nat, length as nat, index as nat);
    }
    index * length
}

/// The file that receives segment `index` of a cut into `folder`.
pub fn segment_path(folder: &str, index: u64) -> (r: String)
    requires
        index < u64::MAX,
    ensures
        r@ == segment_path_spec(folder@, index as nat),
{
    let mut r = owned(folder);
    r.append("/segment_");
    let n = decimal_text(index + 1);
    r.append(n.as_str());
    r.append(".mp4");
    r
}


/// The number in a segment's file name reads back as the segment's position
/// counted from 1: the name is the folder, `/segment_`, a number that parses
/// as `index + 1`, and `.mp4`.
pub proof fn lemma_segment_path_reads_back(folder: Seq<char>, index: nat)
    requires
        index + 1 <= u64::MAX,
    ensures
        segment_path_spec(folder, index).len() >= folder.len() + 13,
        segment_path_spec(folder, index).subrange(0, folder.len() as int) == folder,
        segment_path_spec(folder, index).subrange(
            folder.len() as int,
            folder.len() as int + 9,
        ) == "/segment_"@,
        segment_path_spec(folder, index).subrange(
            segment_path_spec(folder, index).len() - 4,
            segment_path_spec(folder, index).len() as int,
        ) == ".mp4"@,
        parse_u64_spec(
            segment_path_spec(folder, index).subrange(
                folder.len() as int + 9,
                segment_path_spec(folder, index).len() - 4,
            ),
        ) == Some((index + 1) as u64),
{
    reveal_strlit("/segment_");
    reveal_strlit(".mp4");
    let n = (index + 1) as u64;
    lemma_parse_decimal(n);
    lemma_decimal_digits(n as nat);
    let p = segment_path_spec(folder, index);
    let d = decimal(index + 1);
    assert(p.subrange(0, folder.len() as int) =~= folder);
    assert(p.subrange(folder.len() as int, folder.len() as int + 9) =~= "/segment_"@);
    assert(p.subrange(p.len() - 4, p.len() as int) =~= ".mp4"@);
    assert(p.subrange(folder.len() as int + 9, p.len() - 4) =~= d);
}

/// Different segments of one cut go to different files.
pub proof fn lemma_segment_paths_distinct(folder: Seq<char>, i: nat, j: nat)
    requires
        i + 1 <= u64::MAX,
        j + 1 <= u64::MAX,
        i != j,
    ensures
        segment_path_spec(folder, i) != segment_path_spec(folder, j),
{
    lemma_segment_path_reads_back(folder, i);
    lemma_segment_path_reads_back(folder, j);
}

/// Every segment starts within the video.
pub proof fn lemma_segment_starts_within(duration: nat, length: nat, index: nat)
    requires
        length > 0,
        index < segment_count_spec(duration, length),
    ensures
        segment_start_spec(index, length) <= duration,
{
    let q = duration / length;
    assert(index <= q);
    assert(q * length <= duration) by (nonlinear_arith)
        requires
            q == duration / length,
            length > 0,
    ;
    assert(index * length <= q * length) by (nonlinear_arith)
        requires
            index <= q,
    ;
}

/// The segments cover the whole video: every second `t` up to `duration`
/// lies in the segment `t / length`, one of the segments cut.
pub proof fn lemma_segments_cover(duration: nat, length: nat, t: nat)
    requires
        length > 0,
        t <= duration,
    ensures
        t / length < segment_count_spec(duration, length),
        segment_start_spec(t / length, length) <= t < segment_start_spec(t / length, length)
            + length,
{
    let i = t / length;
    assert(i <= duration / length) by (nonlinear_arith)
        requires
            t <= duration,
            length > 0,
            i == t / length,
    ;
    assert(i * length <= t < i * length + length) by (nonlinear_arith)
        requires
            length > 0,
            i == t / length,
    ;
}

/// The segments reach past the end of the video: the last one ends after
/// second `duration`.
pub proof fn lemma_segments_reach_end(duration: nat, length: nat)
    requires
        length > 0,
    ensures
        duration < segment_start_spec(
            (segment_count_spec(duration, length) - 1) as nat,
            length,
        ) + length,
{
    let q = duration / length;
    assert(duration < q * length + length) by (nonlinear_arith)
        requires
            length > 0,
            q == duration / length,
    ;
}

} // verus!
