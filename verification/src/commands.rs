//! The argument lists handed to `ffmpeg` and `ffprobe`, and the lines of an
//! ffmpeg concat list.
use vstd::prelude::*;
use vstd::string::*;
use crate::text::{views, decimal, decimal_text, owned};

verus! {

/// Appends a copy of `s` to `v`.
fn push_arg(v: &mut Vec<String>, s: &str)
    ensures
        views(final(v)@) == views(old(v)@).push(s@),
{
    let ghost before = v@;
    let a = owned(s);
    v.push(a);
    assert(views(v@) =~= views(before).push(s@));
}

/// The line of an ffmpeg concat list that names `path`: `file '<path>'`.
pub open spec fn concat_line_spec(path: Seq<char>) -> Seq<char> {
    "file '"@ + path + "'"@
}


/// The concat line names the whole path, unchanged: the path stands in full
/// between `file '` and `'`, so different paths give different lines.
pub proof fn lemma_concat_line_names_path(path: Seq<char>, other: Seq<char>)
    ensures
        concat_line_spec(path).len() == path.len() + 7,
        concat_line_spec(path).subrange(6, 6 + path.len() as int) == path,
        concat_line_spec(path) == concat_line_spec(other) ==> path == other,
{
    reveal_strlit("file '");
    reveal_strlit("'");
    assert(concat_line_spec(path).subrange(6, 6 + path.len() as int) =~= path);
    assert(concat_line_spec(other).subrange(6, 6 + other.len() as int) =~= other);
}

/// The line of an ffmpeg concat list that names `path`.
pub fn concat_line(path: &str) -> (r: String)
    ensures
        r@ == concat_line_spec(path@),
{
    let mut r = owned("file '");
    r.append(path);
    r.append("'");
    r
}

/// ffmpeg arguments that concatenate the files named in `list_file` into
/// `output` without re-encoding.
pub open spec fn merge_args_spec(list_file: Seq<char>, output: Seq<char>) -> Seq<Seq<char>> {
    seq!["-f"@, "concat"@, "-safe"@, "0"@, "-i"@, list_file, "-c"@, "copy"@, output]
}

/// ffmpeg arguments that concatenate the files named in `list_file` into
/// `output` without re-encoding.
pub fn merge_args(list_file: &str, output: &str) -> (r: Vec<String>)
    ensures
        views(r@) == merge_args_spec(list_file@, output@),
{
    let mut r: Vec<String> = Vec::new();
    push_arg(&mut r, "-f");
    push_arg(&mut r, "concat");
    push_arg(&mut r, "-safe");
    push_arg(&mut r, "0");
    push_arg(&mut r, "-i");
    push_arg(&mut r, list_file);
    push_arg(&mut r, "-c");
    push_arg(&mut r, "copy");
    push_arg(&mut r, output);
    assert(views(r@) =~= merge_args_spec(list_file@, output@));
    r
}

/// ffmpeg arguments that concatenate the files named in `list_file` into
/// `output` without re-encoding, overwriting `output`.
pub open spec fn concat_overwrite_args_spec(list_file: Seq<char>, output: Seq<char>) -> Seq<
    Seq<char>,
> {
    seq!["-f"@, "concat"@, "-safe"@, "0"@, "-i"@, list_file, "-c"@, "copy"@, "-y"@, output]
}

/// ffmpeg arguments that concatenate the files named in `list_file` into
/// `output` without re-encoding, overwriting `output`.
pub fn concat_overwrite_args(list_file: &str, output: &str) -> (r: Vec<String>)
    ensures
        views(r@) == concat_overwrite_args_spec(list_file@, output@),
{
    let mut r: Vec<String> = Vec::new();
    push_arg(&mut r, "-f");
    push_arg(&mut r, "concat");
    push_arg(&mut r, "-safe");
    push_arg(&mut r, "0");
    push_arg(&mut r, "-i");
    push_arg(&mut r, list_file);
    push_arg(&mut r, "-c");
    push_arg(&mut r, "copy");
    push_arg(&mut r, "-y");
    push_arg(&mut r, output);
    assert(views(r@) =~= concat_overwrite_args_spec(list_file@, output@));
    r
}

/// ffmpeg arguments that decode `input` to nowhere, so that ffmpeg reports
/// the input's duration on its error stream.
pub open spec fn decode_args_spec(input: Seq<char>) -> Seq<Seq<char>> {
    seq!["-i"@, input, "-hide_banner"@, "-f"@, "null"@, "-"@]
}

/// ffmpeg arguments that decode `input` to nowhere, so that ffmpeg reports
/// the input's duration on its error stream.
pub fn decode_args(input: &str) -> (r: Vec<String>)
    ensures
        views(r@) == decode_args_spec(input@),
{
    let mut r: Vec<String> = Vec::new();
    push_arg(&mut r, "-i");
    push_arg(&mut r, input);
    push_arg(&mut r, "-hide_banner");
    push_arg(&mut r, "-f");
    push_arg(&mut r, "null");
    push_arg(&mut r, "-");
    assert(views(r@) =~= decode_args_spec(input@));
    r
}

/// ffprobe arguments that print only the duration of `input`, in seconds.
pub open spec fn probe_duration_args_spec(input: Seq<char>) -> Seq<Seq<char>> {
    seq![
        "-v"@,
        "error"@,
        "-show_entries"@,
        "format=duration"@,
        "-of"@,
        "default=noprint_wrappers=1:nokey=1"@,
        input,
    ]
}

/// ffprobe arguments that print only the duration of `input`, in seconds.
pub fn probe_duration_args(input: &str) -> (r: Vec<String>)
    ensures
        views(r@) == probe_duration_args_spec(input@),
{
    let mut r: Vec<String> = Vec::new();
    push_arg(&mut r, "-v");
    push_arg(&mut r, "error");
    push_arg(&mut r, "-show_entries");
    push_arg(&mut r, "format=duration");
    push_arg(&mut r, "-of");
    push_arg(&mut r, "default=noprint_wrappers=1:nokey=1");
    push_arg(&mut r, input);
    assert(views(r@) =~= probe_duration_args_spec(input@));
    r
}

/// ffmpeg arguments that scale the volume of `input` by the factor written
/// as `factor` and encode the result as MP3 into `output`, overwriting it.
pub open spec fn volume_args_spec(input: Seq<char>, output: Seq<char>, factor: Seq<char>) -> Seq<
    Seq<char>,
> {
    seq!["-i"@, input, "-filter:a"@, "volume="@ + factor, "-c:a"@, "mp3"@, "-y"@, output]
}

/// ffmpeg arguments that scale the volume of `input` by the factor written
/// as `factor` and encode the result as MP3 into `output`, overwriting it.
pub fn volume_args(input: &str, output: &str, factor: &str) -> (r: Vec<String>)
    ensures
        views(r@) == volume_args_spec(input@, output@, factor@),
{
    let mut r: Vec<String> = Vec::new();
    push_arg(&mut r, "-i");
    push_arg(&mut r, input);
    push_arg(&mut r, "-filter:a");
    let mut filter = owned("volume=");
    filter.append(factor);
    let ghost before = r@;
    r.push(filter);
    assert(views(r@) =~= views(before).push("volume="@ + factor@));
    push_arg(&mut r, "-c:a");
    push_arg(&mut r, "mp3");
    push_arg(&mut r, "-y");
    push_arg(&mut r, output);
    assert(views(r@) =~= volume_args_spec(input@, output@, factor@));
    r
}

/// ffmpeg arguments that make an H.264 video `output` of `seconds` seconds
/// from the still `image` looped at one frame per second, with the sound of
/// `audio` and the video filter `filter`.
pub open spec fn video_args_spec(
    seconds: nat,
    image: Seq<char>,
    audio: Seq<char>,
    filter: Seq<char>,
    output: Seq<char>,
) -> Seq<Seq<char>> {
    seq![
        "-loop"@,
        "1"@,
        "-framerate"@,
        "1"@,
        "-t"@,
        decimal(seconds),
        "-i"@,
        image,
        "-i"@,
        audio,
        "-c:v"@,
        "libx264"@,
        "-pix_fmt"@,
        "yuv420p"@,
        "-vf"@,
        filter,
        "-shortest"@,
        output,
    ]
}

/// ffmpeg arguments that make an H.264 video `output` of `seconds` seconds
/// from the still `image` looped at one frame per second, with the sound of
/// `audio` and the video filter `filter`.
pub fn video_args(seconds: u64, image: &str, audio: &str, filter: &str, output: &str) -> (r: Vec<
    String,
>)
    ensures
        views(r@) == video_args_spec(seconds as nat, image@, audio@, filter@, output@),
{
    let mut r: Vec<String> = Vec::new();
    push_arg(&mut r, "-loop");
    push_arg(&mut r, "1");
    push_arg(&mut r, "-framerate");
    push_arg(&mut r, "1");
    push_arg(&mut r, "-t");
    let secs = decimal_text(seconds);
    push_arg(&mut r, secs.as_str());
    push_arg(&mut r, "-i");
    push_arg(&mut r, image);
    push_arg(&mut r, "-i");
    push_arg(&mut r, audio);
    push_arg(&mut r, "-c:v");
    push_arg(&mut r, "libx264");
    push_arg(&mut r, "-pix_fmt");
    push_arg(&mut r, "yuv420p");
    push_arg(&mut r, "-vf");
    push_arg(&mut r, filter);
    push_arg(&mut r, "-shortest");
    push_arg(&mut r, output);
    assert(views(r@) =~= video_args_spec(seconds as nat, image@, audio@, filter@, output@));
    r
}

/// ffmpeg arguments that re-encode the `length` seconds of `input` that start
/// at second `start` into `output` (H.264 video, AAC sound).
pub open spec fn segment_args_spec(
    input: Seq<char>,
    start: nat,
    length: nat,
    output: Seq<char>,
) -> Seq<Seq<char>> {
    seq![
        "-i"@,
        input,
        "-ss"@,
        decimal(start),
        "-t"@,
        decimal(length),
        "-c:v"@,
        "libx264"@,
        "-pix_fmt"@,
        "yuv420p"@,
        "-c:a"@,
        "aac"@,
        "-strict"@,
        "-2"@,
        output,
    ]
}

/// ffmpeg arguments that re-encode the `length` seconds of `input` that start
/// at second `start` into `output` (H.264 video, AAC sound).
pub fn segment_args(input: &str, start: u64, length: u64, output: &str) -> (r: Vec<String>)
    ensures
        views(r@) == segment_args_spec(input@, start as nat, length as nat, output@),
{
    let mut r: Vec<String> = Vec::new();
    push_arg(&mut r, "-i");
    push_arg(&mut r, input);
    push_arg(&mut r, "-ss");
    let s = decimal_text(start);
    push_arg(&mut r, s.as_str());
    push_arg(&mut r, "-t");
    let l = decimal_text(length);
    push_arg(&mut r, l.as_str());
    push_arg(&mut r, "-c:v");
    push_arg(&mut r, "libx264");
    push_arg(&mut r, "-pix_fmt");
    push_arg(&mut r, "yuv420p");
    push_arg(&mut r, "-c:a");
    push_arg(&mut r, "aac");
    push_arg(&mut r, "-strict");
    push_arg(&mut r, "-2");
    push_arg(&mut r, output);
    assert(views(r@) =~= segment_args_spec(input@, start as nat, length as nat, output@));
    r
}

} // verus!
