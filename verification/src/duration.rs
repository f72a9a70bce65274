//! Reading the `Duration: HH:MM:SS.ss,` field out of the report that ffmpeg
//! writes to its error stream.
use vstd::prelude::*;
use crate::text::{
    join_with, lemma_split_join, split_on, words, trim_end_char, contains, chars_of, split_chars, words_of, trim_end_chars,
    contains_chars, string_of,
};

verus! {

/// The three colon-separated fields of a duration, as written: hours,
/// minutes and seconds (the seconds may carry a fraction).
#[derive(Debug)]
pub struct DurationFields {
    pub hours: String,
    pub minutes: String,
    pub seconds: String,
}

impl DurationFields {
    /// The fields as a sequence: hours, minutes, seconds.
    pub open spec fn fields(&self) -> Seq<Seq<char>> {
        seq![self.hours@, self.minutes@, self.seconds@]
    }
}

/// The first of `lines` in which `pat` occurs.
pub open spec fn first_containing(lines: Seq<Seq<char>>, pat: Seq<char>) -> Option<Seq<char>>
    decreases lines.len(),
{
    if lines.len() == 0 {
        None
    } else if contains(lines[0], pat) {
        Some(lines[0])
    } else {
        first_containing(lines.drop_first(), pat)
    }
}

/// The duration fields of an ffmpeg report: in the first line that holds
/// `Duration`, the second whitespace-separated word, stripped of trailing
/// commas, must split at `:` into exactly three fields. Any other report has
/// none.
pub open spec fn duration_fields_spec(report: Seq<char>) -> Option<Seq<Seq<char>>> {
    match first_containing(split_on(report, '\n'), "Duration"@) {
        None => None,
        Some(line) => {
            let ws = words(line);
            if ws.len() < 2 {
                None
            } else {
                let hms = split_on(trim_end_char(ws[1], ','), ':');
                if hms.len() == 3 {
                    Some(hms)
                } else {
                    None
                }
            }
        },
    }
}


/// Lines without a match before the lines searched leave the first match
/// unchanged.
pub proof fn lemma_first_containing_skips(before: Seq<Seq<char>>, tail: Seq<Seq<char>>, pat: Seq<char>)
    requires
        forall|i: int| 0 <= i < before.len() ==> !contains(#[trigger] before[i], pat),
    ensures
        first_containing(before + tail, pat) == first_containing(tail, pat),
    decreases before.len(),
{
    if before.len() > 0 {
        let rest = before.drop_first();
        assert forall|i: int| 0 <= i < rest.len() implies !contains(#[trigger] rest[i], pat) by {
            assert(rest[i] == before[i + 1]);
        }
        lemma_first_containing_skips(rest, tail, pat);
        assert((before + tail)[0] == before[0]);
        assert((before + tail).drop_first() =~= rest + tail);
    } else {
        assert(before + tail =~= tail);
    }
}

/// The duration is read from the first line of the whole report that holds
/// `Duration`, wherever that line stands: however many lines without it
/// come first and whatever follows, the fields are those of that line read on
/// its own.
pub proof fn lemma_duration_line_anywhere(
    before: Seq<Seq<char>>,
    line: Seq<char>,
    after: Seq<Seq<char>>,
)
    requires
        forall|i: int|
            0 <= i < before.len() ==> !(#[trigger] before[i]).contains('\n') && !contains(
                before[i],
                "Duration"@,
            ),
        !line.contains('\n'),
        contains(line, "Duration"@),
        forall|i: int| 0 <= i < after.len() ==> !(#[trigger] after[i]).contains('\n'),
    ensures
        duration_fields_spec(join_with(before + seq![line] + after, seq!['\n']))
            == duration_fields_spec(line),
{
    let parts = before + seq![line] + after;
    assert forall|i: int| 0 <= i < parts.len() implies !(#[trigger] parts[i]).contains('\n') by {
        if i < before.len() {
            assert(parts[i] == before[i]);
        } else if i == before.len() {
            assert(parts[i] == line);
        } else {
            assert(parts[i] == after[i - before.len() - 1]);
        }
    }
    lemma_split_join(parts, '\n');
    assert forall|i: int| 0 <= i < before.len() implies !contains(#[trigger] before[i], "Duration"@) by {}
    assert(parts =~= before + (seq![line] + after));
    lemma_first_containing_skips(before, seq![line] + after, "Duration"@);
    assert((seq![line] + after)[0] == line);
    assert(first_containing(seq![line] + after, "Duration"@) == Some(line));
    let single = seq![line];
    assert(forall|i: int| 0 <= i < single.len() ==> !(#[trigger] single[i]).contains('\n'));
    lemma_split_join(single, '\n');
    assert(join_with(single, seq!['\n']) == line);
    assert(first_containing(single, "Duration"@) == Some(line));
}

/// The duration fields of the ffmpeg report `report`, if it has them.
pub fn duration_fields(report: &str) -> (r: Option<DurationFields>)
    ensures
        match r {
            None => duration_fields_spec(report@) is None,
            Some(f) => duration_fields_spec(report@) == Some(f.fields()),
        },
{
    let cs = chars_of(report);
    let lines = split_chars(&cs, '\n');
    let tag = chars_of("Duration");
    let ghost lv = lines@.map_values(|v: Vec<char>| v@);
    let ghost found = first_containing(lv, "Duration"@);
    assert(lv.skip(0) =~= lv);
    let mut i: usize = 0;
    while i < lines.len()
        invariant
            lv == lines@.map_values(|v: Vec<char>| v@),
            lv == split_on(report@, '\n'),
            tag@ == "Duration"@,
            i <= lines.len(),
            found == first_containing(lv, "Duration"@),
            first_containing(lv.skip(i as int), "Duration"@) == found,
        ensures
            i <= lines.len(),
            first_containing(lv.skip(i as int), "Duration"@) == found,
            i < lines.len() ==> contains(lv[i as int], "Duration"@),
        decreases lines.len() - i,
    {
        assert(lv.skip(i as int)[0] == lv[i as int]);
        assert(lv.skip(i as int).drop_first() =~= lv.skip(i + 1));
        if contains_chars(&lines[i], &tag) {
            break;
        }
        i = i + 1;
    }
    if i == lines.len() {
        assert(lv.skip(i as int).len() == 0);
        return None;
    }
    assert(lv.skip(i as int)[0] == lv[i as int]);
    assert(found == Some(lv[i as int]));
    let line = &lines[i];
    let ws = words_of(line);
    let ghost wv = ws@.map_values(|v: Vec<char>| v@);
    if ws.len() < 2 {
        return None;
    }
    assert(wv[1] == ws@[1]@);
    let stamp = trim_end_chars(&ws[1], ',');
    let hms = split_chars(&stamp, ':');
    let ghost hv = hms@.map_values(|v: Vec<char>| v@);
    if hms.len() != 3 {
        return None;
    }
    assert(hv[0] == hms@[0]@ && hv[1] == hms@[1]@ && hv[2] == hms@[2]@);
    let f = DurationFields {
        hours: string_of(&hms[0]),
        minutes: string_of(&hms[1]),
        seconds: string_of(&hms[2]),
    };
    assert(f.fields() =~= hv);
    Some(f)
}

} // verus!
