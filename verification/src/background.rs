//! Choosing the background music: the MP3 files of a directory listing, one
//! parity of them by the clock, then as many as it takes to cover the main
//! track.
use vstd::prelude::*;
use crate::text::{views, ends_with, ends_with_text, same_text};

verus! {

/// The file that receives the background music at its lowered volume.
pub const BACKGROUND_VOLUME_FILE: &'static str = "temp_background.mp3";

/// The concat list of the background music chosen.
pub const BACKGROUND_LIST_FILE: &'static str = "temp_files_to_concat.txt";

/// Why no background music could be chosen.
#[derive(Debug, PartialEq, Eq, Structural)]
pub enum BackgroundError {
    /// The listing holds no file whose name ends in `.mp3`.
    NoMp3Files,
}

impl BackgroundError {
    /// The message that reports the error.
    pub fn message(&self) -> (r: String)
        ensures
            r@ == "No background MP3 files found."@,
    {
        match self {
            BackgroundError::NoMp3Files => String::from_str("No background MP3 files found."),
        }
    }
}

/// `path` names an MP3 file: it ends in `.mp3`.
pub open spec fn is_mp3(path: Seq<char>) -> bool {
    ends_with(path, ".mp3"@)
}

/// The MP3 files of `paths`, in their order.
pub open spec fn mp3_files(paths: Seq<Seq<char>>) -> Seq<Seq<char>>
    decreases paths.len(),
{
    if paths.len() == 0 {
        Seq::<Seq<char>>::empty()
    } else {
        let prev = mp3_files(paths.drop_last());
        if is_mp3(paths.last()) {
            prev.push(paths.last())
        } else {
            prev
        }
    }
}

/// The position of the first occurrence of `x` in `s` (`s.len()` where there
/// is none).
pub open spec fn first_position(s: Seq<Seq<char>>, x: Seq<char>) -> nat
    decreases s.len(),
{
    if s.len() == 0 {
        0
    } else if s[0] == x {
        0
    } else {
        1 + first_position(s.drop_first(), x)
    }
}

/// Entry `i` of `files` is kept for the parity `even`: the first occurrence
/// of its name stands at an even position exactly when `even` holds.
pub open spec fn parity_keeps(files: Seq<Seq<char>>, i: int, even: bool) -> bool {
    (first_position(files, files[i]) % 2 == 0) == even
}

/// The entries among the first `n` of `files` kept for the parity `even`.
pub open spec fn parity_prefix(files: Seq<Seq<char>>, even: bool, n: nat) -> Seq<Seq<char>>
    decreases n,
{
    if n == 0 {
        Seq::<Seq<char>>::empty()
    } else {
        let prev = parity_prefix(files, even, (n - 1) as nat);
        if parity_keeps(files, n - 1, even) {
            prev.push(files[n - 1])
        } else {
            prev
        }
    }
}

/// The entries of `files` kept for the parity `even`, in their order.
pub open spec fn parity_selection(files: Seq<Seq<char>>, even: bool) -> Seq<Seq<char>> {
    parity_prefix(files, even, files.len())
}

/// The background candidates for a directory listing `entries` at Unix time
/// `unix_time` (in seconds): the MP3 files, kept by the parity of the time.
/// A listing without MP3 files has none.
pub open spec fn background_candidates_spec(entries: Seq<Seq<char>>, unix_time: nat) -> Option<
    Seq<Seq<char>>,
> {
    let mp3s = mp3_files(entries);
    if mp3s.len() == 0 {
        None
    } else {
        Some(parity_selection(mp3s, unix_time % 2 == 0))
    }
}


/// The MP3 files of a listing are all of its entries that end in `.mp3`, in
/// their order: the listing filtered by the `.mp3` ending. Every such entry
/// is among them, and nothing else is.
pub proof fn lemma_mp3_files_are_filter(paths: Seq<Seq<char>>)
    ensures
        mp3_files(paths) == paths.filter(|p: Seq<char>| is_mp3(p)),
        forall|i: int| 0 <= i < paths.len() && is_mp3(paths[i]) ==> #[trigger] mp3_files(
            paths,
        ).contains(paths[i]),
        forall|i: int|
            0 <= i < mp3_files(paths).len() ==> is_mp3(#[trigger] mp3_files(paths)[i])
                && paths.contains(mp3_files(paths)[i]),
    decreases paths.len(),
{
    reveal(Seq::filter);
    let pred = |p: Seq<char>| is_mp3(p);
    if paths.len() > 0 {
        lemma_mp3_files_are_filter(paths.drop_last());
    }
    assert(mp3_files(paths) == paths.filter(pred));
    assert forall|i: int| 0 <= i < paths.len() && is_mp3(paths[i]) implies #[trigger] mp3_files(
        paths,
    ).contains(paths[i]) by {
        paths.lemma_filter_contains(pred, i);
    }
    assert forall|i: int|
        0 <= i < mp3_files(paths).len() implies is_mp3(#[trigger] mp3_files(paths)[i])
        && paths.contains(mp3_files(paths)[i]) by {
        paths.lemma_filter_pred(pred, i);
        assert(paths.filter(pred).contains(paths.filter(pred)[i]));
        paths.lemma_filter_contains_rev(pred, paths.filter(pred)[i]);
    }
}

/// The first occurrence of `x` is at `j` when `x` stands at `j` and nowhere
/// before.
pub proof fn lemma_first_position(s: Seq<Seq<char>>, x: Seq<char>, j: int)
    requires
        0 <= j < s.len(),
        s[j] == x,
        forall|k: int| 0 <= k < j ==> s[k] != x,
    ensures
        first_position(s, x) == j,
    decreases j,
{
    if j > 0 {
        assert(s[0] != x);
        lemma_first_position(s.drop_first(), x, j - 1);
    }
}

/// The position of the first occurrence of `files[i]` in `files`.
fn first_position_exec(files: &Vec<String>, i: usize) -> (r: usize)
    requires
        i < files.len(),
    ensures
        r == first_position(views(files@), files@[i as int]@),
        r <= i,
{
    let ghost fv = views(files@);
    let mut j: usize = 0;
    while j < i
        invariant
            j <= i < files.len(),
            fv == views(files@),
            forall|k: int| 0 <= k < j ==> fv[k] != fv[i as int],
        decreases i - j,
    {
        if same_text(files[j].as_str(), files[i].as_str()) {
            proof {
                lemma_first_position(fv, fv[i as int], j as int);
            }
            return j;
        }
        j = j + 1;
    }
    proof {
        lemma_first_position(fv, fv[i as int], i as int);
    }
    i
}

/// The MP3 files of `paths`, in their order.
pub fn mp3_paths(paths: &Vec<String>) -> (r: Vec<String>)
    ensures
        views(r@) == mp3_files(views(paths@)),
{
    let ghost pv = views(paths@);
    let mut r: Vec<String> = Vec::new();
    for i in 0..paths.len()
        invariant
            pv == views(paths@),
            views(r@) == mp3_files(pv.take(i as int)),
    {
        assert(pv.take(i + 1).drop_last() =~= pv.take(i as int));
        assert(pv.take(i + 1).last() == paths@[i as int]@);
        if ends_with_text(paths[i].as_str(), ".mp3") {
            let ghost before = r@;
            let p = paths[i].clone();
            r.push(p);
            assert(views(r@) =~= views(before).push(pv[i as int]));
        }
    }
    assert(pv.take(paths.len() as int) =~= pv);
    r
}

/// The entries of `files` kept for the parity `even`, in their order.
pub fn select_by_parity(files: &Vec<String>, even: bool) -> (r: Vec<String>)
    ensures
        views(r@) == parity_selection(views(files@), even),
{
    let ghost fv = views(files@);
    let mut r: Vec<String> = Vec::new();
    for i in 0..files.len()
        invariant
            fv == views(files@),
            views(r@) == parity_prefix(fv, even, i as nat),
    {
        let pos = first_position_exec(files, i);
        if (pos % 2 == 0) == even {
            let ghost before = r@;
            let f = files[i].clone();
            r.push(f);
            assert(views(r@) =~= views(before).push(fv[i as int]));
        }
    }
    r
}

/// The background candidates for the directory listing `entries` at Unix
/// time `unix_time`: the MP3 files whose first listing stands at an even
/// position when the time is even, at an odd one when it is odd. Fails
/// exactly when the listing holds no MP3 file.
pub fn background_candidates(entries: &Vec<String>, unix_time: u64) -> (r: Result<
    Vec<String>,
    BackgroundError,
>)
    ensures
        match r {
            Err(e) => e == BackgroundError::NoMp3Files && background_candidates_spec(
                views(entries@),
                unix_time as nat,
            ) is None,
            Ok(v) => background_candidates_spec(views(entries@), unix_time as nat) == Some(
                views(v@),
            ),
        },
{
    let mp3s = mp3_paths(entries);
    if mp3s.len() == 0 {
        return Err(BackgroundError::NoMp3Files);
    }
    let even = unix_time % 2 == 0;
    Ok(select_by_parity(&mp3s, even))
}

/// The two parities share the entries out: together they keep as many as
/// there are.
pub proof fn lemma_parities_share(files: Seq<Seq<char>>, n: nat)
    requires
        n <= files.len(),
    ensures
        parity_prefix(files, true, n).len() + parity_prefix(files, false, n).len() == n,
    decreases n,
{
    if n > 0 {
        lemma_parities_share(files, (n - 1) as nat);
    }
}

/// Where no name is listed twice, each parity keeps exactly the entries at
/// positions of that parity.
pub proof fn lemma_distinct_parity(files: Seq<Seq<char>>, i: int, even: bool)
    requires
        0 <= i < files.len(),
        forall|a: int, b: int| 0 <= a < b < files.len() ==> files[a] != files[b],
    ensures
        parity_keeps(files, i, even) <==> ((i % 2 == 0) == even),
{
    lemma_first_position(files, files[i], i);
}

/// What to do next while choosing background music.
#[derive(Debug)]
pub enum SelectionStep {
    /// Measure this file and add its length to the music chosen so far.
    Measure(String),
    /// The choice is complete.
    Finished,
}

/// The running choice of background music: candidates are taken in order
/// until the music chosen covers the main track or none is left.
pub struct BackgroundSelection {
    candidates: Vec<String>,
    next: usize,
    chosen: Vec<String>,
    finished: bool,
}

impl BackgroundSelection {
    /// The candidates, in order.
    pub closed spec fn candidates_view(&self) -> Seq<Seq<char>> {
        views(self.candidates@)
    }

    /// The files chosen so far, in order.
    pub closed spec fn chosen_view(&self) -> Seq<Seq<char>> {
        views(self.chosen@)
    }

    /// How many candidates have been taken.
    pub closed spec fn taken(&self) -> nat {
        self.next as nat
    }

    /// Whether the choice is complete.
    pub closed spec fn is_finished(&self) -> bool {
        self.finished
    }

    /// The files chosen are the candidates taken.
    pub closed spec fn wf(&self) -> bool {
        &&& self.next <= self.candidates.len()
        &&& views(self.chosen@) == views(self.candidates@).take(self.next as int)
    }

    /// A choice among `candidates` with nothing chosen yet.
    pub fn new(candidates: Vec<String>) -> (r: Self)
        ensures
            r.wf(),
            r.candidates_view() == views(candidates@),
            r.chosen_view() == Seq::<Seq<char>>::empty(),
            r.taken() == 0,
            !r.is_finished(),
    {
        let r = BackgroundSelection { candidates, next: 0, chosen: Vec::new(), finished: false };
        assert(views(r.chosen@) =~= views(r.candidates@).take(0));
        assert(views(r.chosen@) =~= Seq::<Seq<char>>::empty());
        r
    }

    /// The next step, given whether the music chosen so far already covers
    /// the main track: once it does, or once the candidates run out, the
    /// choice is complete; otherwise the next candidate is chosen and must be
    /// measured.
    pub fn step(&mut self, covered: bool) -> (r: SelectionStep)
        requires
            old(self).wf(),
        ensures
            final(self).wf(),
            final(self).candidates_view() == old(self).candidates_view(),
            (old(self).is_finished() || covered || old(self).taken() == old(
                self,
            ).candidates_view().len()) ==> {
                &&& r is Finished
                &&& final(self).is_finished()
                &&& final(self).taken() == old(self).taken()
                &&& final(self).chosen_view() == old(self).chosen_view()
            },
            !(old(self).is_finished() || covered || old(self).taken() == old(
                self,
            ).candidates_view().len()) ==> {
                &&& r matches SelectionStep::Measure(f) && f@ == old(self).candidates_view()[old(
                    self,
                ).taken() as int]
                &&& !final(self).is_finished()
                &&& final(self).taken() == old(self).taken() + 1
                &&& final(self).chosen_view() == old(self).chosen_view().push(
                    old(self).candidates_view()[old(self).taken() as int],
                )
            },
    {
        if self.finished || covered || self.next == self.candidates.len() {
            self.finished = true;
            return SelectionStep::Finished;
        }
        let f = self.candidates[self.next].clone();
        let g = self.candidates[self.next].clone();
        let ghost before = self.chosen@;
        let ghost cv = views(self.candidates@);
        self.chosen.push(g);
        assert(views(self.chosen@) =~= views(before).push(cv[self.next as int]));
        assert(cv.take(self.next + 1) =~= cv.take(self.next as int).push(cv[self.next as int]));
        self.next = self.next + 1;
        SelectionStep::Measure(f)
    }

    /// The files chosen so far, in order.
    pub fn chosen(&self) -> (r: &Vec<String>)
        ensures
            views(r@) == self.chosen_view(),
    {
        &self.chosen
    }

    /// The files chosen are always the first candidates, as many as were
    /// taken.
    pub proof fn lemma_chosen_prefix(&self)
        requires
            self.wf(),
        ensures
            self.taken() <= self.candidates_view().len(),
            self.chosen_view() == self.candidates_view().take(self.taken() as int),
    {
    }
}

} // verus!
