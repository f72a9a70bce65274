//! Deciding how a video is made from MP3 files, a folder of images and a list
//! of effects.
use vstd::prelude::*;
use vstd::string::*;
use rand::rngs::ThreadRng;
use rand::seq::SliceRandom;
use crate::text::{views, split_on, join_with, split_text, join_text, same_text, owned};

verus! {

/// The random number generator of the current thread.
#[verifier::external_type_specification]
#[verifier::external_body]
pub struct ExThreadRng(rand::rngs::ThreadRng);

/// `rand::thread_rng`: a handle on the lazily seeded generator of the
/// current thread. Nothing is stated of it.
#[verifier::external_body]
fn thread_rng_handle() -> ThreadRng {
    rand::thread_rng()
}

/// `SliceRandom::choose` on a slice: `None` for an empty slice, otherwise
/// one of its elements, picked at random (rand 0.8 indexes the slice at a
/// position drawn below its length). Which element comes back is not stated.
#[verifier::external_body]
fn choose_element<'a, T>(items: &'a [T], rng: &mut ThreadRng) -> (r: Option<&'a T>)
    ensures
        r is None <==> items@.len() == 0,
        r matches Some(x) ==> items@.contains(*x),
{
    items.choose(rng)
}

/// The video filter that fades the overlay out, used for the effect named
/// `opacity_overlay`.
pub const OPACITY_OVERLAY_FILTER: &'static str = "format=yuva420p,alphaextract,fade=t=out:st=0:d=3,overlay=shortest=1:x=0:y=0:format=yuv420p";

/// The name of the effect that stands for the opacity overlay filter.
pub const OPACITY_OVERLAY_NAME: &'static str = "opacity_overlay";

/// The file into which several MP3 files are merged before a video is made.
pub const MERGED_AUDIO_FILE: &'static str = "merged_audio.mp3";

/// The concat list written while MP3 files are merged.
pub const MERGE_LIST_FILE: &'static str = "input_files.txt";

/// The random choices made while a video is planned.
pub struct Randomness {
    rng: ThreadRng,
}

impl Randomness {
    /// Random choices drawn from the generator of the current thread.
    pub fn new() -> Self {
        Randomness { rng: thread_rng_handle() }
    }

    /// One of `images`, picked at random; `None` when there is none.
    pub fn choose_image<'a, T>(&mut self, images: &'a [T]) -> (r: Option<&'a T>)
        ensures
            r is None <==> images@.len() == 0,
            r matches Some(x) ==> images@.contains(*x),
    {
        choose_element(images, &mut self.rng)
    }

    /// The video filter text for `effects`: all of them joined with commas
    /// when `apply_all` holds; otherwise one of them picked at random, or
    /// nothing when there is none.
    pub fn select_effects(&mut self, effects: &Vec<String>, apply_all: bool) -> (r: String)
        ensures
            apply_all ==> r@ == join_with(views(effects@), ","@),
            !apply_all && effects@.len() == 0 ==> r@ == Seq::<char>::empty(),
            !apply_all && effects@.len() > 0 ==> views(effects@).contains(r@),
    {
        if apply_all {
            join_text(effects, ",")
        } else {
            match choose_element(effects.as_slice(), &mut self.rng) {
                Some(e) => {
                    let ghost i = choose|i: int| 0 <= i < effects@.len() && effects@[i] == *e;
                    assert(views(effects@)[i] == e@);
                    e.clone()
                },
                None => String::new(),
            }
        }
    }
}

/// The filter that `effects` stands for: the opacity overlay filter for the
/// name `opacity_overlay`, the text itself otherwise.
pub open spec fn video_filter_spec(effects: Seq<char>) -> Seq<char> {
    if effects == OPACITY_OVERLAY_NAME@ {
        OPACITY_OVERLAY_FILTER@
    } else {
        effects
    }
}

/// The filter that `effects` stands for.
pub fn video_filter(effects: &str) -> (r: String)
    ensures
        r@ == video_filter_spec(effects@),
{
    if same_text(effects, OPACITY_OVERLAY_NAME) {
        owned(OPACITY_OVERLAY_FILTER)
    } else {
        owned(effects)
    }
}

/// Where the sound of a video comes from.
#[derive(Debug)]
pub enum AudioSource {
    /// One MP3 file, used as it is.
    Single(String),
    /// Several MP3 files, merged first.
    Merge(Vec<String>),
}

/// The sound of a video given as comma-separated MP3 paths: one path is used
/// as it is, several are merged.
pub fn audio_source(mp3_paths: &str) -> (r: AudioSource)
    ensures
        !mp3_paths@.contains(',') ==> (r matches AudioSource::Single(p) && p@ == mp3_paths@),
        mp3_paths@.contains(',') ==> (r matches AudioSource::Merge(v) && views(v@) == split_on(
            mp3_paths@,
            ',',
        ) && v@.len() >= 2),
{
    let parts = split_text(mp3_paths, ',');
    proof {
        lemma_split_single(mp3_paths@, ',');
        crate::text::lemma_split_nonempty(mp3_paths@, ',');
        assert(views(parts@).len() == parts@.len());
    }
    if parts.len() == 1 {
        let p = parts[0].clone();
        assert(views(parts@)[0] == parts@[0]@);
        AudioSource::Single(p)
    } else {
        AudioSource::Merge(parts)
    }
}

/// The effects named in a comma-separated list.
pub fn effect_list(effects: &str) -> (r: Vec<String>)
    ensures
        views(r@) == split_on(effects@, ','),
{
    split_text(effects, ',')
}

/// A text splits into one piece exactly when the separator does not occur in
/// it, and that piece is the text itself.
pub proof fn lemma_split_single(s: Seq<char>, sep: char)
    ensures
        (split_on(s, sep).len() == 1) == !s.contains(sep),
        !s.contains(sep) ==> split_on(s, sep)[0] == s,
    decreases s.len(),
{
    if s.len() > 0 {
        let p = s.drop_last();
        lemma_split_single(p, sep);
        crate::text::lemma_split_nonempty(p, sep);
        if s.last() == sep {
            assert(s.contains(sep)) by {
                assert(s[s.len() - 1] == sep);
            }
        } else {
            if p.contains(sep) {
                let k = choose|k: int| 0 <= k < p.len() && p[k] == sep;
                assert(s[k] == sep);
            }
            if s.contains(sep) {
                let k = choose|k: int| 0 <= k < s.len() && s[k] == sep;
                assert(p[k] == sep);
            }
            if !s.contains(sep) {
                assert(s =~= p.push(s.last()));
            }
        }
    } else {
        assert(s =~= Seq::<char>::empty());
    }
}

/// Applying every effect of a comma-separated list gives back the list's own
/// text as the filter.
pub proof fn lemma_all_effects_restore_list(effects: Seq<char>)
    ensures
        join_with(split_on(effects, ','), ","@) == effects,
{
    reveal_strlit(",");
    assert(","@ =~= seq![',']);
    crate::text::lemma_join_split(effects, ',');
}

} // verus!
