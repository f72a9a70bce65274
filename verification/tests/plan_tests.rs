use mp3_to_video::background::{
    background_candidates, mp3_paths, select_by_parity, BackgroundError, BackgroundSelection,
    SelectionStep,
};
use mp3_to_video::cli::{parse_bool, parse_cli, parse_u64, CliCommand, CliError};
use mp3_to_video::duration::duration_fields;
use mp3_to_video::segments::{segment_count, segment_path, segment_start};
use mp3_to_video::video::{
    audio_source, effect_list, video_filter, AudioSource, Randomness, OPACITY_OVERLAY_FILTER,
};

fn strings(v: &[&str]) -> Vec<String> {
    v.iter().map(|s| s.to_string()).collect()
}

#[test]
fn duration_from_ffmpeg_report() {
    let report = "Input #0, mp3, from 'a.mp3':\n  Duration: 00:03:25.47, start: 0.025057, bitrate: 128 kb/s\n  Stream #0:0: Audio: mp3\n";
    let f = duration_fields(report).unwrap();
    assert_eq!((f.hours.as_str(), f.minutes.as_str(), f.seconds.as_str()), ("00", "03", "25.47"));
}

#[test]
fn duration_only_from_first_line_with_tag() {
    assert!(duration_fields("Duration: N/A\n  Duration: 00:00:01.00,\n").is_none());
    assert!(duration_fields("no such line").is_none());
    assert!(duration_fields("Duration:").is_none());
    assert!(duration_fields("  Duration: 1:2, x").is_none());
    let f = duration_fields("\r\nDuration: 1:2:3,,\r\n").unwrap();
    assert_eq!((f.hours.as_str(), f.minutes.as_str(), f.seconds.as_str()), ("1", "2", "3"));
}

#[test]
fn segment_plan() {
    assert_eq!(segment_count(95, 30), 4);
    assert_eq!(segment_count(90, 30), 4);
    assert_eq!(segment_count(0, 30), 1);
    assert_eq!(segment_start(95, 30, 3), 90);
    assert_eq!(segment_path("out", 0), "out/segment_1.mp4");
    assert_eq!(segment_path("out", 11), "out/segment_12.mp4");
}

#[test]
fn segments_cover_video() {
    let (d, l) = (100u64, 30u64);
    let n = segment_count(d, l);
    for t in 0..=d {
        let i = t / l;
        assert!(i < n);
        assert!(segment_start(d, l, i) <= t && t < segment_start(d, l, i) + l);
    }
}

#[test]
fn mp3_listing_filter() {
    let entries = strings(&["bg/a.mp3", "bg/notes.txt", "bg/b.MP3", "bg/c.mp3"]);
    assert_eq!(mp3_paths(&entries), strings(&["bg/a.mp3", "bg/c.mp3"]));
}

#[test]
fn parity_selection_by_time() {
    let entries = strings(&["a.mp3", "b.mp3", "c.mp3", "x.txt", "d.mp3"]);
    assert_eq!(background_candidates(&entries, 10).unwrap(), strings(&["a.mp3", "c.mp3"]));
    assert_eq!(background_candidates(&entries, 11).unwrap(), strings(&["b.mp3", "d.mp3"]));
}

#[test]
fn parity_uses_first_occurrence() {
    let files = strings(&["a", "b", "a", "c"]);
    assert_eq!(select_by_parity(&files, true), strings(&["a", "a"]));
    assert_eq!(select_by_parity(&files, false), strings(&["b", "c"]));
}

#[test]
fn parities_share_entries() {
    let files = strings(&["a", "b", "c", "d", "e"]);
    let even = select_by_parity(&files, true);
    let odd = select_by_parity(&files, false);
    assert_eq!(even.len() + odd.len(), files.len());
}

#[test]
fn no_mp3_files_error() {
    let entries = strings(&["a.wav", "b.txt"]);
    let e = background_candidates(&entries, 4).unwrap_err();
    assert_eq!(e, BackgroundError::NoMp3Files);
    assert_eq!(e.message(), "No background MP3 files found.");
}

#[test]
fn selection_stops_when_covered() {
    let mut sel = BackgroundSelection::new(strings(&["a", "b", "c"]));
    assert!(matches!(sel.step(false), SelectionStep::Measure(ref f) if f == "a"));
    assert!(matches!(sel.step(false), SelectionStep::Measure(ref f) if f == "b"));
    assert!(matches!(sel.step(true), SelectionStep::Finished));
    assert!(matches!(sel.step(false), SelectionStep::Finished));
    assert_eq!(sel.chosen(), &strings(&["a", "b"]));
}

#[test]
fn selection_stops_when_exhausted() {
    let mut sel = BackgroundSelection::new(strings(&["a"]));
    assert!(matches!(sel.step(false), SelectionStep::Measure(ref f) if f == "a"));
    assert!(matches!(sel.step(false), SelectionStep::Finished));
    assert_eq!(sel.chosen(), &strings(&["a"]));
    let mut none = BackgroundSelection::new(vec![]);
    assert!(matches!(none.step(false), SelectionStep::Finished));
    assert!(none.chosen().is_empty());
}

#[test]
fn audio_source_single_or_merge() {
    assert!(matches!(audio_source("a.mp3"), AudioSource::Single(ref p) if p == "a.mp3"));
    match audio_source("a.mp3,b.mp3") {
        AudioSource::Merge(v) => assert_eq!(v, strings(&["a.mp3", "b.mp3"])),
        AudioSource::Single(_) => panic!("expected a merge"),
    }
}

#[test]
fn effects_all_or_one() {
    let effects = effect_list("fade=t=in,hflip,opacity_overlay");
    assert_eq!(effects, strings(&["fade=t=in", "hflip", "opacity_overlay"]));
    let mut rnd = Randomness::new();
    assert_eq!(rnd.select_effects(&effects, true), "fade=t=in,hflip,opacity_overlay");
    for _ in 0..20 {
        let one = rnd.select_effects(&effects, false);
        assert!(effects.contains(&one));
    }
    assert_eq!(rnd.select_effects(&vec![], false), "");
}

#[test]
fn random_image_is_one_of_them() {
    let mut rnd = Randomness::new();
    let images = vec![1, 2, 3];
    for _ in 0..20 {
        assert!(images.contains(rnd.choose_image(&images).unwrap()));
    }
    let none: Vec<u8> = vec![];
    assert!(rnd.choose_image(&none).is_none());
}

#[test]
fn opacity_overlay_filter() {
    assert_eq!(video_filter("opacity_overlay"), OPACITY_OVERLAY_FILTER);
    assert_eq!(video_filter("hflip"), "hflip");
}

#[test]
fn parse_numbers_and_flags() {
    assert_eq!(parse_u64("45"), Some(45));
    assert_eq!(parse_u64("+7"), Some(7));
    assert_eq!(parse_u64("18446744073709551615"), Some(u64::MAX));
    assert_eq!(parse_u64("18446744073709551616"), None);
    assert_eq!(parse_u64(""), None);
    assert_eq!(parse_u64("+"), None);
    assert_eq!(parse_u64("-1"), None);
    assert_eq!(parse_u64("1x"), None);
    for s in ["0", "+0", "007", "12a", "-0", " 1", "99999999999999999999"] {
        assert_eq!(parse_u64(s), s.parse::<u64>().ok());
    }
    assert_eq!(parse_bool("true"), Some(true));
    assert_eq!(parse_bool("false"), Some(false));
    assert_eq!(parse_bool("False"), None);
}

#[test]
fn command_line() {
    let a = strings(&["prog", "break_video", "v.mp4", "abc", "out"]);
    match parse_cli(&a).unwrap() {
        CliCommand::BreakVideo { mp4_path, segment_duration, output_folder } => {
            assert_eq!((mp4_path.as_str(), segment_duration, output_folder.as_str()), ("v.mp4", 30, "out"));
        }
        _ => panic!("expected break_video"),
    }
    let a = strings(&["prog", "break_video", "v.mp4", "45", "out"]);
    assert!(matches!(parse_cli(&a).unwrap(), CliCommand::BreakVideo { segment_duration: 45, .. }));
    let a = strings(&["prog", "mp3_to_video", "a.mp3", "imgs", "o.mp4", "hflip", "no"]);
    assert!(matches!(parse_cli(&a).unwrap(), CliCommand::Mp3ToVideo { apply_all: true, .. }));
    let a = strings(&["prog", "mp3_to_video", "a.mp3", "imgs", "o.mp4", "hflip", "false"]);
    assert!(matches!(parse_cli(&a).unwrap(), CliCommand::Mp3ToVideo { apply_all: false, .. }));
}

#[test]
fn command_line_errors() {
    assert_eq!(parse_cli(&strings(&["prog", "x"])).unwrap_err(), CliError::MissingArguments);
    assert_eq!(parse_cli(&strings(&["prog", "mp3_to_video", "a"])).unwrap_err(), CliError::Mp3ToVideoUsage);
    assert_eq!(parse_cli(&strings(&["prog", "break_video", "a", "b"])).unwrap_err(), CliError::BreakVideoUsage);
    assert_eq!(parse_cli(&strings(&["prog", "other", "a"])).unwrap_err(), CliError::InvalidChoice);
    assert_eq!(
        CliError::InvalidChoice.message(),
        "Invalid choice. Use 'mp3_to_video' or 'break_video'."
    );
}

fn reference_fields(stderr: &str) -> Option<(String, String, String)> {
    let line = stderr.lines().find(|line| line.contains("Duration"))?;
    let parts: Vec<&str> = line.split_whitespace().collect();
    let stamp = parts.get(1)?;
    let hms: Vec<&str> = stamp.trim_end_matches(',').split(':').collect();
    if hms.len() == 3 {
        Some((hms[0].to_string(), hms[1].to_string(), hms[2].to_string()))
    } else {
        None
    }
}

#[test]
fn duration_fields_agree_with_line_reading() {
    for report in [
        "",
        "Duration\r\n",
        "x\r\n  Duration: 01:02:03.04, start\r\n",
        "a\nb Duration: 1:2:3\n",
        "Duration: 1:2:3:4,\n",
        "\n\nDuration  : 5:6:7",
        "Duration:\t9:8:7,,,\r",
    ] {
        let got = duration_fields(report).map(|f| (f.hours, f.minutes, f.seconds));
        assert_eq!(got, reference_fields(report), "report {:?}", report);
    }
}
