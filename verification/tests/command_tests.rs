use mp3_to_video::commands::{
    concat_line, concat_overwrite_args, decode_args, merge_args, probe_duration_args, segment_args,
    video_args, volume_args,
};

fn strings(v: &[&str]) -> Vec<String> {
    v.iter().map(|s| s.to_string()).collect()
}

#[test]
fn concat_list_line() {
    assert_eq!(concat_line("a b.mp3"), "file 'a b.mp3'");
}

#[test]
fn merge_arguments() {
    assert_eq!(
        merge_args("input_files.txt", "out.mp3"),
        strings(&["-f", "concat", "-safe", "0", "-i", "input_files.txt", "-c", "copy", "out.mp3"])
    );
}

#[test]
fn concat_overwrite_arguments() {
    assert_eq!(
        concat_overwrite_args("list.txt", "bg.mp3"),
        strings(&["-f", "concat", "-safe", "0", "-i", "list.txt", "-c", "copy", "-y", "bg.mp3"])
    );
}

#[test]
fn decode_arguments() {
    assert_eq!(
        decode_args("x.mp3"),
        strings(&["-i", "x.mp3", "-hide_banner", "-f", "null", "-"])
    );
}

#[test]
fn probe_arguments() {
    assert_eq!(
        probe_duration_args("v.mp4"),
        strings(&[
            "-v",
            "error",
            "-show_entries",
            "format=duration",
            "-of",
            "default=noprint_wrappers=1:nokey=1",
            "v.mp4"
        ])
    );
}

#[test]
fn volume_arguments() {
    assert_eq!(
        volume_args("in.mp3", "out.mp3", &format!("{}", 0.3f32)),
        strings(&["-i", "in.mp3", "-filter:a", "volume=0.3", "-c:a", "mp3", "-y", "out.mp3"])
    );
}

#[test]
fn video_arguments() {
    assert_eq!(
        video_args(125, "img.png", "a.mp3", "fade", "out.mp4"),
        strings(&[
            "-loop", "1", "-framerate", "1", "-t", "125", "-i", "img.png", "-i", "a.mp3", "-c:v",
            "libx264", "-pix_fmt", "yuv420p", "-vf", "fade", "-shortest", "out.mp4"
        ])
    );
}

#[test]
fn segment_arguments() {
    assert_eq!(
        segment_args("v.mp4", 60, 30, "out/segment_3.mp4"),
        strings(&[
            "-i", "v.mp4", "-ss", "60", "-t", "30", "-c:v", "libx264", "-pix_fmt", "yuv420p",
            "-c:a", "aac", "-strict", "-2", "out/segment_3.mp4"
        ])
    );
}
