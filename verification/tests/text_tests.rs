use mp3_to_video::text::{
    chars_of, contains_chars, decimal_text, ends_with_text, join_text, same_text, split_text,
    string_of, trim_end_chars, words_of,
};

fn strings(v: &[&str]) -> Vec<String> {
    v.iter().map(|s| s.to_string()).collect()
}

#[test]
fn split_keeps_empty_pieces() {
    assert_eq!(split_text("a,,b,", ','), strings(&["a", "", "b", ""]));
    assert_eq!(split_text("", ','), strings(&[""]));
    assert_eq!(split_text("one", ','), strings(&["one"]));
}

#[test]
fn join_then_split_round_trip() {
    for s in ["", ",", "a,b", "blur,,fade", "x"] {
        let parts = split_text(s, ',');
        assert_eq!(join_text(&parts, ","), s);
    }
}

#[test]
fn join_uses_separator_between_pieces() {
    assert_eq!(join_text(&strings(&["a", "b", "c"]), ", "), "a, b, c");
    assert_eq!(join_text(&strings(&[]), ","), "");
}

#[test]
fn words_split_on_unicode_white_space() {
    let ws = words_of(&chars_of("  Duration:\t00:01:02.50,\u{3000}start "));
    let ws: Vec<String> = ws.iter().map(string_of).collect();
    assert_eq!(ws, strings(&["Duration:", "00:01:02.50,", "start"]));
    assert!(words_of(&chars_of(" \n ")).is_empty());
}

#[test]
fn contains_and_ends_with() {
    assert!(contains_chars(&chars_of("  Duration: x"), &chars_of("Duration")));
    assert!(!contains_chars(&chars_of("Durat"), &chars_of("Duration")));
    assert!(contains_chars(&chars_of(""), &chars_of("")));
    assert!(ends_with_text("song.mp3", ".mp3"));
    assert!(!ends_with_text("song.mp3.txt", ".mp3"));
    assert!(!ends_with_text("mp3", ".mp3"));
}

#[test]
fn trim_removes_all_trailing_commas() {
    assert_eq!(string_of(&trim_end_chars(&chars_of("1:2:3,,"), ',')), "1:2:3");
    assert_eq!(string_of(&trim_end_chars(&chars_of(",,"), ',')), "");
}

#[test]
fn decimal_notation() {
    assert_eq!(decimal_text(0), "0");
    assert_eq!(decimal_text(7), "7");
    assert_eq!(decimal_text(1234), "1234");
    assert_eq!(decimal_text(u64::MAX), u64::MAX.to_string());
}

#[test]
fn text_equality() {
    assert!(same_text("abc", "abc"));
    assert!(!same_text("abc", "abd"));
    assert!(!same_text("ab", "abc"));
}

#[test]
fn words_agree_with_split_whitespace() {
    for s in ["", "a", " a  b ", "\u{85}x\u{a0}y\u{2009}z", "tab\tand\nnewline\r\n", "\u{200b}q"] {
        let ws: Vec<String> = words_of(&chars_of(s)).iter().map(string_of).collect();
        let expected: Vec<String> = s.split_whitespace().map(|w| w.to_string()).collect();
        assert_eq!(ws, expected, "input {:?}", s);
    }
}

#[test]
fn split_agrees_with_str_split() {
    for s in ["", ",", "a,b,,c", ",x,", "no separators"] {
        let expected: Vec<String> = s.split(',').map(|w| w.to_string()).collect();
        assert_eq!(split_text(s, ','), expected);
    }
}
