use audiobook::text::{decimal_string, is_whitespace};
use audiobook::ffmpeg::{
    concat_copy_args, concat_list, encode_args, mux_args, order_chapter_files, probe_args,
    silence_args, with_silence,
};
use audiobook::parse::{get_chapter_number, parse_duration_ms};
use audiobook::pipeline::{classify_input, InputKind};
use audiobook::PipelineError;

fn strs(v: &[&str]) -> Vec<String> {
    v.iter().map(|s| s.to_string()).collect()
}

#[test]
fn numeric_chapter_order() {
    let files = strs(&["t/chapter_10.m4a", "t/chapter_2.m4a", "t/other.m4a", "t/chapter_1.m4a"]);
    let sorted = order_chapter_files(&files);
    assert_eq!(sorted, strs(&["t/chapter_1.m4a", "t/chapter_2.m4a", "t/chapter_10.m4a", "t/other.m4a"]));
}

#[test]
fn chapter_numbers() {
    assert_eq!(get_chapter_number("./tmp/chapter_12.m4a"), Some(12));
    assert_eq!(get_chapter_number("chapter_+7.m4a"), Some(7));
    assert_eq!(get_chapter_number("chapter_.m4a"), None);
    assert_eq!(get_chapter_number("chapter_x.m4a"), None);
    assert_eq!(get_chapter_number("chapter_4294967296.m4a"), None);
    assert_eq!(get_chapter_number("chapter_4294967295.m4a"), Some(4294967295));
    assert_eq!(get_chapter_number("book.m4a"), None);
    assert_eq!(get_chapter_number("chapter_3.mp3"), None);
}

#[test]
fn durations_in_milliseconds() {
    assert_eq!(parse_duration_ms("12.345678\n"), Ok(12345));
    assert_eq!(parse_duration_ms("3"), Ok(3000));
    assert_eq!(parse_duration_ms("1.5"), Ok(1500));
    assert_eq!(parse_duration_ms("0.07"), Ok(70));
    assert_eq!(parse_duration_ms("2."), Ok(2000));
    assert_eq!(parse_duration_ms("abc"), Err(PipelineError::AssemblyError));
    assert_eq!(parse_duration_ms(""), Err(PipelineError::AssemblyError));
    assert_eq!(parse_duration_ms(".5"), Err(PipelineError::AssemblyError));
    assert_eq!(parse_duration_ms("1.2x"), Err(PipelineError::AssemblyError));
    assert_eq!(parse_duration_ms("18446744073709551.615"), Ok(u64::MAX));
    assert_eq!(parse_duration_ms("18446744073709551.616"), Err(PipelineError::AssemblyError));
    assert_eq!(parse_duration_ms("99999999999999999999"), Err(PipelineError::AssemblyError));
}

#[test]
fn silence_between_fragments() {
    let files = strs(&["a.mp3", "b.mp3", "c.mp3"]);
    let entries = with_silence(&files, "silence.wav");
    assert_eq!(entries, strs(&["a.mp3", "silence.wav", "b.mp3", "silence.wav", "c.mp3"]));
    assert_eq!(with_silence(&strs(&["a.mp3"]), "s"), strs(&["a.mp3"]));
    assert!(with_silence(&Vec::new(), "s").is_empty());
}

#[test]
fn concat_list_lines() {
    assert_eq!(concat_list(&strs(&["a.mp3", "b.mp3"])), "file 'a.mp3'\nfile 'b.mp3'\n");
    assert_eq!(concat_list(&Vec::new()), "");
}

#[test]
fn tool_arguments() {
    assert_eq!(
        silence_args(1, "silence.wav"),
        strs(&["-f", "lavfi", "-i", "anullsrc=r=44100:cl=mono", "-t", "1", "silence.wav"])
    );
    assert_eq!(
        encode_args("inputs.txt", "out.m4a"),
        strs(&["-f", "concat", "-safe", "0", "-i", "inputs.txt", "-c", "aac", "-b:a", "69k", "out.m4a"])
    );
    assert_eq!(
        concat_copy_args("list.txt", "tmp.m4a"),
        strs(&["-f", "concat", "-safe", "0", "-i", "list.txt", "-c", "copy", "tmp.m4a"])
    );
    assert_eq!(
        mux_args("tmp.m4a", "chapter.txt", "book.m4a"),
        strs(&["-i", "tmp.m4a", "-i", "chapter.txt", "-map_metadata", "1", "-c", "copy", "book.m4a"])
    );
    assert_eq!(
        probe_args("x.m4a"),
        strs(&["-v", "error", "-show_entries", "format=duration", "-of", "default=noprint_wrappers=1:nokey=1", "x.m4a"])
    );
}

#[test]
fn input_kinds() {
    assert_eq!(classify_input("book.txt", true), InputKind::Text);
    assert_eq!(classify_input("book.txt", false), InputKind::Invalid);
    assert_eq!(classify_input("book.epub", false), InputKind::Epub);
    assert_eq!(classify_input("book.pdf", true), InputKind::Invalid);
}

#[test]
fn decimal_rendering() {
    assert_eq!(decimal_string(0), "0");
    assert_eq!(decimal_string(1090), "1090");
    assert_eq!(decimal_string(u64::MAX), "18446744073709551615");
}

#[test]
fn white_space_property() {
    for c in [' ', '\t', '\n', '\u{0B}', '\u{0C}', '\r', '\u{85}', '\u{A0}', '\u{1680}', '\u{2000}', '\u{200A}', '\u{2028}', '\u{2029}', '\u{202F}', '\u{205F}', '\u{3000}'] {
        assert!(is_whitespace(c));
        assert_eq!(is_whitespace(c), c.is_whitespace());
    }
    for c in ['a', '\u{200B}', '\u{180E}', '0', '\u{FEFF}'] {
        assert!(!is_whitespace(c));
        assert_eq!(is_whitespace(c), c.is_whitespace());
    }
}
