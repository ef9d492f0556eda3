use audiobook::metadata::{_shorten_name, join_names, square_crop, tag_args, tag_output_name, Metadata, MetaKey};

fn strs(v: &[&str]) -> Vec<String> {
    v.iter().map(|s| s.to_string()).collect()
}

#[test]
fn author_tags_are_stripped() {
    let meta = Metadata::from_fields(
        Some("<b>Twenty</b> Thousand".to_string()),
        None,
        None,
        Some("en".to_string()),
        &strs(&["<i>Jules Verne</i>"]),
    );
    let args = tag_args("in.m4a", Some(&meta));
    assert_eq!(
        args,
        strs(&[
            "-i", "in.m4a",
            "-metadata", "title=Twenty Thousand",
            "-metadata", "album=Twenty Thousand",
            "-metadata", "date=Date not found",
            "-metadata", "description=Description not found",
            "-metadata", "language=en",
            "-metadata", "author=Jules Verne",
            "-map", "0:a", "-c", "copy", "Twenty Thousand.m4b",
        ])
    );
}

#[test]
fn no_metadata_default_name() {
    assert_eq!(tag_output_name(None), "generated_book.m4b");
    let empty = Metadata::empty();
    assert_eq!(tag_output_name(Some(&empty)), "generated_book.m4b");
    assert_eq!(tag_args("x", None), strs(&["-i", "x", "-map", "0:a", "-c", "copy", "generated_book.m4b"]));
}

#[test]
fn unterminated_tag_stays() {
    let meta = Metadata { entries: vec![(MetaKey::Title, "a<b".to_string())] };
    assert_eq!(tag_output_name(Some(&meta)), "a<b.m4b");
}

#[test]
fn creators_joined() {
    assert_eq!(join_names(&strs(&["A", "B", "C"])), "A, B, C");
    assert_eq!(join_names(&Vec::new()), "");
}

#[test]
fn cover_crop_is_square_top_left() {
    let r = square_crop(1920, 1080);
    assert_eq!((r.x, r.y, r.side), (0, 0, 1080));
    let r = square_crop(600, 900);
    assert_eq!(r.side, 600);
}

#[test]
fn initials_of_words() {
    assert_eq!(_shorten_name("Jules Gabriel  Verne"), "JGV");
    assert_eq!(_shorten_name("  padded\tname "), "pn");
    assert_eq!(_shorten_name(""), "");
}
