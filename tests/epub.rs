use audiobook::epub::{contains_chars, drop_first_line, matches_filter, should_filter, EpubText};

#[test]
fn front_matter_titles_are_filtered() {
    assert!(should_filter("Table of Contents"));
    assert!(should_filter("COPYRIGHT Page"));
    assert!(!should_filter("Chapter One"));
    assert!(matches_filter("navigation"));
    assert!(!matches_filter("Contents"));
}

#[test]
fn first_line_is_dropped() {
    let t: Vec<char> = "Chapter One\r\nfirst\r\nsecond".chars().collect();
    let r: String = drop_first_line(&t).into_iter().collect();
    assert_eq!(r, "first\nsecond");
    let single: Vec<char> = "only".chars().collect();
    assert!(drop_first_line(&single).is_empty());
}

#[test]
fn substring_search() {
    let h: Vec<char> = "hello world".chars().collect();
    let n: Vec<char> = "o w".chars().collect();
    let m: Vec<char> = "ow".chars().collect();
    assert!(contains_chars(&h, &n));
    assert!(!contains_chars(&h, &m));
    assert!(contains_chars(&h, &Vec::new()));
}

#[test]
fn documents_become_segmented_text() {
    let mut text = EpubText::new();
    text.add_document("<html><body><h1>Contents</h1>\nskip me</body></html>");
    text.add_document("<html><body><h1>Chapter One</h1>\nIt began.\nIt ended.</body></html>");
    text.add_document("<html><body><h2 class='chapter'>Chapter Two</h2>\nAgain.</body></html>");
    assert_eq!(
        text.finish(),
        "# Chapter One\nIt began.\nIt ended.\n\n\n# Chapter Two\nAgain.\n\n\n"
    );
}

#[test]
fn no_headings_no_text() {
    let mut text = EpubText::new();
    text.add_document("<html><body><p>loose</p></body></html>");
    assert_eq!(text.finish(), "");
}
