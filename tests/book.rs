use audiobook::book::{build_book, get_titles, read_sections, strip_markers, Book};

fn lines(v: &[&str]) -> Vec<String> {
    v.iter().map(|s| s.to_string()).collect()
}

#[test]
fn sections_split_at_top_level_headings() {
    let text = lines(&["# One", "first", "", "  second  ", "## Sub", "# Two", "third"]);
    let s = read_sections(&text);
    assert_eq!(s, vec![lines(&["One", "first", "second", "## Sub"]), lines(&["Two", "third"])]);
}

#[test]
fn consecutive_headings_start_new_chapters() {
    let s = read_sections(&lines(&["# A", "# B", "x"]));
    assert_eq!(s, vec![lines(&["A"]), lines(&["B", "x"])]);
}

#[test]
fn empty_text_has_no_sections() {
    assert!(read_sections(&Vec::new()).is_empty());
    assert!(read_sections(&lines(&["", "   "])).is_empty());
}

#[test]
fn titles_are_heading_lines() {
    let t = get_titles(&lines(&["# One ", "body", "## Sub", "# Two"]));
    assert_eq!(t, lines(&["One", "Two"]));
}

#[test]
fn markers_removed_everywhere() {
    assert_eq!(strip_markers("# Part # 1"), "Part 1");
    assert_eq!(strip_markers("## x"), "#x");
    assert_eq!(strip_markers("plain"), "plain");
}

#[test]
fn book_pairs_titles_and_sections() {
    let sections = vec![lines(&["Intro", "Hello."]), lines(&["Chapter One", "A.", "B."])];
    let titles = lines(&["Intro", "Chapter One", "Extra"]);
    let book = build_book(&sections, &titles);
    let all = book.get_all_chapters();
    assert_eq!(all.len(), 2);
    assert_eq!(all[0].0, "Intro");
    assert_eq!(all[1].1, &sections[1]);
}

#[test]
fn foreign_preamble_is_skipped() {
    let sections = vec![lines(&["Title: Book"]), lines(&["One", "a"])];
    let titles = lines(&["Book", "One"]);
    let book = build_book(&sections, &titles);
    let all = book.get_all_chapters();
    assert_eq!(all.len(), 1);
    assert_eq!(all[0].0, "One");
}

#[test]
fn no_sections_gives_empty_book() {
    let book = build_book(&Vec::new(), &lines(&["a"]));
    assert_eq!(book.len(), 0);
}

#[test]
fn book_add_chapter_keeps_order() {
    let mut book = Book::new();
    book.add_chapter("a", lines(&["1"]));
    book.add_chapter("b", lines(&["2", "3"]));
    let all = book.get_all_chapters();
    assert_eq!(all[0].0, "a");
    assert_eq!(all[1].0, "b");
    assert_eq!(all[1].1.len(), 2);
}
