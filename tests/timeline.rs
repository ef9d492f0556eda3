use audiobook::timeline::{chapter_marks, checked_total, create_chapter_file, render_marks};

fn names(v: &[&str]) -> Vec<String> {
    v.iter().map(|s| s.to_string()).collect()
}

#[test]
fn round_trip_two_chapters() {
    let marks = chapter_marks(&vec![1000, 2000], &names(&["Intro", "Chapter One"]));
    assert_eq!(marks.len(), 2);
    assert_eq!(marks[0].title, "Intro");
    assert_eq!((marks[0].start_ms, marks[0].end_ms), (0, 1000));
    assert_eq!(marks[1].title, "Chapter One");
    assert_eq!((marks[1].start_ms, marks[1].end_ms), (1000, 3000));
}

#[test]
fn marks_are_contiguous_on_values() {
    let d = vec![5, 0, 7, 11];
    let marks = chapter_marks(&d, &names(&["a", "b", "c", "d"]));
    assert_eq!(marks[0].start_ms, 0);
    for i in 0..marks.len() - 1 {
        assert_eq!(marks[i].end_ms, marks[i + 1].start_ms);
    }
    assert_eq!(marks[3].end_ms, 23);
}

#[test]
fn trailing_title_ends_at_grand_total() {
    let marks = chapter_marks(&vec![100, 200], &names(&["a", "b", "c"]));
    assert_eq!((marks[2].start_ms, marks[2].end_ms), (300, 300));
}

#[test]
fn no_titles_no_marks() {
    assert!(chapter_marks(&vec![1, 2], &Vec::new()).is_empty());
}

#[test]
fn marker_document_text() {
    let doc = create_chapter_file(&vec![1000, 2000], &names(&["Intro", "Chapter One"]));
    assert_eq!(
        doc,
        ";FFMETADATA1\n[CHAPTER]\nTIMEBASE=1/1000\nSTART=0\nEND=1000\ntitle=Intro\n\
         [CHAPTER]\nTIMEBASE=1/1000\nSTART=1000\nEND=3000\ntitle=Chapter One\n"
    );
    let empty = render_marks(&Vec::new());
    assert_eq!(empty, ";FFMETADATA1\n");
}

#[test]
fn total_overflow_is_detected() {
    assert_eq!(checked_total(&vec![1, 2, 3]), Some(6));
    assert_eq!(checked_total(&vec![u64::MAX, 1]), None);
    assert_eq!(checked_total(&Vec::new()), Some(0));
}
