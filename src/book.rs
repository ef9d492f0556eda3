//! The segmenter: heading-delimited text into chapters of paragraphs.
use vstd::prelude::*;
use crate::text::{has_prefix, is_white, push_char, starts_with, trim, trim_seq};

verus! {

/// Whether a chapter-marker token `# ` stands at position `i` of `s`.
pub open spec fn marker_at(s: Seq<char>, i: int) -> bool {
    0 <= i && i + 1 < s.len() && s[i] == '#' && s[i + 1] == ' '
}

/// A top-level heading: `# ` not followed by a third `#`.
pub open spec fn is_top_heading(t: Seq<char>) -> bool {
    marker_at(t, 0) && (t.len() == 2 || t[2] != '#')
}

/// `s` with every `# ` token removed, scanning left to right.
pub open spec fn strip_marker(s: Seq<char>) -> Seq<char>
    decreases s.len(),
{
    if s.len() == 0 {
        s
    } else if marker_at(s, 0) {
        strip_marker(s.subrange(2, s.len() as int))
    } else {
        seq![s[0]] + strip_marker(s.drop_first())
    }
}

/// How a kept (trimmed, non-empty) line enters its chapter.
pub open spec fn section_line(t: Seq<char>) -> Seq<char> {
    if is_top_heading(t) {
        strip_marker(t)
    } else {
        t
    }
}

/// The chapters closed so far and the chapter being filled, after `lines`.
pub open spec fn scan(lines: Seq<Seq<char>>) -> (Seq<Seq<Seq<char>>>, Seq<Seq<char>>)
    decreases lines.len(),
{
    if lines.len() == 0 {
        (seq![], seq![])
    } else {
        let prev = scan(lines.drop_last());
        let t = trim_seq(lines.last());
        let mid = if is_top_heading(t) && prev.1.len() > 0 {
            (prev.0.push(prev.1), Seq::<Seq<char>>::empty())
        } else {
            prev
        };
        if t.len() > 0 {
            (mid.0, mid.1.push(section_line(t)))
        } else {
            mid
        }
    }
}

/// The chapters of a text given as its lines.
pub open spec fn sections_of(lines: Seq<Seq<char>>) -> Seq<Seq<Seq<char>>> {
    let s = scan(lines);
    if s.1.len() > 0 {
        s.0.push(s.1)
    } else {
        s.0
    }
}

/// The chapter titles of a text given as its lines: every line that begins
/// with `# `, markers removed, trimmed.
pub open spec fn titles_of(lines: Seq<Seq<char>>) -> Seq<Seq<char>>
    decreases lines.len(),
{
    if lines.len() == 0 {
        seq![]
    } else {
        let prev = titles_of(lines.drop_last());
        if marker_at(lines.last(), 0) {
            prev.push(trim_seq(strip_marker(lines.last())))
        } else {
            prev
        }
    }
}

pub open spec fn min_len(a: int, b: int) -> int {
    if a < b { a } else { b }
}

/// Whether the first chapter opens with the `Title: ` preamble of foreign exports.
pub open spec fn has_preamble(sections: Seq<Seq<Seq<char>>>) -> bool {
    sections.len() > 0 && sections[0].len() > 0 && has_prefix(sections[0][0], "Title: "@)
}

/// The chapters of a book built from `sections` and `titles`, index-aligned,
/// without the preamble chapter.
pub open spec fn book_of(sections: Seq<Seq<Seq<char>>>, titles: Seq<Seq<char>>) -> Seq<
    (Seq<char>, Seq<Seq<char>>),
> {
    let n = min_len(sections.len() as int, titles.len() as int);
    let first: int = if has_preamble(sections) { 1 } else { 0 };
    let len: int = if n > first { n - first } else { 0 };
    Seq::new(len as nat, |k: int| (titles[k + first], sections[k + first]))
}

/// Removes every `# ` token from `s`.
pub fn strip_markers(s: &str) -> (r: String)
    ensures
        r@ == strip_marker(s@),
{
    let n = s.unicode_len();
    let mut out = String::new();
    let mut i: usize = 0;
    assert(s@.subrange(0, n as int) =~= s@);
    assert(out@ + strip_marker(s@) =~= strip_marker(s@));
    while i < n
        invariant
            n == s@.len(),
            i <= n,
            strip_marker(s@) == out@ + strip_marker(s@.subrange(i as int, n as int)),
        decreases n - i,
    {
        let rest = Ghost(s@.subrange(i as int, n as int));
        if i + 1 < n && s.get_char(i) == '#' && s.get_char(i + 1) == ' ' {
            assert(rest@.subrange(2, rest@.len() as int) =~= s@.subrange(i + 2, n as int));
            i = i + 2;
        } else {
            let c = s.get_char(i);
            assert(rest@.drop_first() =~= s@.subrange(i + 1, n as int));
            let ghost old_out = out@;
            push_char(&mut out, c);
            assert(out@ + strip_marker(s@.subrange(i + 1, n as int)) =~= old_out + (seq![c]
                + strip_marker(s@.subrange(i + 1, n as int))));
            i = i + 1;
        }
    }
    assert(s@.subrange(n as int, n as int) =~= Seq::<char>::empty());
    assert(out@ + Seq::<char>::empty() =~= out@);
    out
}

/// Whether a trimmed line is a top-level heading.
fn top_heading(t: &str) -> (r: bool)
    ensures
        r == is_top_heading(t@),
{
    let n = t.unicode_len();
    n >= 2 && t.get_char(0) == '#' && t.get_char(1) == ' ' && (n == 2 || t.get_char(2) != '#')
}

/// A copy of a list of strings.
pub(crate) fn copy_strings(v: &Vec<String>) -> (r: Vec<String>)
    ensures
        r.deep_view() == v.deep_view(),
{
    let mut r: Vec<String> = Vec::new();
    let mut i: usize = 0;
    while i < v.len()
        invariant
            i <= v.len(),
            r.deep_view() =~= v.deep_view().take(i as int),
        decreases v.len() - i,
    {
        let item: String = v[i].clone();
        assert(item@ == v.deep_view()[i as int]);
        let ghost prev = r.deep_view();
        r.push(item);
        assert(r.deep_view() =~= prev.push(item@));
        assert(v.deep_view().take(i + 1) =~= v.deep_view().take(i as int).push(item@));
        i = i + 1;
    }
    assert(v.deep_view().take(v.len() as int) =~= v.deep_view());
    r
}

/// Splits the lines of a book text into chapters. A chapter begins at each
/// top-level heading (`# ` not followed by `#`); lines are trimmed, blank
/// lines dropped, and top-level heading lines lose their `# ` tokens.
pub fn read_sections(lines: &Vec<String>) -> (r: Vec<Vec<String>>)
    ensures
        r.deep_view() == sections_of(lines.deep_view()),
{
    let mut sections: Vec<Vec<String>> = Vec::new();
    let mut current: Vec<String> = Vec::new();
    let mut i: usize = 0;
    while i < lines.len()
        invariant
            i <= lines.len(),
            (sections.deep_view(), current.deep_view()) == scan(
                lines.deep_view().take(i as int),
            ),
        decreases lines.len() - i,
    {
        let ghost before = lines.deep_view().take(i as int);
        assert(lines.deep_view().take(i + 1).drop_last() =~= before);
        let t = trim(lines[i].as_str());
        let top = top_heading(t.as_str());
        if top && current.len() > 0 {
            let done = current;
            current = Vec::new();
            sections.push(done);
            assert(sections.deep_view() =~= scan(before).0.push(scan(before).1));
            assert(current.deep_view() =~= Seq::<Seq<char>>::empty());
        }
        if !t.as_str().is_empty() {
            if top {
                let line = strip_markers(t.as_str());
                current.push(line);
            } else {
                current.push(t);
            }
        }
        i = i + 1;
        assert(sections.deep_view() =~= scan(lines.deep_view().take(i as int)).0);
        assert(current.deep_view() =~= scan(lines.deep_view().take(i as int)).1);
    }
    assert(lines.deep_view().take(i as int) =~= lines.deep_view());
    if current.len() > 0 {
        sections.push(current);
        assert(sections.deep_view() =~= sections_of(lines.deep_view()));
    }
    sections
}

/// The chapter titles: every line that begins with `# `, with its `# `
/// tokens removed, trimmed.
pub fn get_titles(lines: &Vec<String>) -> (r: Vec<String>)
    ensures
        r.deep_view() == titles_of(lines.deep_view()),
{
    let mut titles: Vec<String> = Vec::new();
    let mut i: usize = 0;
    while i < lines.len()
        invariant
            i <= lines.len(),
            titles.deep_view() == titles_of(lines.deep_view().take(i as int)),
        decreases lines.len() - i,
    {
        assert(lines.deep_view().take(i + 1).drop_last() =~= lines.deep_view().take(i as int));
        let line = lines[i].as_str();
        let n = line.unicode_len();
        if n >= 2 && line.get_char(0) == '#' && line.get_char(1) == ' ' {
            let stripped = strip_markers(line);
            titles.push(trim(stripped.as_str()));
        }
        i = i + 1;
        assert(titles.deep_view() =~= titles_of(lines.deep_view().take(i as int)));
    }
    assert(lines.deep_view().take(i as int) =~= lines.deep_view());
    titles
}

/// An ordered list of chapters, each a title and its paragraphs.
pub struct Book {
    chapters: Vec<(String, Vec<String>)>,
}

impl View for Book {
    type V = Seq<(Seq<char>, Seq<Seq<char>>)>;

    closed spec fn view(&self) -> Self::V {
        Seq::new(
            self.chapters@.len(),
            |i: int| (self.chapters@[i].0@, self.chapters@[i].1.deep_view()),
        )
    }
}

impl Book {
    /// An empty book.
    pub fn new() -> (r: Book)
        ensures
            r@ == Seq::<(Seq<char>, Seq<Seq<char>>)>::empty(),
    {
        let r = Book { chapters: Vec::new() };
        assert(r@ =~= Seq::<(Seq<char>, Seq<Seq<char>>)>::empty());
        r
    }

    /// Appends a chapter after the existing ones.
    pub fn add_chapter(&mut self, title: &str, content: Vec<String>)
        ensures
            final(self)@ == old(self)@.push((title@, content.deep_view())),
    {
        let t = String::from_str(title);
        self.chapters.push((t, content));
        assert(self@ =~= old(self)@.push((title@, content.deep_view())));
    }

    /// Every chapter, in order, as its title and its paragraphs.
    pub fn get_all_chapters(&self) -> (r: Vec<(&String, &Vec<String>)>)
        ensures
            r@.len() == self@.len(),
            forall|i: int|
                0 <= i < r@.len() ==> (#[trigger] r@[i]).0@ == self@[i].0
                    && r@[i].1.deep_view() == self@[i].1,
    {
        let mut r: Vec<(&String, &Vec<String>)> = Vec::new();
        let mut i: usize = 0;
        while i < self.chapters.len()
            invariant
                i <= self.chapters@.len(),
                r@.len() == i,
                forall|k: int|
                    0 <= k < i ==> (#[trigger] r@[k]).0@ == self@[k].0 && r@[k].1.deep_view()
                        == self@[k].1,
            decreases self.chapters@.len() - i,
        {
            let entry = &self.chapters[i];
            r.push((&entry.0, &entry.1));
            i = i + 1;
        }
        r
    }

    /// The number of chapters.
    pub fn len(&self) -> (r: usize)
        ensures
            r == self@.len(),
    {
        self.chapters.len()
    }
}

/// The book of a segmented text: chapter `k` pairs `titles[k]` with
/// `sections[k]`, up to the shorter of the two; where the first section opens
/// with the `Title: ` preamble of foreign exports, index 0 is dropped.
pub fn build_book(sections: &Vec<Vec<String>>, titles: &Vec<String>) -> (r: Book)
    ensures
        r@ == book_of(sections.deep_view(), titles.deep_view()),
{
    let n = if sections.len() < titles.len() { sections.len() } else { titles.len() };
    let preamble = sections.len() > 0 && sections[0].len() > 0 && starts_with(
        sections[0][0].as_str(),
        "Title: ",
    );
    assert(preamble == has_preamble(sections.deep_view()));
    let first: usize = if preamble { 1 } else { 0 };
    let mut book = Book::new();
    let mut i = first;
    while i < n
        invariant
            first <= i,
            n <= sections.len(),
            n <= titles.len(),
            first == (if has_preamble(sections.deep_view()) { 1int } else { 0int }),
            n == min_len(sections.len() as int, titles.len() as int),
            i <= n || i == first,
            book@ =~= book_of(sections.deep_view(), titles.deep_view()).take(
                if i > first { i - first } else { 0 },
            ),
        decreases n - i,
    {
        let content = copy_strings(&sections[i]);
        book.add_chapter(titles[i].as_str(), content);
        i = i + 1;
    }
    assert(book@ =~= book_of(sections.deep_view(), titles.deep_view()));
    book
}

} // verus!
