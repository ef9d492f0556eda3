//! Reduction of an EPUB's XHTML documents to a segmented text: one `# `
//! heading per chapter, followed by the chapter's text, skipping chapters
//! whose titles name front or back matter.
use vstd::prelude::*;
use crate::parse::{find, find_from, occurs_at};
use crate::text::{join_strings, joined_by, to_chars, trim, trim_seq};

verus! {

/// The text nodes of each chapter heading (`h1`, or `h2` of class
/// `chapter`) of an HTML document, in the order scraper's `select` yields them.
pub uninterp spec fn heading_nodes(html: Seq<char>) -> Seq<Seq<Seq<char>>>;

/// The text nodes of the first `body` element of an HTML document, if any.
pub uninterp spec fn body_nodes(html: Seq<char>) -> Option<Seq<Seq<char>>>;

/// The lowercase mapping of a string.
pub uninterp spec fn lower_of(s: Seq<char>) -> Seq<char>;

/// Relies on scraper's `Html::parse_document`, `Selector::parse` and
/// `Html::select`: the text nodes of each element matching
/// `h1, h2[class='chapter']`, in the order `select` yields them. The result
/// depends on the document alone.
#[verifier::external_body]
fn chapter_headings(html: &str) -> (r: Vec<Vec<String>>)
    ensures
        r.deep_view() == heading_nodes(html@),
{
    let document = scraper::Html::parse_document(html);
    let selector = scraper::Selector::parse("h1, h2[class='chapter']").unwrap();
    document
        .select(&selector)
        .map(|e| e.text().map(|t| t.to_string()).collect())
        .collect()
}

/// Relies on scraper's `Html::parse_document`, `Selector::parse` and
/// `Html::select`: the text nodes of the first `body` element. The result
/// depends on the document alone.
#[verifier::external_body]
fn body_text_nodes(html: &str) -> (r: Option<Vec<String>>)
    ensures
        match r {
            Some(v) => body_nodes(html@) == Some(v.deep_view()),
            None => body_nodes(html@) is None,
        },
{
    let document = scraper::Html::parse_document(html);
    let selector = scraper::Selector::parse("body").unwrap();
    document.select(&selector).next().map(|e| e.text().map(|t| t.to_string()).collect())
}

/// Relies on `str::to_lowercase`: the result depends on the characters alone.
#[verifier::external_body]
fn to_lowercase(s: &str) -> (r: String)
    ensures
        r@ == lower_of(s@),
{
    s.to_lowercase()
}

/// Whether `p` occurs in `s`.
pub open spec fn contains_seq(s: Seq<char>, p: Seq<char>) -> bool {
    find_from(s, p, 0) >= 0
}

/// Whether a lowercased title names front or back matter.
pub open spec fn filtered(lowered: Seq<char>) -> bool {
    ||| contains_seq(lowered, "copyright"@)
    ||| contains_seq(lowered, "landmarks"@)
    ||| contains_seq(lowered, "table of contents"@)
    ||| contains_seq(lowered, "illustration"@)
    ||| contains_seq(lowered, "contents"@)
    ||| contains_seq(lowered, "navigation"@)
}

/// The index of the first `c` in `s`, or -1.
pub open spec fn index_of(s: Seq<char>, c: char) -> int
    decreases s.len(),
{
    if s.len() == 0 {
        -1
    } else if s[0] == c {
        0
    } else if index_of(s.drop_first(), c) < 0 {
        -1
    } else {
        index_of(s.drop_first(), c) + 1
    }
}

/// `s` with each `\r\n` turned into `\n`.
pub open spec fn unix_newlines(s: Seq<char>) -> Seq<char>
    decreases s.len(),
{
    if s.len() == 0 {
        s
    } else if s.len() >= 2 && s[0] == '\r' && s[1] == '\n' {
        seq!['\n'] + unix_newlines(s.subrange(2, s.len() as int))
    } else {
        seq![s[0]] + unix_newlines(s.drop_first())
    }
}

/// A trimmed text without its first line: the lines after it, joined with `\n`.
pub open spec fn after_first_line(t: Seq<char>) -> Seq<char> {
    let p = index_of(t, '\n');
    if p < 0 {
        Seq::empty()
    } else {
        unix_newlines(t.subrange(p + 1, t.len() as int))
    }
}

/// The text of a heading: its text nodes joined with spaces, trimmed.
pub open spec fn heading_title(nodes: Seq<Seq<char>>) -> Seq<char> {
    trim_seq(joined_by(nodes, " "@))
}

/// The text written so far, followed by the current chapter where it has a
/// title and is not skipped.
pub open spec fn flushed(title: Seq<char>, content: Seq<char>, skip: bool, out: Seq<char>) -> Seq<
    char,
> {
    if title.len() > 0 && !skip {
        out + "# "@ + title + "\n"@ + content + "\n\n"@
    } else {
        out
    }
}

pub open spec fn nodes_view(o: Option<Vec<String>>) -> Option<Seq<Seq<char>>> {
    match o {
        Some(v) => Some(v.deep_view()),
        None => None,
    }
}

/// The state of the reduction: the current chapter's title, its text,
/// whether it is skipped, and the text written so far.
pub type EpubView = (Seq<char>, Seq<char>, bool, Seq<char>);

/// The state after a heading: the previous chapter is written, a new one begins.
pub open spec fn on_heading(st: EpubView, nodes: Seq<Seq<char>>) -> EpubView {
    let t = heading_title(nodes);
    (t, Seq::empty(), filtered(lower_of(t)), flushed(st.0, st.1, st.2, st.3))
}

pub open spec fn on_headings(st: EpubView, hs: Seq<Seq<Seq<char>>>) -> EpubView
    decreases hs.len(),
{
    if hs.len() == 0 {
        st
    } else {
        on_heading(on_headings(st, hs.drop_last()), hs.last())
    }
}

/// The state after the body of a document: its text, without its first
/// line, is added to a chapter that is not skipped, unless the chapter
/// already holds it.
pub open spec fn on_body(st: EpubView, body: Option<Seq<Seq<char>>>) -> EpubView {
    if st.2 {
        st
    } else {
        match body {
            None => st,
            Some(nodes) => {
                let text = trim_seq(joined_by(nodes, " "@));
                if st.0.len() > 0 && !contains_seq(st.1, text) {
                    (st.0, st.1 + after_first_line(text) + "\n"@, st.2, st.3)
                } else {
                    st
                }
            },
        }
    }
}

/// The state after an XHTML document.
pub open spec fn on_document(st: EpubView, html: Seq<char>) -> EpubView {
    on_body(on_headings(st, heading_nodes(html)), body_nodes(html))
}

/// Whether a lowercased title names front or back matter: copyright,
/// landmarks, tables of contents, illustrations, navigation.
pub fn matches_filter(lowered: &str) -> (r: bool)
    ensures
        r == filtered(lowered@),
{
    find(lowered, "copyright", 0).is_some() || find(lowered, "landmarks", 0).is_some() || find(
        lowered,
        "table of contents",
        0,
    ).is_some() || find(lowered, "illustration", 0).is_some() || find(lowered, "contents", 0).is_some()
        || find(lowered, "navigation", 0).is_some()
}

/// Whether a chapter title names front or back matter, case ignored.
pub fn should_filter(title: &str) -> (r: bool)
    ensures
        r == filtered(lower_of(title@)),
{
    let lowered = to_lowercase(title);
    matches_filter(lowered.as_str())
}

/// Whether `p` occurs in `s`.
pub fn contains_chars(s: &Vec<char>, p: &Vec<char>) -> (r: bool)
    ensures
        r == contains_seq(s@, p@),
{
    let n = s.len();
    let m = p.len();
    let mut i: usize = 0;
    while i <= n && m <= n - i
        invariant
            n == s@.len(),
            m == p@.len(),
            find_from(s@, p@, 0) == find_from(s@, p@, i as int),
        decreases n + 1 - i,
    {
        let mut k: usize = 0;
        while k < m && s[i + k] == p[k]
            invariant
                n == s@.len(),
                m == p@.len(),
                i + m <= n,
                k <= m,
                forall|j: int| 0 <= j < k ==> s@[i + j] == p@[j],
            decreases m - k,
        {
            k = k + 1;
        }
        if k == m {
            assert(s@.subrange(i as int, i + m) =~= p@);
            proof {
                lemma_find_nonneg(s@, p@, 0, i as int);
            }
            return true;
        }
        assert(!occurs_at(s@, p@, i as int)) by {
            if occurs_at(s@, p@, i as int) {
                assert(s@.subrange(i as int, i + m)[k as int] == s@[i + k]);
            }
        }
        i = i + 1;
    }
    false
}

proof fn lemma_find_nonneg(s: Seq<char>, p: Seq<char>, from: int, i: int)
    requires
        0 <= from <= i,
        find_from(s, p, from) == find_from(s, p, i),
        occurs_at(s, p, i),
    ensures
        find_from(s, p, from) >= 0,
{
}

/// A trimmed text without its first line.
pub fn drop_first_line(t: &Vec<char>) -> (r: Vec<char>)
    ensures
        r@ == after_first_line(t@),
{
    let n = t.len();
    let mut p: usize = 0;
    assert(t@.subrange(0, n as int) =~= t@);
    while p < n && t[p] != '\n'
        invariant
            n == t@.len(),
            p <= n,
            forall|j: int| 0 <= j < p ==> t@[j] != '\n',
            index_of(t@, '\n') == if index_of(t@.subrange(p as int, n as int), '\n') < 0 {
                -1
            } else {
                index_of(t@.subrange(p as int, n as int), '\n') + p
            },
        decreases n - p,
    {
        assert(t@.subrange(p as int, n as int).drop_first() =~= t@.subrange(p + 1, n as int));
        p = p + 1;
    }
    let mut r: Vec<char> = Vec::new();
    if p == n {
        assert(t@.subrange(p as int, n as int) =~= Seq::<char>::empty());
        assert(r@ =~= Seq::<char>::empty());
        return r;
    }
    assert(index_of(t@, '\n') == p);
    let mut i = p + 1;
    let ghost rest = t@.subrange(p + 1, n as int);
    assert(t@.subrange(i as int, n as int) =~= rest);
    while i < n
        invariant
            p < i <= n,
            n == t@.len(),
            rest == t@.subrange(p + 1, n as int),
            unix_newlines(rest) == r@ + unix_newlines(t@.subrange(i as int, n as int)),
        decreases n - i,
    {
        let ghost cur = t@.subrange(i as int, n as int);
        let ghost before = r@;
        if i + 1 < n && t[i] == '\r' && t[i + 1] == '\n' {
            assert(cur.subrange(2, cur.len() as int) =~= t@.subrange(i + 2, n as int));
            r.push('\n');
            assert(r@ + unix_newlines(t@.subrange(i + 2, n as int)) =~= before + (seq!['\n']
                + unix_newlines(t@.subrange(i + 2, n as int))));
            i = i + 2;
        } else {
            assert(cur.drop_first() =~= t@.subrange(i + 1, n as int));
            r.push(t[i]);
            assert(r@ + unix_newlines(t@.subrange(i + 1, n as int)) =~= before + (seq![t@[i as int]]
                + unix_newlines(t@.subrange(i + 1, n as int))));
            i = i + 1;
        }
    }
    assert(t@.subrange(i as int, n as int) =~= Seq::<char>::empty());
    assert(r@ + Seq::<char>::empty() =~= r@);
    r
}

/// Appends the chapter `title` with its text `content` to `out`, unless it
/// is untitled or skipped.
fn write_chapter(out: &mut String, title: &String, content: &Vec<char>, skip: bool)
    ensures
        final(out)@ == flushed(title@, content@, skip, old(out)@),
{
    if !title.as_str().is_empty() && !skip {
        out.append("# ");
        out.append(title.as_str());
        out.append("\n");
        let ghost before = out@;
        let mut i: usize = 0;
        while i < content.len()
            invariant
                i <= content@.len(),
                out@ == before + content@.take(i as int),
            decreases content@.len() - i,
        {
            crate::text::push_char(out, content[i]);
            assert(content@.take(i + 1) =~= content@.take(i as int).push(content@[i as int]));
            i = i + 1;
        }
        assert(content@.take(i as int) =~= content@);
        out.append("\n\n");
    }
}

/// The reduction of an EPUB's XHTML documents to a segmented text.
pub struct EpubText {
    title: String,
    content: Vec<char>,
    skip: bool,
    out: String,
}

impl EpubText {
    pub closed spec fn view(&self) -> EpubView {
        (self.title@, self.content@, self.skip, self.out@)
    }

    /// Nothing read yet.
    pub fn new() -> (r: EpubText)
        ensures
            r.view() == (Seq::<char>::empty(), Seq::<char>::empty(), false, Seq::<char>::empty()),
    {
        EpubText { title: String::new(), content: Vec::new(), skip: false, out: String::new() }
    }

    fn heading(&mut self, nodes: &Vec<String>)
        ensures
            final(self).view() == on_heading(old(self).view(), nodes.deep_view()),
    {
        let joined = join_strings(nodes, " ");
        let t = trim(joined.as_str());
        write_chapter(&mut self.out, &self.title, &self.content, self.skip);
        self.skip = should_filter(t.as_str());
        self.title = t;
        self.content = Vec::new();
    }

    fn body(&mut self, body: Option<Vec<String>>)
        ensures
            final(self).view() == on_body(old(self).view(), nodes_view(body)),
    {
        let ghost b = nodes_view(body);
        if self.skip {
            return;
        }
        match body {
            None => {
                assert(on_body(old(self).view(), b) == old(self).view());
            },
            Some(nodes) => {
                let joined = join_strings(&nodes, " ");
                let text = trim(joined.as_str());
                let chars = to_chars(text.as_str());
                if !self.title.as_str().is_empty() && !contains_chars(&self.content, &chars) {
                    let rest = drop_first_line(&chars);
                    let ghost before = self.content@;
                    let mut i: usize = 0;
                    while i < rest.len()
                        invariant
                            i <= rest@.len(),
                            self.content@ == before + rest@.take(i as int),
                            self.title == old(self).title,
                            self.skip == old(self).skip,
                            self.out == old(self).out,
                        decreases rest@.len() - i,
                    {
                        self.content.push(rest[i]);
                        assert(rest@.take(i + 1) =~= rest@.take(i as int).push(rest@[i as int]));
                        i = i + 1;
                    }
                    assert(rest@.take(i as int) =~= rest@);
                    self.content.push('\n');
                    proof {
                        reveal_strlit("\n");
                    }
                    assert(self.content@ =~= before + after_first_line(text@) + "\n"@);
                }
            },
        }
    }

    /// Reads one XHTML document: each chapter heading closes the current
    /// chapter and opens the next; the body's text joins the current chapter.
    pub fn add_document(&mut self, html: &str)
        ensures
            final(self).view() == on_document(old(self).view(), html@),
    {
        let headings = chapter_headings(html);
        let mut i: usize = 0;
        while i < headings.len()
            invariant
                i <= headings@.len(),
                headings.deep_view() == heading_nodes(html@),
                self.view() == on_headings(old(self).view(), headings.deep_view().take(i as int)),
            decreases headings@.len() - i,
        {
            assert(headings.deep_view().take(i + 1).drop_last() =~= headings.deep_view().take(
                i as int,
            ));
            self.heading(&headings[i]);
            i = i + 1;
        }
        assert(headings.deep_view().take(i as int) =~= headings.deep_view());
        let body = body_text_nodes(html);
        self.body(body);
    }

    /// The segmented text: what was written, then the last chapter unless
    /// it is skipped.
    pub fn finish(&self) -> (r: String)
        ensures
            r@ == flushed(self.view().0, self.view().1, self.view().2, self.view().3),
    {
        let mut out = String::new();
        out.append(self.out.as_str());
        write_chapter(&mut out, &self.title, &self.content, self.skip);
        out
    }
}

} // verus!
