//! The tagger: bibliographic fields, the tagging invocation, the output
//! name and the square cover crop.
use vstd::prelude::*;
use crate::text::{is_white, is_whitespace, join_strings, joined_by, push_char};

verus! {

/// The index of the first `>` in `s`, or -1.
pub open spec fn close_index(s: Seq<char>) -> int
    decreases s.len(),
{
    if s.len() == 0 {
        -1
    } else if s[0] == '>' {
        0
    } else if close_index(s.drop_first()) < 0 {
        -1
    } else {
        close_index(s.drop_first()) + 1
    }
}

/// `s` with every tag removed: each `<` up to and including the first `>`
/// after it. A `<` with no `>` after it stays.
pub open spec fn strip_tags(s: Seq<char>) -> Seq<char>
    decreases s.len()
    via strip_tags_decreases
{
    if s.len() == 0 {
        s
    } else if s[0] == '<' && close_index(s) >= 0 {
        strip_tags(s.subrange(close_index(s) + 1, s.len() as int))
    } else {
        seq![s[0]] + strip_tags(s.drop_first())
    }
}

#[via_fn]
proof fn strip_tags_decreases(s: Seq<char>) {
    lemma_close_index_bounds(s);
}

proof fn lemma_close_index_bounds(s: Seq<char>)
    ensures
        -1 <= close_index(s) < s.len(),
    decreases s.len(),
{
    if s.len() > 0 {
        lemma_close_index_bounds(s.drop_first());
    }
}

/// Relies on `regex::Regex::replace_all` with the pattern `<[^>]*>` and an
/// empty replacement: the leftmost match starts at a `<` that has a `>`
/// after it and ends at the first such `>`; matches do not overlap.
#[verifier::external_body]
pub(crate) fn remove_html_tags(input: &str) -> (r: String)
    ensures
        r@ == strip_tags(input@),
{
    let re = regex::Regex::new(r"<[^>]*>").unwrap();
    re.replace_all(input, "").to_string()
}

/// A bibliographic field.
#[derive(PartialEq, Eq, Structural, Clone, Copy, Debug)]
pub enum MetaKey {
    Title,
    Date,
    Description,
    Language,
    Author,
}

/// The tag name of a field.
pub open spec fn key_name(k: MetaKey) -> Seq<char> {
    match k {
        MetaKey::Title => "title"@,
        MetaKey::Date => "date"@,
        MetaKey::Description => "description"@,
        MetaKey::Language => "language"@,
        MetaKey::Author => "author"@,
    }
}

/// The tag name of a field.
pub fn key_str(k: MetaKey) -> (r: &'static str)
    ensures
        r@ == key_name(k),
{
    match k {
        MetaKey::Title => "title",
        MetaKey::Date => "date",
        MetaKey::Description => "description",
        MetaKey::Language => "language",
        MetaKey::Author => "author",
    }
}

/// Bibliographic fields, in the order they are written.
pub struct Metadata {
    pub entries: Vec<(MetaKey, String)>,
}

/// The fields as pairs of key and text.
pub open spec fn entries_view(m: Metadata) -> Seq<(MetaKey, Seq<char>)> {
    Seq::new(m.entries@.len(), |i: int| (m.entries@[i].0, m.entries@[i].1@))
}

/// A field of the metadata document, or its fallback text.
pub open spec fn field_or(v: Option<Seq<char>>, fallback: Seq<char>) -> Seq<char> {
    match v {
        Some(s) => s,
        None => fallback,
    }
}

pub open spec fn opt_view(v: Option<String>) -> Option<Seq<char>> {
    match v {
        Some(s) => Some(s@),
        None => None,
    }
}

/// The text of the first field with key `k`.
pub open spec fn lookup(e: Seq<(MetaKey, Seq<char>)>, k: MetaKey) -> Option<Seq<char>>
    decreases e.len(),
{
    if e.len() == 0 {
        None
    } else if e[0].0 == k {
        Some(e[0].1)
    } else {
        lookup(e.drop_first(), k)
    }
}

/// The tag arguments of some fields: each as `key=text`, tags stripped;
/// the title once more as the album.
pub open spec fn field_args(e: Seq<(MetaKey, Seq<char>)>) -> Seq<Seq<char>>
    decreases e.len(),
{
    if e.len() == 0 {
        seq![]
    } else {
        let prev = field_args(e.drop_last());
        let last = e.last();
        let one = prev.push("-metadata"@).push(key_name(last.0) + "="@ + strip_tags(last.1));
        if last.0 == MetaKey::Title {
            one.push("-metadata"@).push("album="@ + strip_tags(last.1))
        } else {
            one
        }
    }
}

/// The name of the tagged book: its title, tags stripped, or a fixed
/// default where there is none.
pub open spec fn output_name(e: Option<Seq<(MetaKey, Seq<char>)>>) -> Seq<char> {
    let t = match e {
        Some(e) => lookup(e, MetaKey::Title),
        None => None,
    };
    match t {
        Some(t) => strip_tags(t) + ".m4b"@,
        None => "generated_book.m4b"@,
    }
}

/// The whole tagging invocation.
pub open spec fn tag_arg_list(input: Seq<char>, e: Option<Seq<(MetaKey, Seq<char>)>>) -> Seq<
    Seq<char>,
> {
    let fields = match e {
        Some(e) => field_args(e),
        None => seq![],
    };
    seq!["-i"@, input] + fields + seq!["-map"@, "0:a"@, "-c"@, "copy"@, output_name(e)]
}

pub open spec fn meta_view(m: Option<&Metadata>) -> Option<Seq<(MetaKey, Seq<char>)>> {
    match m {
        Some(m) => Some(entries_view(*m)),
        None => None,
    }
}

fn copy_opt(v: &Option<String>, fallback: &str) -> (r: String)
    ensures
        r@ == field_or(opt_view(*v), fallback@),
{
    match v {
        Some(s) => s.clone(),
        None => String::from_str(fallback),
    }
}

/// `names` joined with `, `.
pub fn join_names(names: &Vec<String>) -> (r: String)
    ensures
        r@ == joined_by(names.deep_view(), ", "@),
{
    join_strings(names, ", ")
}

impl Metadata {
    /// No fields.
    pub fn empty() -> (r: Metadata)
        ensures
            entries_view(r) == Seq::<(MetaKey, Seq<char>)>::empty(),
    {
        let r = Metadata { entries: Vec::new() };
        assert(entries_view(r) =~= Seq::<(MetaKey, Seq<char>)>::empty());
        r
    }

    /// The fields of a metadata document: title, date, description and
    /// language, each with a fallback text where the document lacks it, and
    /// the creators joined with `, ` as the author.
    pub fn from_fields(
        title: Option<String>,
        date: Option<String>,
        description: Option<String>,
        language: Option<String>,
        creators: &Vec<String>,
    ) -> (r: Metadata)
        ensures
            entries_view(r) == seq![
                (MetaKey::Title, field_or(opt_view(title), "Title not found"@)),
                (MetaKey::Date, field_or(opt_view(date), "Date not found"@)),
                (MetaKey::Description, field_or(opt_view(description), "Description not found"@)),
                (MetaKey::Language, field_or(opt_view(language), "Language not found"@)),
                (MetaKey::Author, joined_by(creators.deep_view(), ", "@)),
            ],
    {
        let mut entries: Vec<(MetaKey, String)> = Vec::new();
        entries.push((MetaKey::Title, copy_opt(&title, "Title not found")));
        entries.push((MetaKey::Date, copy_opt(&date, "Date not found")));
        entries.push((MetaKey::Description, copy_opt(&description, "Description not found")));
        entries.push((MetaKey::Language, copy_opt(&language, "Language not found")));
        entries.push((MetaKey::Author, join_names(creators)));
        let r = Metadata { entries };
        assert(entries_view(r) =~= seq![
            (MetaKey::Title, field_or(opt_view(title), "Title not found"@)),
            (MetaKey::Date, field_or(opt_view(date), "Date not found"@)),
            (MetaKey::Description, field_or(opt_view(description), "Description not found"@)),
            (MetaKey::Language, field_or(opt_view(language), "Language not found"@)),
            (MetaKey::Author, joined_by(creators.deep_view(), ", "@)),
        ]);
        r
    }
}

fn find_title(m: &Metadata) -> (r: Option<usize>)
    ensures
        match r {
            Some(i) => i < m.entries@.len() && lookup(entries_view(*m), MetaKey::Title) == Some(
                m.entries@[i as int].1@,
            ),
            None => lookup(entries_view(*m), MetaKey::Title) is None,
        },
{
    let mut i: usize = 0;
    assert(entries_view(*m).subrange(0, m.entries@.len() as int) =~= entries_view(*m));
    while i < m.entries.len()
        invariant
            i <= m.entries@.len(),
            lookup(entries_view(*m), MetaKey::Title) == lookup(
                entries_view(*m).subrange(i as int, m.entries@.len() as int),
                MetaKey::Title,
            ),
        decreases m.entries@.len() - i,
    {
        let ghost rest = entries_view(*m).subrange(i as int, m.entries@.len() as int);
        assert(rest.drop_first() =~= entries_view(*m).subrange(i + 1, m.entries@.len() as int));
        if m.entries[i].0 == MetaKey::Title {
            return Some(i);
        }
        i = i + 1;
    }
    None
}

/// The file name of the tagged book.
pub fn tag_output_name(meta: Option<&Metadata>) -> (r: String)
    ensures
        r@ == output_name(meta_view(meta)),
{
    proof {
        if meta is Some {
            assert(entries_view(*meta->Some_0).subrange(0, meta->Some_0.entries@.len() as int)
                =~= entries_view(*meta->Some_0));
        }
    }
    match meta {
        Some(m) => match find_title(m) {
            Some(i) => {
                let mut name = remove_html_tags(m.entries[i].1.as_str());
                name.append(".m4b");
                name
            },
            None => String::from_str("generated_book.m4b"),
        },
        None => String::from_str("generated_book.m4b"),
    }
}

fn push_owned(v: &mut Vec<String>, s: String)
    ensures
        final(v).deep_view() == old(v).deep_view().push(s@),
{
    v.push(s);
    assert(v.deep_view() =~= old(v).deep_view().push(s@));
}

/// The arguments that copy the audio of `input` into the tagged book,
/// writing each field, tags stripped, and the title once more as the album.
pub fn tag_args(input: &str, meta: Option<&Metadata>) -> (r: Vec<String>)
    ensures
        r.deep_view() == tag_arg_list(input@, meta_view(meta)),
{
    let mut v: Vec<String> = Vec::new();
    push_owned(&mut v, String::from_str("-i"));
    push_owned(&mut v, String::from_str(input));
    let ghost head = v.deep_view();
    assert(head =~= seq!["-i"@, input@]);
    if let Some(m) = meta {
        let mut i: usize = 0;
        while i < m.entries.len()
            invariant
                i <= m.entries@.len(),
                v.deep_view() == head + field_args(entries_view(*m).take(i as int)),
            decreases m.entries@.len() - i,
        {
            let ghost before = v.deep_view();
            assert(entries_view(*m).take(i + 1).drop_last() =~= entries_view(*m).take(i as int));
            let entry = &m.entries[i];
            let text = remove_html_tags(entry.1.as_str());
            push_owned(&mut v, String::from_str("-metadata"));
            let mut kv = String::from_str(key_str(entry.0));
            kv.append("=");
            kv.append(text.as_str());
            push_owned(&mut v, kv);
            if entry.0 == MetaKey::Title {
                push_owned(&mut v, String::from_str("-metadata"));
                let mut album = String::from_str("album=");
                album.append(text.as_str());
                push_owned(&mut v, album);
            }
            assert(v.deep_view() =~= head + field_args(entries_view(*m).take(i + 1)));
            i = i + 1;
        }
        assert(entries_view(*m).take(i as int) =~= entries_view(*m));
    } else {
        assert(v.deep_view() =~= head + Seq::<Seq<char>>::empty());
    }
    let ghost mid = v.deep_view();
    push_owned(&mut v, String::from_str("-map"));
    push_owned(&mut v, String::from_str("0:a"));
    push_owned(&mut v, String::from_str("-c"));
    push_owned(&mut v, String::from_str("copy"));
    let name = tag_output_name(meta);
    push_owned(&mut v, name);
    assert(v.deep_view() =~= mid + seq![
        "-map"@,
        "0:a"@,
        "-c"@,
        "copy"@,
        output_name(meta_view(meta)),
    ]);
    v
}

/// The square that a cover is cropped to: anchored at the top-left corner,
/// with the shorter side of the image.
#[derive(PartialEq, Eq, Structural, Clone, Copy, Debug)]
pub struct CropRect {
    pub x: u32,
    pub y: u32,
    pub side: u32,
}

/// The square crop of a `width` by `height` cover.
pub fn square_crop(width: u32, height: u32) -> (r: CropRect)
    ensures
        r.x == 0,
        r.y == 0,
        r.side == if width < height { width } else { height },
{
    let side = if width < height { width } else { height };
    CropRect { x: 0, y: 0, side }
}

/// Whether position `i` of `s` starts a word.
pub open spec fn starts_word(s: Seq<char>, i: int) -> bool {
    !is_white(s[i]) && (i == 0 || is_white(s[i - 1]))
}

/// The first character of each white-space-separated word of `s`.
pub open spec fn initials(s: Seq<char>) -> Seq<char>
    decreases s.len(),
{
    if s.len() == 0 {
        s
    } else if starts_word(s, s.len() - 1) {
        initials(s.drop_last()).push(s.last())
    } else {
        initials(s.drop_last())
    }
}

/// The first character of each white-space-separated word of `original`.
pub fn _shorten_name(original: &str) -> (r: String)
    ensures
        r@ == initials(original@),
{
    let n = original.unicode_len();
    let mut out = String::new();
    let mut prev_white = true;
    let mut i: usize = 0;
    while i < n
        invariant
            n == original@.len(),
            i <= n,
            out@ == initials(original@.take(i as int)),
            i > 0 ==> prev_white == is_white(original@[i - 1]),
            i == 0 ==> prev_white,
        decreases n - i,
    {
        let c = original.get_char(i);
        let white = is_whitespace(c);
        let ghost pre = original@.take(i + 1);
        assert(pre.drop_last() =~= original@.take(i as int));
        assert(pre[i as int] == c);
        assert(i > 0 ==> pre[i - 1] == original@[i - 1]);
        if !white && prev_white {
            push_char(&mut out, c);
        }
        prev_white = white;
        i = i + 1;
    }
    assert(original@.take(i as int) =~= original@);
    out
}

} // verus!
