//! The transcoder invocations: argument lists for silence generation,
//! chapter encoding, container concatenation, chapter-marker muxing and
//! duration probing; the concat lists they read; and the order of the
//! chapter files.
use vstd::prelude::*;
use crate::text::decimal;
use crate::text::decimal_string;
use crate::parse::{chapter_number_of, get_chapter_number};

verus! {

/// The files of a chapter with the silence file between consecutive ones.
pub open spec fn interleave(files: Seq<Seq<char>>, silence: Seq<char>) -> Seq<Seq<char>>
    decreases files.len(),
{
    if files.len() <= 1 {
        files
    } else {
        interleave(files.drop_last(), silence).push(silence).push(files.last())
    }
}

/// One line of a concat list.
pub open spec fn list_line(entry: Seq<char>) -> Seq<char> {
    "file '"@ + entry + "'\n"@
}

/// A concat list: one line per entry, in order.
pub open spec fn list_text(entries: Seq<Seq<char>>) -> Seq<char>
    decreases entries.len(),
{
    if entries.len() == 0 {
        Seq::empty()
    } else {
        list_text(entries.drop_last()) + list_line(entries.last())
    }
}

/// The sort key of a chapter file: its chapter number, or the largest `u32`
/// where it has none, so that such files come last.
pub open spec fn chapter_key(s: Seq<char>) -> nat {
    match chapter_number_of(s) {
        Some(v) => v,
        None => u32::MAX as nat,
    }
}

pub open spec fn sorted_by_chapter(s: Seq<Seq<char>>) -> bool {
    forall|i: int, j: int|
        0 <= i < j < s.len() ==> chapter_key(#[trigger] s[i]) <= chapter_key(#[trigger] s[j])
}

fn push_arg(v: &mut Vec<String>, a: &str)
    ensures
        final(v).deep_view() == old(v).deep_view().push(a@),
{
    v.push(String::from_str(a));
    assert(v.deep_view() =~= old(v).deep_view().push(a@));
}

/// Arguments that make `seconds` of mono silence into `output`.
pub fn silence_args(seconds: u64, output: &str) -> (r: Vec<String>)
    ensures
        r.deep_view() == seq![
            "-f"@,
            "lavfi"@,
            "-i"@,
            "anullsrc=r=44100:cl=mono"@,
            "-t"@,
            decimal(seconds as nat),
            output@,
        ],
{
    let mut v: Vec<String> = Vec::new();
    push_arg(&mut v, "-f");
    push_arg(&mut v, "lavfi");
    push_arg(&mut v, "-i");
    push_arg(&mut v, "anullsrc=r=44100:cl=mono");
    push_arg(&mut v, "-t");
    let d = decimal_string(seconds);
    push_arg(&mut v, d.as_str());
    push_arg(&mut v, output);
    assert(v.deep_view() =~= seq![
        "-f"@,
        "lavfi"@,
        "-i"@,
        "anullsrc=r=44100:cl=mono"@,
        "-t"@,
        decimal(seconds as nat),
        output@,
    ]);
    v
}

/// Arguments that encode the files of the concat list `list` into one AAC
/// chapter file `output`.
pub fn encode_args(list: &str, output: &str) -> (r: Vec<String>)
    ensures
        r.deep_view() == seq![
            "-f"@,
            "concat"@,
            "-safe"@,
            "0"@,
            "-i"@,
            list@,
            "-c"@,
            "aac"@,
            "-b:a"@,
            "69k"@,
            output@,
        ],
{
    let mut v: Vec<String> = Vec::new();
    push_arg(&mut v, "-f");
    push_arg(&mut v, "concat");
    push_arg(&mut v, "-safe");
    push_arg(&mut v, "0");
    push_arg(&mut v, "-i");
    push_arg(&mut v, list);
    push_arg(&mut v, "-c");
    push_arg(&mut v, "aac");
    push_arg(&mut v, "-b:a");
    push_arg(&mut v, "69k");
    push_arg(&mut v, output);
    assert(v.deep_view() =~= seq![
        "-f"@,
        "concat"@,
        "-safe"@,
        "0"@,
        "-i"@,
        list@,
        "-c"@,
        "aac"@,
        "-b:a"@,
        "69k"@,
        output@,
    ]);
    v
}

/// Arguments that concatenate the files of the concat list `list` into
/// `output`, streams copied.
pub fn concat_copy_args(list: &str, output: &str) -> (r: Vec<String>)
    ensures
        r.deep_view() == seq![
            "-f"@,
            "concat"@,
            "-safe"@,
            "0"@,
            "-i"@,
            list@,
            "-c"@,
            "copy"@,
            output@,
        ],
{
    let mut v: Vec<String> = Vec::new();
    push_arg(&mut v, "-f");
    push_arg(&mut v, "concat");
    push_arg(&mut v, "-safe");
    push_arg(&mut v, "0");
    push_arg(&mut v, "-i");
    push_arg(&mut v, list);
    push_arg(&mut v, "-c");
    push_arg(&mut v, "copy");
    push_arg(&mut v, output);
    assert(v.deep_view() =~= seq![
        "-f"@,
        "concat"@,
        "-safe"@,
        "0"@,
        "-i"@,
        list@,
        "-c"@,
        "copy"@,
        output@,
    ]);
    v
}

/// Arguments that copy `input` into `output` with the metadata of the
/// chapter-marker document `chapters`.
pub fn mux_args(input: &str, chapters: &str, output: &str) -> (r: Vec<String>)
    ensures
        r.deep_view() == seq![
            "-i"@,
            input@,
            "-i"@,
            chapters@,
            "-map_metadata"@,
            "1"@,
            "-c"@,
            "copy"@,
            output@,
        ],
{
    let mut v: Vec<String> = Vec::new();
    push_arg(&mut v, "-i");
    push_arg(&mut v, input);
    push_arg(&mut v, "-i");
    push_arg(&mut v, chapters);
    push_arg(&mut v, "-map_metadata");
    push_arg(&mut v, "1");
    push_arg(&mut v, "-c");
    push_arg(&mut v, "copy");
    push_arg(&mut v, output);
    assert(v.deep_view() =~= seq![
        "-i"@,
        input@,
        "-i"@,
        chapters@,
        "-map_metadata"@,
        "1"@,
        "-c"@,
        "copy"@,
        output@,
    ]);
    v
}

/// Arguments that make the prober print the duration of `file`, in seconds,
/// alone on its output.
pub fn probe_args(file: &str) -> (r: Vec<String>)
    ensures
        r.deep_view() == seq![
            "-v"@,
            "error"@,
            "-show_entries"@,
            "format=duration"@,
            "-of"@,
            "default=noprint_wrappers=1:nokey=1"@,
            file@,
        ],
{
    let mut v: Vec<String> = Vec::new();
    push_arg(&mut v, "-v");
    push_arg(&mut v, "error");
    push_arg(&mut v, "-show_entries");
    push_arg(&mut v, "format=duration");
    push_arg(&mut v, "-of");
    push_arg(&mut v, "default=noprint_wrappers=1:nokey=1");
    push_arg(&mut v, file);
    assert(v.deep_view() =~= seq![
        "-v"@,
        "error"@,
        "-show_entries"@,
        "format=duration"@,
        "-of"@,
        "default=noprint_wrappers=1:nokey=1"@,
        file@,
    ]);
    v
}

/// The entries of a chapter's concat list: its fragments in order, with the
/// silence file between consecutive ones.
pub fn with_silence(files: &Vec<String>, silence: &str) -> (r: Vec<String>)
    ensures
        r.deep_view() == interleave(files.deep_view(), silence@),
{
    let mut r: Vec<String> = Vec::new();
    let mut i: usize = 0;
    while i < files.len()
        invariant
            i <= files.len(),
            r.deep_view() == interleave(files.deep_view().take(i as int), silence@),
        decreases files.len() - i,
    {
        let ghost prev = r.deep_view();
        assert(files.deep_view().take(i + 1).drop_last() =~= files.deep_view().take(i as int));
        if i > 0 {
            push_arg(&mut r, silence);
        }
        push_arg(&mut r, files[i].as_str());
        proof {
            if i == 0 {
                assert(files.deep_view().take(1) =~= seq![files.deep_view()[0]]);
                assert(r.deep_view() =~= seq![files.deep_view()[0]]);
            }
        }
        i = i + 1;
    }
    assert(files.deep_view().take(i as int) =~= files.deep_view());
    r
}

/// The text of a concat list naming `entries` in order.
pub fn concat_list(entries: &Vec<String>) -> (r: String)
    ensures
        r@ == list_text(entries.deep_view()),
{
    let mut out = String::new();
    let mut i: usize = 0;
    while i < entries.len()
        invariant
            i <= entries.len(),
            out@ == list_text(entries.deep_view().take(i as int)),
        decreases entries.len() - i,
    {
        let ghost prev = out@;
        assert(entries.deep_view().take(i + 1).drop_last() =~= entries.deep_view().take(
            i as int,
        ));
        out.append("file '");
        out.append(entries[i].as_str());
        out.append("'\n");
        assert(out@ =~= prev + list_line(entries.deep_view()[i as int]));
        i = i + 1;
    }
    assert(entries.deep_view().take(i as int) =~= entries.deep_view());
    out
}

proof fn lemma_insert_multiset<A>(s: Seq<A>, p: int, x: A)
    requires
        0 <= p <= s.len(),
    ensures
        s.insert(p, x).to_multiset() == s.to_multiset().insert(x),
{
    broadcast use vstd::multiset::group_multiset_axioms;

    let t = s.insert(p, x);
    s.insert_ensures(p, x);
    t.to_multiset_ensures();
    assert(t.remove(p) =~= s);
    assert(t.contains(x));
    assert(t.to_multiset() =~= s.to_multiset().insert(x));
}

/// The chapter files in ascending chapter number; files without one come
/// last.
pub fn order_chapter_files(files: &Vec<String>) -> (r: Vec<String>)
    ensures
        r.deep_view().to_multiset() == files.deep_view().to_multiset(),
        sorted_by_chapter(r.deep_view()),
{
    let mut out: Vec<String> = Vec::new();
    let mut keys: Vec<u32> = Vec::new();
    let mut i: usize = 0;
    proof {
        broadcast use vstd::multiset::group_multiset_axioms;
        assert(files.deep_view().take(0) =~= Seq::<Seq<char>>::empty());
        assert(out.deep_view() =~= Seq::<Seq<char>>::empty());
    }
    while i < files.len()
        invariant
            i <= files.len(),
            keys@.len() == out@.len(),
            forall|j: int| 0 <= j < keys@.len() ==> keys@[j] == chapter_key(#[trigger] out.deep_view()[j]),
            forall|a: int, b: int| 0 <= a < b < keys@.len() ==> #[trigger] keys@[a] <= #[trigger] keys@[b],
            out.deep_view().to_multiset() == files.deep_view().take(i as int).to_multiset(),
        decreases files.len() - i,
    {
        let name = files[i].as_str();
        let k: u32 = match get_chapter_number(name) {
            Some(v) => v,
            None => 4294967295,
        };
        let mut p: usize = 0;
        while p < keys.len() && keys[p] <= k
            invariant
                p <= keys@.len(),
                forall|j: int| 0 <= j < p ==> keys@[j] <= k,
            decreases keys@.len() - p,
        {
            p = p + 1;
        }
        let ghost old_keys = keys@;
        let ghost old_out = out.deep_view();
        out.insert(p, files[i].clone());
        keys.insert(p, k);
        proof {
            old_keys.insert_ensures(p as int, k);
            old_out.insert_ensures(p as int, files.deep_view()[i as int]);
            assert(out.deep_view() =~= old_out.insert(p as int, files.deep_view()[i as int]));
            lemma_insert_multiset(old_out, p as int, files.deep_view()[i as int]);
            files.deep_view().take(i as int).to_multiset_ensures();
            assert(files.deep_view().take(i + 1) =~= files.deep_view().take(i as int).push(
                files.deep_view()[i as int],
            ));
            assert forall|j: int| 0 <= j < keys@.len() implies keys@[j] == chapter_key(
                #[trigger] out.deep_view()[j],
            ) by {
                if j > p {
                    assert(keys@[j] == old_keys[j - 1]);
                    assert(out.deep_view()[j] == old_out[j - 1]);
                }
            }
            assert forall|a: int, b: int| 0 <= a < b < keys@.len() implies #[trigger] keys@[a]
                <= #[trigger] keys@[b] by {
                if a < p && b > p {
                    assert(keys@[b] == old_keys[b - 1]);
                } else if a == p && b > p {
                    assert(keys@[b] == old_keys[b - 1]);
                    assert(old_keys[p as int] <= old_keys[b - 1]);
                } else if a > p {
                    assert(keys@[a] == old_keys[a - 1]);
                    assert(keys@[b] == old_keys[b - 1]);
                }
            }
        }
        i = i + 1;
    }
    assert(files.deep_view().take(i as int) =~= files.deep_view());
    assert forall|a: int, b: int| 0 <= a < b < out.deep_view().len() implies chapter_key(
        #[trigger] out.deep_view()[a],
    ) <= chapter_key(#[trigger] out.deep_view()[b]) by {
        assert(keys@[a] <= keys@[b]);
    }
    out
}

} // verus!
