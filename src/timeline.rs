//! The chapter timeline: cumulative chapter marks and the chapter-marker
//! document that the container muxer reads.
use vstd::prelude::*;
use crate::text::{decimal, decimal_string};

verus! {

/// The sum of a sequence of durations.
pub open spec fn total(d: Seq<u64>) -> int
    decreases d.len(),
{
    if d.len() == 0 {
        0
    } else {
        total(d.drop_last()) + d.last()
    }
}

pub open spec fn clamp(i: int, n: int) -> int {
    if i < n { i } else { n }
}

/// Start of chapter `i`: the durations of the chapters before it.
pub open spec fn mark_start(d: Seq<u64>, i: int) -> int {
    total(d.take(clamp(i, d.len() as int)))
}

/// End of chapter `i`: its start plus its duration; past the known
/// durations, the grand total.
pub open spec fn mark_end(d: Seq<u64>, i: int) -> int {
    total(d.take(clamp(i + 1, d.len() as int)))
}

/// A named interval of the final container, in milliseconds.
pub struct ChapterMark {
    pub title: String,
    pub start_ms: u64,
    pub end_ms: u64,
}

/// One block of the chapter-marker document.
pub open spec fn mark_block(m: ChapterMark) -> Seq<char> {
    "[CHAPTER]\nTIMEBASE=1/1000\nSTART="@ + decimal(m.start_ms as nat) + "\nEND="@ + decimal(
        m.end_ms as nat,
    ) + "\ntitle="@ + m.title@ + "\n"@
}

pub open spec fn mark_blocks(marks: Seq<ChapterMark>) -> Seq<char>
    decreases marks.len(),
{
    if marks.len() == 0 {
        Seq::empty()
    } else {
        mark_blocks(marks.drop_last()) + mark_block(marks.last())
    }
}

/// The chapter-marker document: a fixed header, then one block per mark.
pub open spec fn marker_document(marks: Seq<ChapterMark>) -> Seq<char> {
    ";FFMETADATA1\n"@ + mark_blocks(marks)
}

/// Whether `marks` are the marks of `titles` over the durations `d`.
pub open spec fn marks_of(marks: Seq<ChapterMark>, d: Seq<u64>, titles: Seq<Seq<char>>) -> bool {
    &&& marks.len() == titles.len()
    &&& forall|i: int|
        0 <= i < marks.len() ==> {
            &&& (#[trigger] marks[i]).title@ == titles[i]
            &&& marks[i].start_ms == mark_start(d, i)
            &&& marks[i].end_ms == mark_end(d, i)
        }
}

proof fn lemma_total_prefix_monotone(d: Seq<u64>, j: int, k: int)
    requires
        0 <= j <= k <= d.len(),
    ensures
        0 <= total(d.take(j)) <= total(d.take(k)),
    decreases k - j,
{
    if j < k {
        lemma_total_prefix_monotone(d, j, k - 1);
        assert(d.take(k).drop_last() =~= d.take(k - 1));
    } else {
        lemma_total_nonneg(d.take(j));
    }
}

proof fn lemma_total_nonneg(d: Seq<u64>)
    ensures
        total(d) >= 0,
    decreases d.len(),
{
    if d.len() > 0 {
        lemma_total_nonneg(d.drop_last());
    }
}

/// The marks are contiguous and cover the book: the first starts at 0, each
/// ends where the next starts, none ends before it starts, and the mark of
/// the last duration ends at the sum of all durations.
pub proof fn marks_are_contiguous(d: Seq<u64>)
    ensures
        mark_start(d, 0) == 0,
        forall|i: int| 0 <= i ==> #[trigger] mark_end(d, i) == mark_start(d, i + 1),
        forall|i: int| 0 <= i ==> mark_start(d, i) <= #[trigger] mark_end(d, i),
        d.len() > 0 ==> mark_end(d, d.len() - 1) == total(d),
{
    assert(d.take(0) =~= Seq::<u64>::empty());
    assert forall|i: int| 0 <= i implies mark_start(d, i) <= #[trigger] mark_end(d, i) by {
        lemma_total_prefix_monotone(d, clamp(i, d.len() as int), clamp(i + 1, d.len() as int));
    }
    assert(d.take(d.len() as int) =~= d);
}

/// The sum of `lengths`, where it fits in a `u64`.
pub fn checked_total(lengths: &Vec<u64>) -> (r: Option<u64>)
    ensures
        total(lengths@) <= u64::MAX ==> r == Some(total(lengths@) as u64),
        total(lengths@) > u64::MAX ==> r is None,
{
    let ghost d = lengths@;
    let mut sum: u64 = 0;
    let mut k: usize = 0;
    assert(d.take(0) =~= Seq::<u64>::empty());
    while k < lengths.len()
        invariant
            d == lengths@,
            k <= d.len(),
            sum == total(d.take(k as int)),
        decreases d.len() - k,
    {
        assert(d.take(k + 1).drop_last() =~= d.take(k as int));
        match sum.checked_add(lengths[k]) {
            Some(v) => sum = v,
            None => {
                proof {
                    lemma_total_prefix_monotone(d, k + 1, d.len() as int);
                    assert(d.take(d.len() as int) =~= d);
                }
                return None;
            },
        }
        k = k + 1;
    }
    assert(d.take(d.len() as int) =~= d);
    Some(sum)
}

/// The marks of `names` over the chapter durations `lengths`: a running
/// total starts at 0, chapter `i` spans `[t, t + lengths[i])`, and a name
/// past the last duration ends at the sum of all durations.
pub fn chapter_marks(lengths: &Vec<u64>, names: &Vec<String>) -> (r: Vec<ChapterMark>)
    requires
        total(lengths@) <= u64::MAX,
    ensures
        marks_of(r@, lengths@, names.deep_view()),
{
    let ghost d = lengths@;
    let n = lengths.len();
    let mut sum: u64 = 0;
    let mut k: usize = 0;
    while k < n
        invariant
            n == d.len(),
            d == lengths@,
            k <= n,
            sum == total(d.take(k as int)),
            total(d) <= u64::MAX,
        decreases n - k,
    {
        proof {
            lemma_total_prefix_monotone(d, k + 1, n as int);
            assert(d.take(k + 1).drop_last() =~= d.take(k as int));
            assert(d.take(n as int) =~= d);
        }
        sum = sum + lengths[k];
        k = k + 1;
    }
    assert(d.take(n as int) =~= d);
    let mut marks: Vec<ChapterMark> = Vec::new();
    let mut t: u64 = 0;
    let mut i: usize = 0;
    assert(d.take(0) =~= Seq::<u64>::empty());
    while i < names.len()
        invariant
            n == d.len(),
            d == lengths@,
            sum == total(d),
            total(d) <= u64::MAX,
            i <= names.len(),
            t == mark_start(d, i as int),
            marks@.len() == i,
            forall|j: int|
                0 <= j < i ==> {
                    &&& (#[trigger] marks@[j]).title@ == names.deep_view()[j]
                    &&& marks@[j].start_ms == mark_start(d, j)
                    &&& marks@[j].end_ms == mark_end(d, j)
                },
        decreases names.len() - i,
    {
        let end: u64;
        if i < n {
            proof {
                lemma_total_prefix_monotone(d, i + 1, n as int);
                assert(d.take(i + 1).drop_last() =~= d.take(i as int));
                assert(d.take(n as int) =~= d);
            }
            end = t + lengths[i];
        } else {
            end = sum;
            assert(d.take(n as int) =~= d);
        }
        marks.push(ChapterMark { title: names[i].clone(), start_ms: t, end_ms: end });
        t = end;
        i = i + 1;
    }
    marks
}

/// The chapter-marker document for `marks`.
pub fn render_marks(marks: &Vec<ChapterMark>) -> (r: String)
    ensures
        r@ == marker_document(marks@),
{
    let mut out = String::from_str(";FFMETADATA1\n");
    let mut i: usize = 0;
    while i < marks.len()
        invariant
            i <= marks@.len(),
            out@ == ";FFMETADATA1\n"@ + mark_blocks(marks@.take(i as int)),
        decreases marks@.len() - i,
    {
        let m = &marks[i];
        let ghost before = out@;
        out.append("[CHAPTER]\nTIMEBASE=1/1000\nSTART=");
        let s = decimal_string(m.start_ms);
        out.append(s.as_str());
        out.append("\nEND=");
        let e = decimal_string(m.end_ms);
        out.append(e.as_str());
        out.append("\ntitle=");
        out.append(m.title.as_str());
        out.append("\n");
        assert(marks@.take(i + 1).drop_last() =~= marks@.take(i as int));
        assert(out@ =~= before + mark_block(marks@[i as int]));
        i = i + 1;
    }
    assert(marks@.take(i as int) =~= marks@);
    out
}

/// The chapter-marker document for the chapters `names` with durations
/// `lengths`, in milliseconds.
pub fn create_chapter_file(lengths: &Vec<u64>, names: &Vec<String>) -> (r: String)
    requires
        total(lengths@) <= u64::MAX,
    ensures
        exists|marks: Seq<ChapterMark>|
            marks_of(marks, lengths@, names.deep_view()) && r@ == marker_document(marks),
{
    let marks = chapter_marks(lengths, names);
    render_marks(&marks)
}

} // verus!
