//! The fragment scheduler: bounded dispatch of paragraph synthesis for one
//! chapter, a slot per paragraph for what came back, and the fragment files
//! of the chapter in paragraph order.
use vstd::prelude::*;
use crate::text::{decimal, decimal_string};
use crate::PipelineError;

verus! {

/// What one synthesis call left behind: nothing (a transport or service
/// error), or a file of the given size in bytes.
#[derive(PartialEq, Eq, Structural, Clone, Copy, Debug)]
pub enum Synthesis {
    Failed,
    Written(u64),
}

/// The state of one paragraph of the chapter.
#[derive(PartialEq, Eq, Structural, Clone, Copy, Debug)]
pub enum Slot {
    Pending,
    Running,
    Kept,
    Dropped,
}

/// The slot a paragraph settles in: a non-empty file is kept, an empty file
/// or a failure leaves no fragment.
pub open spec fn settled_slot(o: Synthesis) -> Slot {
    match o {
        Synthesis::Written(n) => if n > 0 { Slot::Kept } else { Slot::Dropped },
        Synthesis::Failed => Slot::Dropped,
    }
}

pub open spec fn is_settled(s: Slot) -> bool {
    s == Slot::Kept || s == Slot::Dropped
}

/// The number of paragraphs being synthesized.
pub open spec fn running_count(s: Seq<Slot>) -> nat
    decreases s.len(),
{
    if s.len() == 0 {
        0
    } else {
        running_count(s.drop_last()) + if s.last() == Slot::Running { 1nat } else { 0nat }
    }
}

/// The indices of the kept paragraphs, ascending.
pub open spec fn kept_indices(s: Seq<Slot>) -> Seq<int>
    decreases s.len(),
{
    if s.len() == 0 {
        seq![]
    } else if s.last() == Slot::Kept {
        kept_indices(s.drop_last()).push(s.len() - 1)
    } else {
        kept_indices(s.drop_last())
    }
}

/// The slots after the paragraphs of `ev` settle, in the order of `ev`.
pub open spec fn apply_settlements(s: Seq<Slot>, ev: Seq<(int, Synthesis)>) -> Seq<Slot>
    decreases ev.len(),
{
    if ev.len() == 0 {
        s
    } else {
        apply_settlements(s, ev.drop_last()).update(ev.last().0, settled_slot(ev.last().1))
    }
}

/// Each paragraph of `ev` is a paragraph of the chapter and settles once.
pub open spec fn distinct_paragraphs(ev: Seq<(int, Synthesis)>, n: int) -> bool {
    &&& forall|i: int| 0 <= i < ev.len() ==> 0 <= #[trigger] ev[i].0 < n
    &&& forall|i: int, j: int| 0 <= i < j < ev.len() ==> #[trigger] ev[i].0 != #[trigger] ev[j].0
}

/// The fragment file of paragraph number `p` (from 1) of chapter number `c`.
pub open spec fn fragment_name(dir: Seq<char>, c: nat, p: nat) -> Seq<char> {
    dir + "/c"@ + decimal(c) + "_p_"@ + decimal(p) + ".mp3"@
}

/// The file of the chapter with index `c` (from 0).
pub open spec fn chapter_name(dir: Seq<char>, c: nat) -> Seq<char> {
    dir + "/chapter_"@ + decimal(c) + ".m4a"@
}

proof fn lemma_running_count_update(s: Seq<Slot>, i: int, x: Slot)
    requires
        0 <= i < s.len(),
    ensures
        running_count(s.update(i, x)) + (if s[i] == Slot::Running { 1int } else { 0int })
            == running_count(s) + (if x == Slot::Running { 1int } else { 0int }),
    decreases s.len(),
{
    if i < s.len() - 1 {
        lemma_running_count_update(s.drop_last(), i, x);
        assert(s.update(i, x).drop_last() =~= s.drop_last().update(i, x));
    } else {
        assert(s.update(i, x).drop_last() =~= s.drop_last());
    }
}

proof fn lemma_kept_indices_bounded(s: Seq<Slot>)
    ensures
        forall|k: int|
            0 <= k < kept_indices(s).len() ==> 0 <= #[trigger] kept_indices(s)[k] < s.len()
                && s[kept_indices(s)[k]] == Slot::Kept,
        forall|k: int, l: int|
            0 <= k < l < kept_indices(s).len() ==> #[trigger] kept_indices(s)[k]
                < #[trigger] kept_indices(s)[l],
        kept_indices(s).len() == 0 <==> forall|j: int| 0 <= j < s.len() ==> s[j] != Slot::Kept,
    decreases s.len(),
{
    if s.len() > 0 {
        lemma_kept_indices_bounded(s.drop_last());
        if s.last() != Slot::Kept && kept_indices(s).len() == 0 {
            assert forall|j: int| 0 <= j < s.len() implies s[j] != Slot::Kept by {
                if j < s.len() - 1 {
                    assert(s.drop_last()[j] == s[j]);
                }
            }
        }
        if kept_indices(s).len() > 0 && forall|j: int| 0 <= j < s.len() ==> s[j] != Slot::Kept {
            let k = kept_indices(s)[0];
            assert(s[k] == Slot::Kept);
        }
    }
}

proof fn lemma_kept_indices_complete(s: Seq<Slot>)
    ensures
        forall|j: int|
            0 <= j < s.len() && #[trigger] s[j] == Slot::Kept ==> exists|k: int|
                0 <= k < kept_indices(s).len() && kept_indices(s)[k] == j,
    decreases s.len(),
{
    if s.len() > 0 {
        let p = s.drop_last();
        lemma_kept_indices_complete(p);
        assert forall|j: int| 0 <= j < s.len() && #[trigger] s[j] == Slot::Kept implies exists|
            k: int,
        | 0 <= k < kept_indices(s).len() && kept_indices(s)[k] == j by {
            if j < s.len() - 1 {
                assert(p[j] == s[j]);
                let k = choose|k: int| 0 <= k < kept_indices(p).len() && kept_indices(p)[k] == j;
                if s.last() == Slot::Kept {
                    assert(kept_indices(s) == kept_indices(p).push(s.len() - 1));
                    assert(kept_indices(s)[k] == kept_indices(p)[k]);
                } else {
                    assert(kept_indices(s) == kept_indices(p));
                }
                assert(0 <= k < kept_indices(s).len() && kept_indices(s)[k] == j);
            } else {
                assert(kept_indices(s) == kept_indices(p).push(s.len() - 1));
                let k = kept_indices(s).len() - 1;
                assert(0 <= k < kept_indices(s).len() && kept_indices(s)[k] == j);
            }
        }
    }
}

proof fn lemma_apply_value(s: Seq<Slot>, ev: Seq<(int, Synthesis)>, k: int)
    requires
        distinct_paragraphs(ev, s.len() as int),
        0 <= k < s.len(),
    ensures
        apply_settlements(s, ev).len() == s.len(),
        (exists|j: int| 0 <= j < ev.len() && ev[j].0 == k) ==> (forall|j: int|
            0 <= j < ev.len() && ev[j].0 == k ==> apply_settlements(s, ev)[k] == settled_slot(
                #[trigger] ev[j].1,
            )),
        !(exists|j: int| 0 <= j < ev.len() && ev[j].0 == k) ==> apply_settlements(s, ev)[k]
            == s[k],
    decreases ev.len(),
{
    if ev.len() > 0 {
        let pre = ev.drop_last();
        assert(distinct_paragraphs(pre, s.len() as int)) by {
            assert forall|i: int, j: int| 0 <= i < j < pre.len() implies #[trigger] pre[i].0
                != #[trigger] pre[j].0 by {
                assert(pre[i] == ev[i] && pre[j] == ev[j]);
            }
        }
        lemma_apply_value(s, pre, k);
        if ev.last().0 != k {
            if exists|j: int| 0 <= j < ev.len() && ev[j].0 == k {
                let j = choose|j: int| 0 <= j < ev.len() && ev[j].0 == k;
                assert(pre[j] == ev[j]);
            } else {
                assert forall|j: int| 0 <= j < pre.len() implies pre[j].0 != k by {
                    assert(pre[j] == ev[j]);
                }
            }
        } else {
            assert forall|j: int| 0 <= j < ev.len() && ev[j].0 == k implies j == ev.len() - 1 by {
                if j < ev.len() - 1 {
                    assert(ev[j].0 != ev[ev.len() - 1].0);
                }
            }
        }
    }
}

/// Paragraph order does not depend on completion order: two interleavings
/// of the same settlements, each paragraph settling once, leave the same
/// slots, and so the same fragments in the same ascending paragraph order.
pub proof fn settlement_order_is_irrelevant(
    s: Seq<Slot>,
    ev1: Seq<(int, Synthesis)>,
    ev2: Seq<(int, Synthesis)>,
)
    requires
        ev1.to_multiset() == ev2.to_multiset(),
        distinct_paragraphs(ev1, s.len() as int),
        distinct_paragraphs(ev2, s.len() as int),
    ensures
        apply_settlements(s, ev1) == apply_settlements(s, ev2),
        kept_indices(apply_settlements(s, ev1)) == kept_indices(apply_settlements(s, ev2)),
        forall|k: int, l: int|
            0 <= k < l < kept_indices(apply_settlements(s, ev1)).len() ==> #[trigger] kept_indices(
                apply_settlements(s, ev1),
            )[k] < #[trigger] kept_indices(apply_settlements(s, ev1))[l],
{
    ev1.to_multiset_ensures();
    ev2.to_multiset_ensures();
    let a1 = apply_settlements(s, ev1);
    let a2 = apply_settlements(s, ev2);
    assert forall|k: int| 0 <= k < s.len() implies a1[k] == a2[k] by {
        lemma_apply_value(s, ev1, k);
        lemma_apply_value(s, ev2, k);
        if exists|j: int| 0 <= j < ev1.len() && ev1[j].0 == k {
            let j = choose|j: int| 0 <= j < ev1.len() && ev1[j].0 == k;
            assert(ev1.contains(ev1[j]));
            assert(ev1.to_multiset().count(ev1[j]) > 0);
            assert(ev2.to_multiset().count(ev1[j]) > 0);
            assert(ev2.contains(ev1[j]));
            let j2 = choose|j2: int| 0 <= j2 < ev2.len() && ev2[j2] == ev1[j];
            assert(a1[k] == settled_slot(ev1[j].1));
            assert(a2[k] == settled_slot(ev2[j2].1));
        } else if exists|j: int| 0 <= j < ev2.len() && ev2[j].0 == k {
            let j = choose|j: int| 0 <= j < ev2.len() && ev2[j].0 == k;
            assert(ev2.contains(ev2[j]));
            assert(ev2.to_multiset().count(ev2[j]) > 0);
            assert(ev1.to_multiset().count(ev2[j]) > 0);
            assert(ev1.contains(ev2[j]));
            let j1 = choose|j1: int| 0 <= j1 < ev1.len() && ev1[j1] == ev2[j];
            assert(ev1[j1].0 == k);
        }
    }
    if s.len() > 0 {
        lemma_apply_value(s, ev1, 0);
        lemma_apply_value(s, ev2, 0);
    } else {
        if ev1.len() > 0 {
            assert(0 <= ev1[0].0 < s.len());
        }
        if ev2.len() > 0 {
            assert(0 <= ev2[0].0 < s.len());
        }
        assert(ev1 =~= Seq::<(int, Synthesis)>::empty());
        assert(ev2 =~= Seq::<(int, Synthesis)>::empty());
    }
    assert(a1 =~= a2);
    lemma_kept_indices_bounded(a1);
}

/// Output that is empty, or missing, never becomes a fragment: where no
/// paragraph was kept before and every settlement is a failure or an empty
/// file, no paragraph is kept, and the chapter's fragment files are an
/// `AssemblyError`.
pub proof fn empty_outputs_leave_no_fragment(s: Seq<Slot>, ev: Seq<(int, Synthesis)>)
    requires
        distinct_paragraphs(ev, s.len() as int),
        forall|i: int| 0 <= i < s.len() ==> s[i] != Slot::Kept,
        forall|j: int|
            0 <= j < ev.len() ==> (#[trigger] ev[j]).1 == Synthesis::Failed || ev[j].1
                == Synthesis::Written(0),
    ensures
        kept_indices(apply_settlements(s, ev)).len() == 0,
{
    let a = apply_settlements(s, ev);
    if s.len() > 0 {
        lemma_apply_value(s, ev, 0);
    } else if ev.len() > 0 {
        assert(0 <= ev[0].0 < s.len());
    } else {
        assert(ev =~= Seq::<(int, Synthesis)>::empty());
    }
    assert forall|k: int| 0 <= k < a.len() implies a[k] != Slot::Kept by {
        lemma_apply_value(s, ev, k);
        if exists|j: int| 0 <= j < ev.len() && ev[j].0 == k {
            let j = choose|j: int| 0 <= j < ev.len() && ev[j].0 == k;
            assert(ev[j].1 == Synthesis::Failed || ev[j].1 == Synthesis::Written(0));
        }
    }
    lemma_kept_indices_bounded(a);
}

/// Dispatch of the paragraphs of one chapter to at most `limit` concurrent
/// synthesis calls, with a slot per paragraph for what came back.
pub struct FragmentScheduler {
    limit: usize,
    next: usize,
    in_flight: usize,
    slots: Vec<Slot>,
}

impl FragmentScheduler {
    pub closed spec fn slots(&self) -> Seq<Slot> {
        self.slots@
    }

    pub closed spec fn limit(&self) -> nat {
        self.limit as nat
    }

    /// The number of paragraphs dispatched so far.
    pub closed spec fn dispatched(&self) -> nat {
        self.next as nat
    }

    pub closed spec fn wf(&self) -> bool {
        &&& self.limit > 0
        &&& self.next <= self.slots@.len()
        &&& forall|i: int|
            0 <= i < self.slots@.len() ==> (i < self.next <==> #[trigger] self.slots@[i]
                != Slot::Pending)
        &&& self.in_flight == running_count(self.slots@)
        &&& self.in_flight <= self.limit
    }

    /// A scheduler for `paragraphs` paragraphs, all pending, with at most
    /// `limit` calls in flight.
    pub fn new(paragraphs: usize, limit: usize) -> (r: FragmentScheduler)
        requires
            limit > 0,
        ensures
            r.wf(),
            running_count(r.slots()) <= r.limit(),
            r.limit() == limit,
            r.dispatched() == 0,
            r.slots() == Seq::new(paragraphs as nat, |i: int| Slot::Pending),
    {
        let mut slots: Vec<Slot> = Vec::new();
        let mut i: usize = 0;
        while i < paragraphs
            invariant
                i <= paragraphs,
                slots@ =~= Seq::new(i as nat, |k: int| Slot::Pending),
                running_count(slots@) == 0,
            decreases paragraphs - i,
        {
            let ghost prev = slots@;
            slots.push(Slot::Pending);
            assert(slots@.drop_last() =~= prev);
            i = i + 1;
        }
        FragmentScheduler { limit, next: 0, in_flight: 0, slots }
    }

    /// The next paragraph to synthesize, while fewer than `limit` calls are
    /// in flight and some paragraph is still pending; it is then running.
    pub fn dispatch(&mut self) -> (r: Option<usize>)
        requires
            old(self).wf(),
        ensures
            final(self).wf(),
            running_count(final(self).slots()) <= final(self).limit(),
            final(self).limit() == old(self).limit(),
            running_count(old(self).slots()) < old(self).limit() && old(self).dispatched()
                < old(self).slots().len() ==> {
                &&& r == Some(old(self).dispatched() as usize)
                &&& final(self).slots() == old(self).slots().update(
                    old(self).dispatched() as int,
                    Slot::Running,
                )
                &&& final(self).dispatched() == old(self).dispatched() + 1
            },
            !(running_count(old(self).slots()) < old(self).limit() && old(self).dispatched()
                < old(self).slots().len()) ==> r is None && *final(self) == *old(self),
    {
        if self.in_flight < self.limit && self.next < self.slots.len() {
            let p = self.next;
            proof {
                lemma_running_count_update(self.slots@, p as int, Slot::Running);
            }
            self.slots.set(p, Slot::Running);
            self.next = p + 1;
            self.in_flight = self.in_flight + 1;
            Some(p)
        } else {
            None
        }
    }

    /// Records what the synthesis of `paragraph` left behind. Returns whether
    /// the file it wrote is empty and must be deleted.
    pub fn settle(&mut self, paragraph: usize, outcome: Synthesis) -> (delete: bool)
        requires
            old(self).wf(),
            paragraph < old(self).slots().len(),
            old(self).slots()[paragraph as int] == Slot::Running,
        ensures
            final(self).wf(),
            running_count(final(self).slots()) <= final(self).limit(),
            final(self).limit() == old(self).limit(),
            final(self).dispatched() == old(self).dispatched(),
            final(self).slots() == old(self).slots().update(
                paragraph as int,
                settled_slot(outcome),
            ),
            delete == (outcome == Synthesis::Written(0)),
    {
        let slot = match outcome {
            Synthesis::Written(n) => if n > 0 { Slot::Kept } else { Slot::Dropped },
            Synthesis::Failed => Slot::Dropped,
        };
        proof {
            lemma_running_count_update(self.slots@, paragraph as int, slot);
        }
        self.slots.set(paragraph, slot);
        self.in_flight = self.in_flight - 1;
        match outcome {
            Synthesis::Written(n) => n == 0,
            Synthesis::Failed => false,
        }
    }

    /// Whether every paragraph has settled.
    pub fn is_complete(&self) -> (r: bool)
        requires
            self.wf(),
        ensures
            r == forall|i: int| 0 <= i < self.slots().len() ==> is_settled(#[trigger] self.slots()[i]),
    {
        if self.next < self.slots.len() {
            assert(self.slots@[self.next as int] == Slot::Pending);
            assert(!is_settled(self.slots()[self.next as int]));
            return false;
        }
        let mut i: usize = 0;
        while i < self.slots.len()
            invariant
                self.wf(),
                self.next == self.slots@.len(),
                i <= self.slots@.len(),
                forall|k: int| 0 <= k < i ==> is_settled(#[trigger] self.slots@[k]),
            decreases self.slots@.len() - i,
        {
            let slot = self.slots[i];
            if slot == Slot::Running {
                assert(!is_settled(self.slots()[i as int]));
                return false;
            }
            assert(self.slots@[i as int] != Slot::Pending);
            i = i + 1;
        }
        true
    }

    /// The indices of the kept paragraphs, ascending.
    pub fn kept(&self) -> (r: Vec<usize>)
        ensures
            r@.len() == kept_indices(self.slots()).len(),
            forall|k: int| 0 <= k < r@.len() ==> r@[k] == #[trigger] kept_indices(self.slots())[k],
    {
        let mut r: Vec<usize> = Vec::new();
        let mut i: usize = 0;
        while i < self.slots.len()
            invariant
                i <= self.slots@.len(),
                r@.len() == kept_indices(self.slots@.take(i as int)).len(),
                forall|k: int|
                    0 <= k < r@.len() ==> r@[k] == #[trigger] kept_indices(
                        self.slots@.take(i as int),
                    )[k],
            decreases self.slots@.len() - i,
        {
            assert(self.slots@.take(i + 1).drop_last() =~= self.slots@.take(i as int));
            if self.slots[i] == Slot::Kept {
                r.push(i);
            }
            i = i + 1;
        }
        assert(self.slots@.take(i as int) =~= self.slots@);
        r
    }

    /// The fragment files of chapter number `chapter_number`, in paragraph
    /// order, one for each kept paragraph; an `AssemblyError` where no
    /// paragraph left a fragment.
    pub fn fragment_files(&self, dir: &str, chapter_number: u64) -> (r: Result<
        Vec<String>,
        PipelineError,
    >)
        ensures
            kept_indices(self.slots()).len() == 0 <==> r == Err::<Vec<String>, PipelineError>(
                PipelineError::AssemblyError,
            ),
            r is Ok <==> kept_indices(self.slots()).len() > 0,
            forall|k: int, l: int|
                0 <= k < l < kept_indices(self.slots()).len() ==> #[trigger] kept_indices(
                    self.slots(),
                )[k] < #[trigger] kept_indices(self.slots())[l],
            forall|k: int|
                0 <= k < kept_indices(self.slots()).len() ==> self.slots()[#[trigger] kept_indices(
                    self.slots(),
                )[k]] == Slot::Kept,
            forall|j: int|
                0 <= j < self.slots().len() && #[trigger] self.slots()[j] == Slot::Kept ==> exists|
                    k: int,
                | 0 <= k < kept_indices(self.slots()).len() && kept_indices(self.slots())[k] == j,
            r is Ok ==> r->Ok_0@.len() == kept_indices(self.slots()).len() && forall|k: int|
                0 <= k < r->Ok_0@.len() ==> (#[trigger] r->Ok_0@[k])@ == fragment_name(
                    dir@,
                    chapter_number as nat,
                    (kept_indices(self.slots())[k] + 1) as nat,
                ),
    {
        let kept = self.kept();
        proof {
            lemma_kept_indices_bounded(self.slots());
            lemma_kept_indices_complete(self.slots());
        }
        if kept.len() == 0 {
            return Err(PipelineError::AssemblyError);
        }
        let mut names: Vec<String> = Vec::new();
        let mut k: usize = 0;
        while k < kept.len()
            invariant
                k <= kept@.len(),
                kept@.len() == kept_indices(self.slots()).len(),
                forall|j: int| 0 <= j < kept@.len() ==> kept@[j] == #[trigger] kept_indices(self.slots())[j],
                forall|j: int|
                    0 <= j < kept_indices(self.slots()).len() ==> 0 <= #[trigger] kept_indices(
                        self.slots(),
                    )[j] < self.slots().len(),
                self.slots().len() == self.slots@.len(),
                names@.len() == k,
                forall|j: int|
                    0 <= j < k ==> (#[trigger] names@[j])@ == fragment_name(
                        dir@,
                        chapter_number as nat,
                        (kept_indices(self.slots())[j] + 1) as nat,
                    ),
            decreases kept@.len() - k,
        {
            let p = kept[k];
            assert(kept@[k as int] == kept_indices(self.slots())[k as int]);
            assert(0 <= kept_indices(self.slots())[k as int] < self.slots().len());
            let n = self.slots.len();
            assert(p < n);
            let number = (p + 1) as u64;
            names.push(fragment_file_name(dir, chapter_number, number));
            k = k + 1;
        }
        Ok(names)
    }
}

/// The fragment file of paragraph number `paragraph` (from 1) of chapter
/// number `chapter` (from 1), under `dir`.
pub fn fragment_file_name(dir: &str, chapter: u64, paragraph: u64) -> (r: String)
    ensures
        r@ == fragment_name(dir@, chapter as nat, paragraph as nat),
{
    let mut out = String::from_str(dir);
    out.append("/c");
    let c = decimal_string(chapter);
    out.append(c.as_str());
    out.append("_p_");
    let p = decimal_string(paragraph);
    out.append(p.as_str());
    out.append(".mp3");
    out
}

/// The audio file of the chapter with index `chapter` (from 0), under `dir`.
pub fn chapter_file_name(dir: &str, chapter: u64) -> (r: String)
    ensures
        r@ == chapter_name(dir@, chapter as nat),
{
    let mut out = String::from_str(dir);
    out.append("/chapter_");
    let c = decimal_string(chapter);
    out.append(c.as_str());
    out.append(".m4a");
    out
}

/// What to do with one chapter: reuse its audio file from an earlier run,
/// or synthesize its paragraphs.
pub enum ChapterPlan {
    Reuse,
    Synthesize(FragmentScheduler),
}

/// Plans a chapter of `paragraphs` paragraphs. A chapter whose audio file
/// already exists is reused and nothing of it is synthesized again.
pub fn plan_chapter(output_exists: bool, paragraphs: usize, limit: usize) -> (r: ChapterPlan)
    requires
        limit > 0,
    ensures
        output_exists <==> r is Reuse,
        r matches ChapterPlan::Synthesize(s) ==> s.wf() && s.limit() == limit && s.dispatched()
            == 0 && s.slots() == Seq::new(paragraphs as nat, |i: int| Slot::Pending),
{
    if output_exists {
        ChapterPlan::Reuse
    } else {
        ChapterPlan::Synthesize(FragmentScheduler::new(paragraphs, limit))
    }
}

} // verus!
