//! The batch: which directory entries become work, and how the results of the
//! workers, arriving in any order, become one entry per image.
use vstd::prelude::*;
use crate::catalog::texts;
use crate::paths::{normalize_separators, with_forward_slashes};

verus! {

/// An entry of the input directory, as listed: its path and whether it is a
/// regular file (not a directory, not a symbolic link).
pub struct DirEntry {
    pub path: String,
    pub is_file: bool,
}

/// The paths of the regular files among `e`, in listing order, with forward
/// slashes.
pub open spec fn image_paths(e: Seq<DirEntry>) -> Seq<Seq<char>>
    decreases e.len(),
{
    if e.len() == 0 {
        seq![]
    } else if e.last().is_file {
        image_paths(e.drop_last()).push(with_forward_slashes(e.last().path@))
    } else {
        image_paths(e.drop_last())
    }
}

/// The number of regular files among `e`.
pub open spec fn count_files(e: Seq<DirEntry>) -> nat
    decreases e.len(),
{
    if e.len() == 0 {
        0
    } else if e.last().is_file {
        count_files(e.drop_last()) + 1
    } else {
        count_files(e.drop_last())
    }
}

/// The state of one image in a batch: its path, and its labels once its worker
/// has reported (`None` while it has not).
pub type SlotView = (Seq<char>, Option<Seq<Seq<char>>>);

/// What a worker's report makes of an image's labels: the labels found, or none
/// where processing failed (`None`).
pub open spec fn outcome_labels(o: Option<Seq<Seq<char>>>) -> Seq<Seq<char>> {
    match o {
        Some(l) => l,
        None => seq![],
    }
}

/// The view of a worker's report.
pub open spec fn outcome_view(o: Option<Vec<String>>) -> Option<Seq<Seq<char>>> {
    match o {
        Some(l) => Some(texts(l@)),
        None => None,
    }
}

/// A batch of `paths` before any worker has reported.
pub open spec fn pending_batch(paths: Seq<Seq<char>>) -> Seq<SlotView> {
    paths.map_values(|p: Seq<char>| (p, None::<Seq<Seq<char>>>))
}

/// Batch `v` after the worker of image `i` reported outcome `o`.
pub open spec fn recorded(v: Seq<SlotView>, i: int, o: Option<Seq<Seq<char>>>) -> Seq<SlotView> {
    v.update(i, (v[i].0, Some(outcome_labels(o))))
}

/// Batch `v` after the reports `ev` (image index and outcome), in that order.
pub open spec fn record_all(v: Seq<SlotView>, ev: Seq<(int, Option<Seq<Seq<char>>>)>) -> Seq<
    SlotView,
>
    decreases ev.len(),
{
    if ev.len() == 0 {
        v
    } else {
        recorded(record_all(v, ev.drop_last()), ev.last().0, ev.last().1)
    }
}

/// The final result of batch `v`: each image's path with its labels, in batch
/// order; an image with no usable report has no labels.
pub open spec fn batch_result(v: Seq<SlotView>) -> Seq<(Seq<char>, Seq<Seq<char>>)> {
    v.map_values(
        |s: SlotView|
            (s.0, match s.1 {
                Some(l) => l,
                None => seq![],
            }),
    )
}

/// Whether reports `ev` all name images of a batch of `n`.
pub open spec fn reports_in_batch(ev: Seq<(int, Option<Seq<Seq<char>>>)>, n: int) -> bool {
    forall|j: int| 0 <= j < ev.len() ==> 0 <= #[trigger] ev[j].0 < n
}

/// Whether reports `ev` name images of a batch of `n`, each at most once.
pub open spec fn valid_reports(ev: Seq<(int, Option<Seq<Seq<char>>>)>, n: int) -> bool {
    &&& reports_in_batch(ev, n)
    &&& forall|j: int, k: int| 0 <= j < k < ev.len() ==> #[trigger] ev[j].0 != #[trigger] ev[k].0
}

/// The view of the final result as returned.
pub open spec fn result_view(r: Seq<(String, Vec<String>)>) -> Seq<(Seq<char>, Seq<Seq<char>>)> {
    r.map_values(|e: (String, Vec<String>)| (e.0@, texts(e.1@)))
}

/// Collects the results of a batch as its workers report them.
pub struct BatchCollector {
    slots: Vec<(String, Option<Vec<String>>)>,
}

impl View for BatchCollector {
    type V = Seq<SlotView>;

    closed spec fn view(&self) -> Seq<SlotView> {
        self.slots@.map_values(
            |s: (String, Option<Vec<String>>)|
                (s.0@, match s.1 {
                    Some(l) => Some(texts(l@)),
                    None => None,
                }),
        )
    }
}

/// A copy of `v`.
fn copy_strings(v: &Vec<String>) -> (r: Vec<String>)
    ensures
        texts(r@) == texts(v@),
{
    let mut r: Vec<String> = Vec::new();
    let mut i: usize = 0;
    while i < v.len()
        invariant
            i <= v@.len(),
            texts(r@) == texts(v@.subrange(0, i as int)),
        decreases v@.len() - i,
    {
        let ghost old_r = r@;
        r.push(v[i].clone());
        proof {
            assert(v@.subrange(0, i + 1) =~= v@.subrange(0, i as int).push(v@[i as int]));
            assert(texts(r@) =~= texts(old_r).push(v@[i as int]@));
            assert(texts(v@.subrange(0, i + 1)) =~= texts(v@.subrange(0, i as int)).push(
                v@[i as int]@,
            ));
        }
        i = i + 1;
    }
    proof {
        assert(v@.subrange(0, i as int) =~= v@);
    }
    r
}

/// The paths of the regular files among `entries`, in listing order and with
/// forward slashes: one unit of work each.
pub fn select_images(entries: &Vec<DirEntry>) -> (r: Vec<String>)
    ensures
        texts(r@) == image_paths(entries@),
{
    let mut r: Vec<String> = Vec::new();
    let mut i: usize = 0;
    while i < entries.len()
        invariant
            i <= entries@.len(),
            texts(r@) == image_paths(entries@.subrange(0, i as int)),
        decreases entries@.len() - i,
    {
        let ghost old_r = r@;
        proof {
            let s = entries@.subrange(0, i + 1);
            assert(s.drop_last() =~= entries@.subrange(0, i as int));
            assert(s.last() == entries@[i as int]);
        }
        if entries[i].is_file {
            r.push(normalize_separators(entries[i].path.as_str()));
            proof {
                assert(texts(r@) =~= texts(old_r).push(
                    with_forward_slashes(entries@[i as int].path@),
                ));
            }
        }
        i = i + 1;
    }
    proof {
        assert(entries@.subrange(0, i as int) =~= entries@);
    }
    r
}

impl BatchCollector {
    /// A batch of `paths`, none of them reported yet.
    pub fn new(paths: Vec<String>) -> (r: BatchCollector)
        ensures
            r@ == pending_batch(texts(paths@)),
    {
        let mut slots: Vec<(String, Option<Vec<String>>)> = Vec::new();
        let mut i: usize = 0;
        while i < paths.len()
            invariant
                i <= paths@.len(),
                slots@.len() == i,
                forall|k: int|
                    0 <= k < i ==> (#[trigger] slots@[k]).0@ == paths@[k]@ && slots@[k].1.is_none(),
            decreases paths@.len() - i,
        {
            slots.push((paths[i].clone(), None));
            i = i + 1;
        }
        let r = BatchCollector { slots };
        proof {
            assert(r@ =~= pending_batch(texts(paths@)));
        }
        r
    }

    /// Number of images in the batch.
    pub fn len(&self) -> (r: usize)
        ensures
            r == self@.len(),
    {
        self.slots.len()
    }

    /// Records the report of the worker of image `index`: the labels it found, or
    /// `None` where processing that image failed, which leaves it with no labels.
    pub fn record(&mut self, index: usize, outcome: Option<Vec<String>>)
        requires
            index < old(self)@.len(),
        ensures
            final(self)@ == recorded(old(self)@, index as int, outcome_view(outcome)),
    {
        let ghost o = outcome_view(outcome);
        let labels = match outcome {
            Some(l) => l,
            None => Vec::new(),
        };
        proof {
            assert(texts(labels@) =~= outcome_labels(o));
        }
        let path = self.slots[index].0.clone();
        let ghost old_view = self@;
        self.slots.set(index, (path, Some(labels)));
        proof {
            assert(self@ =~= recorded(old_view, index as int, o));
        }
    }

    /// Whether every image of the batch has been reported.
    pub fn is_complete(&self) -> (r: bool)
        ensures
            r == forall|k: int| 0 <= k < self@.len() ==> (#[trigger] self@[k]).1.is_some(),
    {
        let mut i: usize = 0;
        while i < self.slots.len()
            invariant
                i <= self@.len(),
                self@.len() == self.slots@.len(),
                forall|k: int| 0 <= k < i ==> (#[trigger] self@[k]).1.is_some(),
            decreases self.slots@.len() - i,
        {
            if self.slots[i].1.is_none() {
                assert(self@[i as int].1.is_none());
                return false;
            }
            i = i + 1;
        }
        true
    }

    /// The result of the batch: one entry per image, in batch order, with the
    /// labels reported for it; an image whose processing failed, or that was never
    /// reported, has an empty list.
    pub fn finish(self) -> (r: Vec<(String, Vec<String>)>)
        ensures
            result_view(r@) == batch_result(self@),
    {
        let mut r: Vec<(String, Vec<String>)> = Vec::new();
        let mut i: usize = 0;
        while i < self.slots.len()
            invariant
                i <= self.slots@.len(),
                self@.len() == self.slots@.len(),
                result_view(r@) == batch_result(self@.subrange(0, i as int)),
            decreases self.slots@.len() - i,
        {
            let ghost old_r = r@;
            let labels = match &self.slots[i].1 {
                Some(l) => copy_strings(l),
                None => Vec::new(),
            };
            proof {
                assert(texts(labels@) =~= batch_result(self@)[i as int].1);
            }
            r.push((self.slots[i].0.clone(), labels));
            proof {
                assert(self@.subrange(0, i + 1) =~= self@.subrange(0, i as int).push(
                    self@[i as int],
                ));
                assert(result_view(r@) =~= result_view(old_r).push(
                    (self@[i as int].0, texts(labels@)),
                ));
                assert(batch_result(self@.subrange(0, i + 1)) =~= batch_result(
                    self@.subrange(0, i as int),
                ).push(batch_result(self@)[i as int]));
            }
            i = i + 1;
        }
        proof {
            assert(self@.subrange(0, i as int) =~= self@);
        }
        r
    }
}

proof fn lemma_image_paths_len(e: Seq<DirEntry>)
    ensures
        image_paths(e).len() == count_files(e),
    decreases e.len(),
{
    if e.len() > 0 {
        lemma_image_paths_len(e.drop_last());
    }
}

proof fn lemma_valid_reports_prefix(ev: Seq<(int, Option<Seq<Seq<char>>>)>, n: int)
    requires
        valid_reports(ev, n),
        ev.len() > 0,
    ensures
        valid_reports(ev.drop_last(), n),
        forall|j: int| 0 <= j < ev.len() - 1 ==> #[trigger] ev[j].0 != ev.last().0,
{
    assert forall|j: int| 0 <= j < ev.len() - 1 implies #[trigger] ev[j].0 != ev.last().0 by {
        assert(ev[j].0 != ev[ev.len() - 1].0);
    }
    let d = ev.drop_last();
    assert forall|j: int, k: int| 0 <= j < k < d.len() implies #[trigger] d[j].0
        != #[trigger] d[k].0 by {
        assert(ev[j].0 != ev[k].0);
    }
    assert forall|j: int| 0 <= j < d.len() implies 0 <= #[trigger] d[j].0 < n by {
        assert(d[j] == ev[j]);
    }
}

/// Reports naming images of the batch keep its size and every path.
proof fn lemma_record_all_paths(v: Seq<SlotView>, ev: Seq<(int, Option<Seq<Seq<char>>>)>)
    requires
        reports_in_batch(ev, v.len() as int),
    ensures
        record_all(v, ev).len() == v.len(),
        forall|k: int| 0 <= k < v.len() ==> (#[trigger] record_all(v, ev)[k]).0 == v[k].0,
    decreases ev.len(),
{
    if ev.len() > 0 {
        let d = ev.drop_last();
        assert forall|j: int| 0 <= j < d.len() implies 0 <= #[trigger] d[j].0 < v.len() by {
            assert(d[j] == ev[j]);
        }
        lemma_record_all_paths(v, d);
        assert(0 <= ev[ev.len() - 1].0 < v.len());
    }
}

/// What a batch holds after reports naming each image at most once: every path is
/// kept, each reported image holds the labels of its report, and every other
/// image is as before.
proof fn lemma_record_all(v: Seq<SlotView>, ev: Seq<(int, Option<Seq<Seq<char>>>)>)
    requires
        valid_reports(ev, v.len() as int),
    ensures
        record_all(v, ev).len() == v.len(),
        forall|k: int| 0 <= k < v.len() ==> (#[trigger] record_all(v, ev)[k]).0 == v[k].0,
        forall|j: int|
            0 <= j < ev.len() ==> record_all(v, ev)[#[trigger] ev[j].0].1 == Some(
                outcome_labels(ev[j].1),
            ),
        forall|k: int|
            0 <= k < v.len() && (forall|j: int| 0 <= j < ev.len() ==> #[trigger] ev[j].0 != k)
                ==> record_all(v, ev)[k] == v[k],
    decreases ev.len(),
{
    lemma_record_all_paths(v, ev);
    if ev.len() > 0 {
        let d = ev.drop_last();
        lemma_valid_reports_prefix(ev, v.len() as int);
        lemma_record_all(v, d);
        let prev = record_all(v, d);
        let r = record_all(v, ev);
        assert(r == recorded(prev, ev.last().0, ev.last().1));
        assert forall|j: int| 0 <= j < ev.len() implies r[#[trigger] ev[j].0].1 == Some(
            outcome_labels(ev[j].1),
        ) by {
            if j < ev.len() - 1 {
                assert(d[j] == ev[j]);
                assert(ev[j].0 != ev.last().0);
            }
        }
        assert forall|k: int|
            0 <= k < v.len() && (forall|j: int| 0 <= j < ev.len() ==> #[trigger] ev[j].0 != k)
                implies r[k] == v[k] by {
            assert(ev[ev.len() - 1].0 != k);
            assert forall|j: int| 0 <= j < d.len() implies #[trigger] d[j].0 != k by {
                assert(d[j] == ev[j]);
            }
        }
    }
}

/// Every regular file of the input directory has exactly one entry in the
/// result, in listing order, whatever the workers reported, in whatever order,
/// and however often each image was reported.
pub proof fn law_one_entry_per_file(
    entries: Seq<DirEntry>,
    ev: Seq<(int, Option<Seq<Seq<char>>>)>,
)
    requires
        reports_in_batch(ev, count_files(entries) as int),
    ensures
        batch_result(record_all(pending_batch(image_paths(entries)), ev)).len() == count_files(
            entries,
        ),
        forall|k: int|
            0 <= k < count_files(entries) ==> (#[trigger] batch_result(
                record_all(pending_batch(image_paths(entries)), ev),
            )[k]).0 == image_paths(entries)[k],
{
    lemma_image_paths_len(entries);
    lemma_record_all_paths(pending_batch(image_paths(entries)), ev);
}

/// An image whose processing failed keeps its entry in the result, with no
/// labels.
pub proof fn law_failed_image_kept(
    v: Seq<SlotView>,
    ev: Seq<(int, Option<Seq<Seq<char>>>)>,
    j: int,
)
    requires
        valid_reports(ev, v.len() as int),
        0 <= j < ev.len(),
        ev[j].1 is None,
    ensures
        batch_result(record_all(v, ev)).len() == v.len(),
        batch_result(record_all(v, ev))[ev[j].0] == (v[ev[j].0].0, Seq::<Seq<char>>::empty()),
{
    lemma_record_all(v, ev);
}

/// The result of a batch depends on which reports came, not on the order in which
/// they came: a single worker and a pool of any size give the same result.
pub proof fn law_report_order_irrelevant(
    v: Seq<SlotView>,
    ev1: Seq<(int, Option<Seq<Seq<char>>>)>,
    ev2: Seq<(int, Option<Seq<Seq<char>>>)>,
)
    requires
        valid_reports(ev1, v.len() as int),
        valid_reports(ev2, v.len() as int),
        forall|e: (int, Option<Seq<Seq<char>>>)| ev1.contains(e) <==> ev2.contains(e),
    ensures
        record_all(v, ev1) == record_all(v, ev2),
        batch_result(record_all(v, ev1)) == batch_result(record_all(v, ev2)),
{
    lemma_record_all(v, ev1);
    lemma_record_all(v, ev2);
    let r1 = record_all(v, ev1);
    let r2 = record_all(v, ev2);
    assert forall|k: int| 0 <= k < v.len() implies r1[k] == r2[k] by {
        if exists|j: int| 0 <= j < ev1.len() && #[trigger] ev1[j].0 == k {
            let j = choose|j: int| 0 <= j < ev1.len() && #[trigger] ev1[j].0 == k;
            assert(ev1.contains(ev1[j]));
            assert(ev2.contains(ev1[j]));
            let j2 = choose|j2: int| 0 <= j2 < ev2.len() && ev2[j2] == ev1[j];
            assert(ev2[j2].0 == k);
        } else if exists|j: int| 0 <= j < ev2.len() && #[trigger] ev2[j].0 == k {
            let j = choose|j: int| 0 <= j < ev2.len() && #[trigger] ev2[j].0 == k;
            assert(ev2.contains(ev2[j]));
            assert(ev1.contains(ev2[j]));
            let j1 = choose|j1: int| 0 <= j1 < ev1.len() && ev1[j1] == ev2[j];
            assert(ev1[j1].0 == k);
        }
    }
    assert(r1 =~= r2);
}

} // verus!
