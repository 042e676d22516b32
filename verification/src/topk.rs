//! The bounded top-K collection and its theory.
//!
//! Every selection strategy maintains, or ends in, a sequence that satisfies
//! `is_topk`: the best `k` positively scored candidate documents, in strictly
//! descending order with ties broken by row index. The predicate pins the
//! answer down uniquely (`lemma_topk_unique`), which is what makes the
//! sequential, full-sort and partitioned strategies agree.

use vstd::prelude::*;

use vstd::set_lib::{lemma_int_range, lemma_len_subset, set_int_range};

use crate::rank_result::{rr_before, rr_beq, RankResult};
use crate::score::{positive, score_key};

verus! {

/// The result standing for document `i` of the score sequence `s`.
pub open spec fn entry_of(s: Seq<u32>, i: int) -> RankResult {
    RankResult { doc_id: i as usize, score: s[i] }
}

/// Document `i` appears among the results.
pub open spec fn in_results(r: Seq<RankResult>, i: int) -> bool {
    exists|j: int| 0 <= j < r.len() && (#[trigger] r[j]).doc_id as int == i
}

/// A result is well formed for candidate set `cand` over scores `s`: it
/// names a candidate document, carries that document's score, and the
/// score is positive.
pub open spec fn entry_ok(s: Seq<u32>, cand: Set<int>, e: RankResult) -> bool {
    &&& cand.contains(e.doc_id as int)
    &&& e.doc_id < s.len()
    &&& e.score == s[e.doc_id as int]
    &&& positive(e.score)
}

/// `r` is the bounded top-`k` of the candidate documents `cand` scored by
/// `s`: well-formed entries in strictly descending order, at most `k` of
/// them, and a positively scored candidate is left out only when `r` is
/// full and even its worst entry beats the outsider.
pub open spec fn is_topk(s: Seq<u32>, cand: Set<int>, k: int, r: Seq<RankResult>) -> bool {
    &&& forall|j: int| 0 <= j < r.len() ==> entry_ok(s, cand, #[trigger] r[j])
    &&& forall|j1: int, j2: int|
        0 <= j1 < j2 < r.len() ==> rr_before(#[trigger] r[j1], #[trigger] r[j2])
    &&& r.len() <= k
    &&& forall|i: int|
        #[trigger] cand.contains(i) && 0 <= i < s.len() && positive(s[i]) && !in_results(r, i)
            ==> r.len() == k && (k > 0 ==> rr_before(r[k - 1], entry_of(s, i)))
}

/// In a strictly descending sequence of well-formed entries, row indices
/// never repeat: two entries for one row would carry one score and tie.
pub(crate) proof fn lemma_entries_distinct(s: Seq<u32>, cand: Set<int>, k: int, r: Seq<RankResult>)
    requires
        is_topk(s, cand, k, r),
    ensures
        forall|j1: int, j2: int|
            0 <= j1 < r.len() && 0 <= j2 < r.len() && j1 != j2 ==> (#[trigger] r[j1]).doc_id != (
            #[trigger] r[j2]).doc_id,
{
    assert forall|j1: int, j2: int|
        0 <= j1 < r.len() && 0 <= j2 < r.len() && j1 != j2 implies (#[trigger] r[j1]).doc_id != (
    #[trigger] r[j2]).doc_id by {
        if r[j1].doc_id == r[j2].doc_id {
            assert(r[j1] == r[j2]);
        }
    }
}

/// Admits one new candidate document into a bounded top-`k` collection:
/// kept sorted, a positive newcomer is inserted in order, and when the
/// collection overflows its worst entry is evicted.
pub(crate) fn topk_insert(
    heap: &mut Vec<RankResult>,
    doc_id: usize,
    score: u32,
    k: usize,
    Ghost(s): Ghost<Seq<u32>>,
    Ghost(cand): Ghost<Set<int>>,
)
    requires
        is_topk(s, cand, k as int, old(heap)@),
        doc_id < s.len(),
        s[doc_id as int] == score,
        !cand.contains(doc_id as int),
    ensures
        is_topk(s, cand.insert(doc_id as int), k as int, final(heap)@),
{
    let ghost h = heap@;
    let ghost cand2 = cand.insert(doc_id as int);
    let new = RankResult { doc_id, score };
    proof {
        assert(entry_of(s, doc_id as int) == new);
    }
    if !(score_key(score) > score_key(0)) {
        // A score at or below zero is never admitted; nothing changes.
        proof {
            assert forall|i: int|
                cand2.contains(i) && 0 <= i < s.len() && positive(s[i]) && !in_results(h, i)
                    implies h.len() == k && (k > 0 ==> rr_before(h[k - 1], entry_of(s, i))) by {
                assert(i != doc_id as int);
                assert(cand.contains(i));
            }
        }
        return ;
    }
    if k == 0 {
        return ;
    }
    let idx: usize = find_insert_pos(heap, &new);
    proof {
        if idx < h.len() {
            assert(!rr_before(h[idx as int], new));
            assert(h[idx as int].doc_id != doc_id);
            assert(rr_before(new, h[idx as int]));
        }
    }
    if idx == heap.len() {
        if heap.len() < k {
            heap.push(new);
            proof {
                lemma_entries_distinct(s, cand, k as int, h);
                let hn = heap@;
                assert(hn == h.push(new));
                assert(hn[h.len() as int] == new);
                assert(in_results(hn, doc_id as int));
                assert forall|i: int| in_results(h, i) implies in_results(hn, i) by {
                    let j = choose|j: int| 0 <= j < h.len() && (#[trigger] h[j]).doc_id as int == i;
                    assert(hn[j] == h[j]);
                }
                assert forall|i: int|
                    cand2.contains(i) && 0 <= i < s.len() && positive(s[i]) && !in_results(hn, i)
                        implies hn.len() == k && (k > 0 ==> rr_before(hn[k - 1], entry_of(s, i))) by {
                    assert(i != doc_id as int);
                    assert(cand.contains(i));
                    assert(!in_results(h, i));
                }
            }
        } else {
            // Full, and every kept entry beats the newcomer: it is skipped.
            proof {
                assert(h.len() == k);
                assert(rr_before(h[k - 1], new));
                assert forall|i: int|
                    cand2.contains(i) && 0 <= i < s.len() && positive(s[i]) && !in_results(h, i)
                        implies h.len() == k && (k > 0 ==> rr_before(h[k - 1], entry_of(s, i))) by {
                    if i != doc_id as int {
                        assert(cand.contains(i));
                    }
                }
            }
        }
    } else {
        heap.insert(idx, new);
        let ghost hi = heap@;
        proof {
            lemma_entries_distinct(s, cand, k as int, h);
            assert(hi == h.insert(idx as int, new));
            assert(hi[idx as int] == new);
            assert(forall|j: int| 0 <= j < idx ==> hi[j] == h[j]);
            assert(forall|j: int| idx < j < hi.len() ==> hi[j] == h[j - 1]);
            // The widened collection is still strictly sorted.
            assert forall|j1: int, j2: int| 0 <= j1 < j2 < hi.len() implies rr_before(
                #[trigger] hi[j1],
                #[trigger] hi[j2],
            ) by {
                if j1 == idx as int {
                    if j2 > idx as int + 1 {
                        assert(rr_before(h[idx as int], h[j2 - 1]));
                    }
                } else if j2 == idx as int {
                    assert(rr_before(h[j1], new));
                }
            }
            assert(in_results(hi, doc_id as int));
            assert forall|i: int| in_results(h, i) implies in_results(hi, i) by {
                let j = choose|j: int| 0 <= j < h.len() && #[trigger] h[j].doc_id as int == i;
                if j < idx as int {
                    assert(hi[j].doc_id as int == i);
                } else {
                    assert(hi[j + 1].doc_id as int == i);
                }
            }
        }
        if heap.len() > k {
            let _popped = heap.pop();
            proof {
                let hn = heap@;
                assert(h.len() == k);
                assert(hn == hi.subrange(0, k as int));
                assert(hi[k as int] == h[k as int - 1]);
                // The newcomer survives the eviction.
                assert(hn[idx as int] == new);
                assert(in_results(hn, doc_id as int));
                // Entries other than the evicted last one survive.
                assert forall|i: int|
                    in_results(h, i) && i != h[k as int - 1].doc_id as int implies in_results(
                    hn,
                    i,
                ) by {
                    let j = choose|j: int| 0 <= j < h.len() && #[trigger] h[j].doc_id as int == i;
                    if j < idx as int {
                        assert(hn[j].doc_id as int == i);
                    } else {
                        assert(j < k - 1);
                        assert(hn[j + 1].doc_id as int == i);
                    }
                }
                // The new worst entry beats the evicted one...
                assert(rr_before(hn[k as int - 1], h[k as int - 1]));
                // ...and `h`'s worst entry dominated everything excluded.
                assert forall|i: int|
                    cand2.contains(i) && 0 <= i < s.len() && positive(s[i]) && !in_results(hn, i)
                        implies hn.len() == k && (k > 0 ==> rr_before(hn[k - 1], entry_of(s, i))) by {
                    assert(hn.len() == k);
                    if i == h[k as int - 1].doc_id as int {
                        assert(entry_of(s, i) == h[k as int - 1]);
                    } else if i == doc_id as int {
                        assert(false);
                    } else {
                        assert(cand.contains(i));
                        assert(!in_results(h, i));
                        assert(rr_before(h[k as int - 1], entry_of(s, i)));
                    }
                }
            }
        } else {
            proof {
                let hn = heap@;
                assert(hn == hi);
                assert(h.len() < k);
                assert forall|i: int|
                    cand2.contains(i) && 0 <= i < s.len() && positive(s[i]) && !in_results(hn, i)
                        implies hn.len() == k && (k > 0 ==> rr_before(hn[k - 1], entry_of(s, i))) by {
                    assert(i != doc_id as int);
                    assert(cand.contains(i));
                    assert(!in_results(h, i));
                }
            }
        }
    }
}

/// Finds where a probe belongs in a strictly descending collection: the
/// first position whose entry does not come before the probe.
fn find_insert_pos(heap: &Vec<RankResult>, probe: &RankResult) -> (idx: usize)
    ensures
        0 <= idx <= heap@.len(),
        forall|j: int| 0 <= j < idx ==> rr_before(#[trigger] heap@[j], *probe),
        idx < heap@.len() ==> !rr_before(heap@[idx as int], *probe),
{
    let n: usize = heap.len();
    let mut idx: usize = 0;
    while idx < n
        invariant
            0 <= idx <= n,
            n == heap@.len(),
            forall|j: int| 0 <= j < idx ==> rr_before(#[trigger] heap@[j], *probe),
        decreases n - idx,
    {
        if !crate::rank_result::rr_before_exec(&heap[idx], probe) {
            return idx;
        }
        idx = idx + 1;
    }
    idx
}

/// A strictly descending sequence whose entries all occur in another
/// strictly descending sequence is no longer than it.
proof fn lemma_sorted_contained_len(a: Seq<RankResult>, b: Seq<RankResult>)
    requires
        forall|j1: int, j2: int|
            0 <= j1 < j2 < a.len() ==> rr_before(#[trigger] a[j1], #[trigger] a[j2]),
        forall|j1: int, j2: int|
            0 <= j1 < j2 < b.len() ==> rr_before(#[trigger] b[j1], #[trigger] b[j2]),
        forall|j: int| 0 <= j < a.len() ==> b.contains(#[trigger] a[j]),
    ensures
        a.len() <= b.len(),
    decreases a.len(),
{
    if a.len() > 0 {
        assert(b.contains(a[0]));
        let p = choose|p: int| 0 <= p < b.len() && b[p] == a[0];
        let a2 = a.subrange(1, a.len() as int);
        let b2 = b.subrange(p + 1, b.len() as int);
        assert forall|j: int| 0 <= j < a2.len() implies b2.contains(#[trigger] a2[j]) by {
            assert(a2[j] == a[j + 1]);
            assert(b.contains(a[j + 1]));
            let q = choose|q: int| 0 <= q < b.len() && b[q] == a[j + 1];
            assert(rr_before(a[0], a[j + 1]));
            if q < p {
                assert(rr_before(b[q], b[p]));
                assert(false);
            }
            if q == p {
                assert(false);
            }
            assert(b2[q - p - 1] == a[j + 1]);
        }
        lemma_sorted_contained_len(a2, b2);
    }
}

/// The first entry of a top-`k` collection comes no later than any
/// well-formed candidate entry.
proof fn lemma_head_dominates(s: Seq<u32>, cand: Set<int>, k: int, r: Seq<RankResult>, e: RankResult)
    requires
        is_topk(s, cand, k, r),
        entry_ok(s, cand, e),
        r.len() > 0,
    ensures
        rr_beq(r[0], e),
{
    let d = e.doc_id as int;
    assert(entry_of(s, d) == e);
    if in_results(r, d) {
        let j = choose|j: int| 0 <= j < r.len() && (#[trigger] r[j]).doc_id as int == d;
        assert(entry_ok(s, cand, r[j]));
        assert(r[j] == e);
        if j > 0 {
            assert(rr_before(r[0], r[j]));
        }
    } else {
        assert(r.len() == k);
        assert(rr_before(r[k - 1], e));
        if k - 1 > 0 {
            assert(rr_before(r[0], r[k - 1]));
        }
    }
}

/// Removing the first entry of a top-`k` collection leaves the top of the
/// remaining candidates, one slot smaller.
proof fn lemma_topk_tail(s: Seq<u32>, cand: Set<int>, k: int, r: Seq<RankResult>)
    requires
        is_topk(s, cand, k, r),
        r.len() > 0,
    ensures
        is_topk(
            s,
            cand.remove(r[0].doc_id as int),
            k - 1,
            r.subrange(1, r.len() as int),
        ),
{
    lemma_entries_distinct(s, cand, k, r);
    let d0 = r[0].doc_id as int;
    let c2 = cand.remove(d0);
    let t = r.subrange(1, r.len() as int);
    assert(forall|j: int| 0 <= j < t.len() ==> #[trigger] t[j] == r[j + 1]);
    assert forall|j: int| 0 <= j < t.len() implies entry_ok(s, c2, #[trigger] t[j]) by {
        assert(entry_ok(s, cand, r[j + 1]));
        assert(r[j + 1].doc_id != r[0].doc_id);
    }
    assert forall|i: int|
        #[trigger] c2.contains(i) && 0 <= i < s.len() && positive(s[i]) && !in_results(t, i)
            implies t.len() == k - 1 && (k - 1 > 0 ==> rr_before(t[k - 2], entry_of(s, i))) by {
        assert(i != d0);
        assert(cand.contains(i));
        assert(!in_results(r, i)) by {
            if in_results(r, i) {
                let j = choose|j: int| 0 <= j < r.len() && (#[trigger] r[j]).doc_id as int == i;
                assert(j != 0);
                assert(t[j - 1].doc_id as int == i);
            }
        }
        assert(r.len() == k);
        if k - 1 > 0 {
            assert(t[k - 2] == r[k - 1]);
        }
    }
}

/// The law every selection strategy rests on: the bounded top-`k` of a
/// candidate set is unique. Any two result sequences that both satisfy
/// `is_topk` for the same scores, candidates and `k` are equal. The
/// sequential, full-sort and partitioned-skim selectors each return a
/// sequence satisfying this predicate over all documents, so on identical
/// inputs all of them, and any repetition of them, return identical
/// results.
pub proof fn lemma_topk_unique(
    s: Seq<u32>,
    cand: Set<int>,
    k: int,
    r1: Seq<RankResult>,
    r2: Seq<RankResult>,
)
    requires
        is_topk(s, cand, k, r1),
        is_topk(s, cand, k, r2),
    ensures
        r1 == r2,
    decreases k,
{
    if r1.len() == 0 && r2.len() == 0 {
        assert(r1 =~= r2);
    } else if r1.len() == 0 {
        assert(entry_ok(s, cand, r2[0]));
        let d = r2[0].doc_id as int;
        assert(!in_results(r1, d));
        assert(r1.len() == k);
        assert(false);
    } else if r2.len() == 0 {
        assert(entry_ok(s, cand, r1[0]));
        let d = r1[0].doc_id as int;
        assert(!in_results(r2, d));
        assert(r2.len() == k);
        assert(false);
    } else {
        assert(entry_ok(s, cand, r1[0]));
        assert(entry_ok(s, cand, r2[0]));
        lemma_head_dominates(s, cand, k, r1, r2[0]);
        lemma_head_dominates(s, cand, k, r2, r1[0]);
        assert(r1[0] == r2[0]);
        lemma_topk_tail(s, cand, k, r1);
        lemma_topk_tail(s, cand, k, r2);
        let t1 = r1.subrange(1, r1.len() as int);
        let t2 = r2.subrange(1, r2.len() as int);
        lemma_topk_unique(s, cand.remove(r1[0].doc_id as int), k - 1, t1, t2);
        assert forall|j: int| 0 <= j < r1.len() implies r1[j] == r2[j] by {
            if j > 0 {
                assert(t1[j - 1] == t2[j - 1]);
            }
        }
        assert(r1 =~= r2);
    }
}

/// Widening the candidate set of a top-`k` collection by documents that a
/// second top-`k` collection has already judged changes nothing: whatever
/// the second collection left out, the first one dominates too.
pub proof fn lemma_topk_extend(
    s: Seq<u32>,
    a: Set<int>,
    b: Set<int>,
    k: int,
    r: Seq<RankResult>,
    rb: Seq<RankResult>,
)
    requires
        is_topk(s, a, k, r),
        is_topk(s, b, k, rb),
        forall|j: int| 0 <= j < rb.len() ==> a.contains((#[trigger] rb[j]).doc_id as int),
    ensures
        is_topk(s, a.union(b), k, r),
{
    let u = a.union(b);
    assert forall|j: int| 0 <= j < r.len() implies entry_ok(s, u, #[trigger] r[j]) by {
        assert(entry_ok(s, a, r[j]));
    }
    assert forall|i: int|
        #[trigger] u.contains(i) && 0 <= i < s.len() && positive(s[i]) && !in_results(r, i)
            implies r.len() == k && (k > 0 ==> rr_before(r[k - 1], entry_of(s, i))) by {
        if a.contains(i) {
            assert(r.len() == k);
        } else {
            assert(b.contains(i));
            assert(!in_results(rb, i)) by {
                if in_results(rb, i) {
                    let j = choose|j: int|
                        0 <= j < rb.len() && (#[trigger] rb[j]).doc_id as int == i;
                    assert(a.contains(rb[j].doc_id as int));
                }
            }
            assert(rb.len() == k);
            if k > 0 {
                assert(rr_before(rb[k - 1], entry_of(s, i)));
                if exists|j: int|
                    0 <= j < rb.len() && !in_results(r, (#[trigger] rb[j]).doc_id as int) {
                    let j = choose|j: int|
                        0 <= j < rb.len() && !in_results(r, (#[trigger] rb[j]).doc_id as int);
                    assert(entry_ok(s, b, rb[j]));
                    let dj = rb[j].doc_id as int;
                    assert(a.contains(dj) && 0 <= dj < s.len() && positive(s[dj]));
                    assert(r.len() == k);
                    assert(rr_before(r[k - 1], entry_of(s, dj)));
                    assert(entry_of(s, dj) == rb[j]);
                    if j < k - 1 {
                        assert(rr_before(rb[j], rb[k - 1]));
                    }
                    assert(rr_before(r[k - 1], entry_of(s, i)));
                } else {
                    assert forall|j: int| 0 <= j < rb.len() implies r.contains(#[trigger] rb[j]) by {
                        assert(in_results(r, rb[j].doc_id as int));
                        let l = choose|l: int|
                            0 <= l < r.len() && (#[trigger] r[l]).doc_id as int == rb[j].doc_id as int;
                        assert(entry_ok(s, a, r[l]));
                        assert(entry_ok(s, b, rb[j]));
                        assert(r[l] == rb[j]);
                    }
                    lemma_sorted_contained_len(rb, r);
                    assert(r.len() == k);
                    if !rr_beq(r[k - 1], rb[k - 1]) {
                        assert(entry_ok(s, a, r[k - 1]));
                        assert(entry_ok(s, b, rb[k - 1]));
                        if r[k - 1].doc_id == rb[k - 1].doc_id {
                            assert(r[k - 1] == rb[k - 1]);
                            assert(false);
                        }
                        assert(rr_before(rb[k - 1], r[k - 1]));
                        let front = r.subrange(0, k - 1);
                        assert forall|j: int| 0 <= j < rb.len() implies front.contains(
                            #[trigger] rb[j],
                        ) by {
                            let l = choose|l: int| 0 <= l < r.len() && #[trigger] r[l] == rb[j];
                            if l == k - 1 {
                                if j < k - 1 {
                                    assert(rr_before(rb[j], rb[k - 1]));
                                }
                                assert(rr_beq(rb[j], rb[k - 1]));
                                assert(false);
                            }
                            assert(front[l] == rb[j]);
                        }
                        lemma_sorted_contained_len(rb, front);
                        assert(false);
                    }
                    assert(rr_before(r[k - 1], entry_of(s, i)));
                }
            }
        }
    }
}

/// The boundary where the bound exceeds the corpus: when `k` is at least
/// the number of documents and every score is positive, the top-`k` over
/// all documents returns all of them, each exactly once, still in
/// descending score order as `is_topk` demands.
pub proof fn lemma_topk_whole_corpus(s: Seq<u32>, k: int, r: Seq<RankResult>)
    requires
        is_topk(s, set_int_range(0, s.len() as int), k, r),
        k >= s.len(),
        forall|i: int| 0 <= i < s.len() ==> positive(#[trigger] s[i]),
    ensures
        r.len() == s.len(),
        forall|i: int| 0 <= i < s.len() ==> in_results(r, i),
{
    broadcast use vstd::set::group_set_axioms;

    let n = s.len() as int;
    let range = set_int_range(0, n);
    lemma_int_range(0, n);
    let docs = Seq::new(r.len(), |j: int| r[j].doc_id as int);
    lemma_entries_distinct(s, range, k, r);
    assert forall|j1: int, j2: int|
        0 <= j1 < docs.len() && 0 <= j2 < docs.len() && j1 != j2 implies docs[j1] != docs[j2] by {
        assert(r[j1].doc_id != r[j2].doc_id);
    }
    assert(docs.no_duplicates());
    docs.unique_seq_to_set();
    assert forall|i: int| 0 <= i < n implies in_results(r, i) by {
        if !in_results(r, i) {
            assert(range.contains(i));
            assert(r.len() == k);
            assert forall|d: int| docs.to_set().contains(d) implies range.remove(i).contains(
                d,
            ) by {
                assert(docs.contains(d));
                let j = choose|j: int| 0 <= j < docs.len() && docs[j] == d;
                assert(entry_ok(s, range, r[j]));
                assert(d != i);
            }
            assert(docs.to_set().subset_of(range.remove(i)));
            lemma_len_subset(docs.to_set(), range.remove(i));
            assert(range.remove(i).len() == n - 1);
            assert(false);
        }
    }
    assert forall|d: int| range.contains(d) implies docs.to_set().contains(d) by {
        assert(in_results(r, d));
        let j = choose|j: int| 0 <= j < r.len() && (#[trigger] r[j]).doc_id as int == d;
        assert(docs[j] == d);
        assert(docs.contains(d));
    }
    assert forall|d: int| docs.to_set().contains(d) implies range.contains(d) by {
        assert(docs.contains(d));
        let j = choose|j: int| 0 <= j < docs.len() && docs[j] == d;
        assert(entry_ok(s, range, r[j]));
    }
    assert(docs.to_set() =~= range);
    assert(r.len() == docs.to_set().len());
}

} // verus!
