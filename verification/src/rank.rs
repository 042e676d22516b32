//! The three top-K selectors of the ranking engine.
//!
//! Each takes the embedded query, the document-term matrix (both as
//! bit-pattern weight vectors), an operator and a bound `k`, and returns the
//! best `k` positively scored documents in descending score order, ties
//! broken by row index. A dimension mismatch between the query and any row
//! is the `InvalidInput` failure, found before any result is produced.
//!
//! All three end in the same unique `is_topk` sequence (see
//! `crate::topk::lemma_topk_unique`); they differ only in how the work runs:
//! one thread and one bounded heap, data-parallel scoring with a full
//! parallel sort, or data-parallel partitions each skimming its own bounded
//! heap before a final merge.

use vstd::prelude::*;
use vstd::set_lib::set_int_range;

use rayon::iter::IndexedParallelIterator;
use rayon::iter::IntoParallelRefIterator;
use rayon::iter::ParallelIterator;
use rayon::slice::ParallelSliceMut;

use crate::error::RankError;
use crate::op::Op;
use crate::rank_result::{rr_beq, rr_before, RankResult};
use crate::score::{is_positive, positive, score_bits, score_row};
use crate::topk::{entry_of, entry_ok, in_results, is_topk, topk_insert};

verus! {

/// View of the matrix as a sequence of row views.
pub open spec fn rows_of(m: Seq<Vec<u32>>) -> Seq<Seq<u32>> {
    m.map_values(|row: Vec<u32>| row@)
}

/// Every row has the query's dimension.
pub open spec fn dims_ok(q: Seq<u32>, m: Seq<Seq<u32>>) -> bool {
    forall|i: int| 0 <= i < m.len() ==> (#[trigger] m[i]).len() == q.len()
}

/// The score of every document row against the query.
pub open spec fn scores_of(q: Seq<u32>, m: Seq<Seq<u32>>, op: Op) -> Seq<u32> {
    Seq::new(m.len(), |i: int| score_bits(q, m[i], op))
}

/// What every selector returns on well-dimensioned input: the unique
/// bounded top-`k` over all documents.
pub open spec fn rank_post(
    q: Seq<u32>,
    m: Seq<Seq<u32>>,
    op: Op,
    k: int,
    r: Result<Vec<RankResult>, RankError>,
) -> bool {
    &&& dims_ok(q, m) ==> (r matches Ok(v) && is_topk(
        scores_of(q, m, op),
        set_int_range(0, m.len() as int),
        k,
        v@,
    ))
    &&& !dims_ok(q, m) ==> r == Err::<Vec<RankResult>, RankError>(RankError::InvalidInput)
}

/// Checks that every row has the query's dimension.
fn check_dims(query: &Vec<u32>, dt_matrix: &Vec<Vec<u32>>) -> (ok: bool)
    ensures
        ok == dims_ok(query@, rows_of(dt_matrix@)),
{
    let n: usize = dt_matrix.len();
    let mut i: usize = 0;
    while i < n
        invariant
            0 <= i <= n,
            n == dt_matrix@.len(),
            forall|j: int| 0 <= j < i ==> (#[trigger] rows_of(dt_matrix@)[j]).len() == query@.len(),
        decreases n - i,
    {
        let row: &Vec<u32> = &dt_matrix[i];
        if row.len() != query.len() {
            proof {
                assert(rows_of(dt_matrix@)[i as int].len() != query@.len());
            }
            return false;
        }
        proof {
            assert(rows_of(dt_matrix@)[i as int].len() == query@.len());
        }
        i = i + 1;
    }
    true
}

/// Ranks every document sequentially: one scan over the rows, a bounded
/// min-heap of the best `k` seen so far, each positive newcomer admitted
/// only if the heap has room or the newcomer beats the current worst.
pub fn rank(query: &Vec<u32>, dt_matrix: &Vec<Vec<u32>>, op: Op, k: usize) -> (r: Result<
    Vec<RankResult>,
    RankError,
>)
    ensures
        rank_post(query@, rows_of(dt_matrix@), op, k as int, r),
{
    if !check_dims(query, dt_matrix) {
        return Err(RankError::InvalidInput);
    }
    let ghost s = scores_of(query@, rows_of(dt_matrix@), op);
    let n: usize = dt_matrix.len();
    let mut heap: Vec<RankResult> = Vec::new();
    let mut i: usize = 0;
    while i < n
        invariant
            0 <= i <= n,
            n == dt_matrix@.len(),
            dims_ok(query@, rows_of(dt_matrix@)),
            s == scores_of(query@, rows_of(dt_matrix@), op),
            is_topk(s, set_int_range(0, i as int), k as int, heap@),
        decreases n - i,
    {
        let row: &Vec<u32> = &dt_matrix[i];
        proof {
            assert(rows_of(dt_matrix@)[i as int] == row@);
        }
        let sc: u32 = score_row(query, row, op);
        proof {
            assert(s[i as int] == score_bits(query@, rows_of(dt_matrix@)[i as int], op));
            assert(!set_int_range(0, i as int).contains(i as int));
        }
        topk_insert(&mut heap, i, sc, k, Ghost(s), Ghost(set_int_range(0, i as int)));
        proof {
            assert(set_int_range(0, i as int).insert(i as int) =~= set_int_range(0, i as int + 1));
        }
        i = i + 1;
    }
    Ok(heap)
}

/// Relies on rayon's indexed parallel map keeping order when collected:
/// entry `i` of the result is what the verified `score_row` returns for
/// row `i`, computed on the worker pool.
#[verifier::external_body]
fn par_scores(query: &Vec<u32>, dt_matrix: &Vec<Vec<u32>>, op: Op) -> (r: Vec<u32>)
    requires
        dims_ok(query@, rows_of(dt_matrix@)),
    ensures
        r@ == scores_of(query@, rows_of(dt_matrix@), op),
{
    dt_matrix.par_iter().map(|row| score_row(query, row, op)).collect()
}

/// Relies on rayon's parallel unstable sort: afterwards the vector holds
/// the same entries (as a multiset) ordered by the verified comparator
/// `rank_order`, whose order is `rr_beq`.
#[verifier::external_body]
fn par_sort_results(v: &mut Vec<RankResult>)
    ensures
        final(v)@.to_multiset() == old(v)@.to_multiset(),
        final(v)@.len() == old(v)@.len(),
        forall|j1: int, j2: int|
            0 <= j1 < j2 < final(v)@.len() ==> rr_beq(
                #[trigger] final(v)@[j1],
                #[trigger] final(v)@[j2],
            ),
{
    v.par_sort_unstable_by(|a, b| crate::rank_result::rank_order(a, b));
}

/// Ranks every document with data-parallel scoring and a full parallel
/// sort: all scores are materialized, sorted descending, and the first `k`
/// positively scored entries are returned.
pub fn rank_parallel(query: &Vec<u32>, dt_matrix: &Vec<Vec<u32>>, op: Op, k: usize) -> (r: Result<
    Vec<RankResult>,
    RankError,
>)
    ensures
        rank_post(query@, rows_of(dt_matrix@), op, k as int, r),
{
    if !check_dims(query, dt_matrix) {
        return Err(RankError::InvalidInput);
    }
    let ghost s = scores_of(query@, rows_of(dt_matrix@), op);
    let n: usize = dt_matrix.len();
    let scores: Vec<u32> = par_scores(query, dt_matrix, op);
    let mut results: Vec<RankResult> = Vec::new();
    let mut i: usize = 0;
    while i < n
        invariant
            0 <= i <= n,
            n == dt_matrix@.len(),
            scores@ == s,
            s.len() == n,
            results@.len() == i,
            forall|j: int| 0 <= j < i ==> #[trigger] results@[j] == entry_of(s, j),
        decreases n - i,
    {
        results.push(RankResult { doc_id: i, score: scores[i] });
        i = i + 1;
    }
    let ghost rs0 = results@;
    proof {
        assert forall|j1: int, j2: int|
            0 <= j1 < rs0.len() && 0 <= j2 < rs0.len() && j1 != j2 implies rs0[j1] != rs0[j2] by {
            assert(rs0[j1].doc_id == j1 && rs0[j2].doc_id == j2);
        }
        assert(rs0.no_duplicates());
        rs0.lemma_multiset_has_no_duplicates();
    }
    par_sort_results(&mut results);
    let ghost rs = results@;
    proof {
        broadcast use vstd::seq_lib::group_to_multiset_ensures;

        rs.lemma_multiset_has_no_duplicates_conv();
        assert forall|j: int| 0 <= j < rs.len() implies #[trigger] rs[j] == entry_of(
            s,
            rs[j].doc_id as int,
        ) && rs[j].doc_id < n by {
            assert(rs.contains(rs[j]));
            assert(rs.to_multiset().count(rs[j]) > 0);
            assert(rs0.to_multiset().count(rs[j]) > 0);
            assert(rs0.contains(rs[j]));
            let l = choose|l: int| 0 <= l < rs0.len() && rs0[l] == rs[j];
            assert(rs0[l] == entry_of(s, l));
        }
    }
    Ok(take_positive_prefix(results, k, Ghost(s), Ghost(rs0)))
}

/// Takes the leading `k` positively scored entries of the sorted score
/// table and shows that they are the bounded top-`k` of all documents.
fn take_positive_prefix(
    results: Vec<RankResult>,
    k: usize,
    Ghost(s): Ghost<Seq<u32>>,
    Ghost(rs0): Ghost<Seq<RankResult>>,
) -> (r: Vec<RankResult>)
    requires
        rs0.len() == s.len(),
        forall|j: int| 0 <= j < rs0.len() ==> #[trigger] rs0[j] == entry_of(s, j),
        results@.to_multiset() == rs0.to_multiset(),
        results@.len() == rs0.len(),
        results@.no_duplicates(),
        forall|j: int| 0 <= j < results@.len() ==> #[trigger] results@[j] == entry_of(
            s,
            results@[j].doc_id as int,
        ) && results@[j].doc_id < s.len(),
        forall|j1: int, j2: int|
            0 <= j1 < j2 < results@.len() ==> rr_beq(
                #[trigger] results@[j1],
                #[trigger] results@[j2],
            ),
    ensures
        is_topk(s, set_int_range(0, s.len() as int), k as int, r@),
{
    let ghost rs = results@;
    let nres: usize = results.len();
    let mut t: usize = 0;
    while t < nres && t < k && is_positive(results[t].score)
        invariant
            0 <= t <= nres,
            t <= k,
            nres == rs.len(),
            results@ == rs,
            forall|j: int| 0 <= j < t ==> positive((#[trigger] rs[j]).score),
        decreases nres - t,
    {
        t = t + 1;
    }
    let mut out: Vec<RankResult> = Vec::new();
    let mut j: usize = 0;
    while j < t
        invariant
            0 <= j <= t <= nres,
            nres == rs.len(),
            results@ == rs,
            out@ == rs.subrange(0, j as int),
        decreases t - j,
    {
        proof {
            assert(rs.subrange(0, j as int).push(rs[j as int]) =~= rs.subrange(0, j as int + 1));
        }
        out.push(results[j]);
        j = j + 1;
    }
    proof {
        broadcast use vstd::seq_lib::group_to_multiset_ensures;

        let n_int = s.len() as int;
        let range = set_int_range(0, n_int);
        let o = out@;
        assert(o =~= rs.subrange(0, t as int));
        // Strictly sorted: the sort's order plus no duplicates.
        assert forall|j1: int, j2: int| 0 <= j1 < j2 < o.len() implies rr_before(
            #[trigger] o[j1],
            #[trigger] o[j2],
        ) by {
            assert(rr_beq(rs[j1], rs[j2]));
            assert(rs[j1] != rs[j2]);
        }
        // Every entry is well formed.
        assert forall|j2: int| 0 <= j2 < o.len() implies entry_ok(s, range, #[trigger] o[j2]) by {
            assert(o[j2] == rs[j2]);
            assert(rs[j2] == entry_of(s, rs[j2].doc_id as int));
            assert(positive(rs[j2].score));
        }
        // Nothing positive was left out wrongly.
        assert forall|i: int|
            #[trigger] range.contains(i) && 0 <= i < s.len() && positive(s[i]) && !in_results(o, i)
                implies o.len() == k && (k > 0 ==> rr_before(o[k - 1], entry_of(s, i))) by {
            assert(rs0[i] == entry_of(s, i));
            assert(rs0.contains(entry_of(s, i)));
            assert(rs0.to_multiset().count(entry_of(s, i)) > 0);
            assert(rs.to_multiset().count(entry_of(s, i)) > 0);
            assert(rs.contains(entry_of(s, i)));
            let p = choose|p: int| 0 <= p < rs.len() && rs[p] == entry_of(s, i);
            assert(rs[p].doc_id as int == i);
            if p < t {
                assert(o[p].doc_id as int == i);
                assert(false);
            }
            if t == k {
                assert(o.len() == k);
                if k > 0 {
                    assert(o[k - 1] == rs[t - 1]);
                    if (t - 1) < p {
                        assert(rr_beq(rs[t - 1], rs[p]));
                        assert(rs[t - 1] != rs[p]);
                    } else {
                        assert(false);
                    }
                }
            } else if t == nres {
                assert(p < nres);
                assert(false);
            } else {
                // The scan stopped on a non-positive entry, yet entry `p`
                // behind it would be positive: impossible under the sort
                // order.
                assert(!positive(rs[t as int].score));
                if (t as int) < p {
                    assert(rr_beq(rs[t as int], rs[p]));
                }
                assert(crate::score::key_of(rs[t as int].score) >= crate::score::key_of(
                    rs[p].score,
                ));
                assert(false);
            }
        }
        assert(is_topk(s, range, k as int, o));
    }
    out
}

/// Relies on `rayon::current_num_threads`: the worker pool is never empty.
#[verifier::external_body]
fn thread_count() -> (n: usize)
    ensures
        1 <= n,
{
    rayon::current_num_threads()
}

/// Consecutive row partitions covering the whole matrix: each pair is a
/// half-open range, they meet end to start, and together they span
/// `0 .. n`.
pub open spec fn bounds_wf(bs: Seq<(usize, usize)>, n: int) -> bool {
    &&& forall|j: int| 0 <= j < bs.len() ==> (#[trigger] bs[j]).0 <= bs[j].1 <= n
    &&& forall|j: int|
        0 < j < bs.len() ==> (#[trigger] bs[j]).0 == bs[j - 1].1
    &&& (bs.len() > 0 ==> bs[0].0 == 0 && bs[bs.len() - 1].1 as int == n)
    &&& (bs.len() == 0 ==> n == 0)
}

/// Cuts `0 .. n` into consecutive ranges of at most `chunk` rows.
fn make_bounds(n: usize, chunk: usize) -> (bs: Vec<(usize, usize)>)
    requires
        chunk >= 1,
    ensures
        bounds_wf(bs@, n as int),
{
    let mut bs: Vec<(usize, usize)> = Vec::new();
    let mut start: usize = 0;
    while start < n
        invariant
            0 <= start <= n,
            chunk >= 1,
            forall|j: int| 0 <= j < bs@.len() ==> (#[trigger] bs@[j]).0 <= bs@[j].1 <= n,
            forall|j: int| 0 < j < bs@.len() ==> (#[trigger] bs@[j]).0 == bs@[j - 1].1,
            bs@.len() > 0 ==> bs@[0].0 == 0 && bs@[bs@.len() - 1].1 == start,
            bs@.len() == 0 ==> start == 0,
        decreases n - start,
    {
        let end: usize = if n - start < chunk {
            n
        } else {
            start + chunk
        };
        bs.push((start, end));
        start = end;
    }
    bs
}

/// Relies on rayon's indexed parallel map keeping order when collected:
/// entry `j` of the result is what the verified `skim_chunk` returns for
/// the `j`-th partition, computed on the worker pool.
#[verifier::external_body]
fn par_skim_chunks(
    query: &Vec<u32>,
    dt_matrix: &Vec<Vec<u32>>,
    bounds: &Vec<(usize, usize)>,
    op: Op,
    k: usize,
) -> (r: Vec<Vec<RankResult>>)
    requires
        dims_ok(query@, rows_of(dt_matrix@)),
        forall|j: int|
            0 <= j < bounds@.len() ==> (#[trigger] bounds@[j]).0 <= bounds@[j].1
                <= dt_matrix@.len(),
    ensures
        r@.len() == bounds@.len(),
        forall|j: int|
            0 <= j < bounds@.len() ==> is_topk(
                scores_of(query@, rows_of(dt_matrix@), op),
                set_int_range(bounds@[j].0 as int, bounds@[j].1 as int),
                k as int,
                (#[trigger] r@[j])@,
            ),
{
    bounds.par_iter().map(|b| skim_chunk(query, dt_matrix, b.0, b.1, op, k)).collect()
}

/// One worker's share of the partitioned skim: a sequential bounded top-`k`
/// scan over the rows `lo .. hi`.
pub(crate) fn skim_chunk(
    query: &Vec<u32>,
    dt_matrix: &Vec<Vec<u32>>,
    lo: usize,
    hi: usize,
    op: Op,
    k: usize,
) -> (r: Vec<RankResult>)
    requires
        dims_ok(query@, rows_of(dt_matrix@)),
        lo <= hi <= dt_matrix@.len(),
    ensures
        is_topk(
            scores_of(query@, rows_of(dt_matrix@), op),
            set_int_range(lo as int, hi as int),
            k as int,
            r@,
        ),
{
    let ghost s = scores_of(query@, rows_of(dt_matrix@), op);
    let mut heap: Vec<RankResult> = Vec::new();
    let mut i: usize = lo;
    while i < hi
        invariant
            lo <= i <= hi <= dt_matrix@.len(),
            dims_ok(query@, rows_of(dt_matrix@)),
            s == scores_of(query@, rows_of(dt_matrix@), op),
            is_topk(s, set_int_range(lo as int, i as int), k as int, heap@),
        decreases hi - i,
    {
        let row: &Vec<u32> = &dt_matrix[i];
        proof {
            assert(rows_of(dt_matrix@)[i as int] == row@);
        }
        let sc: u32 = score_row(query, row, op);
        proof {
            assert(s[i as int] == score_bits(query@, rows_of(dt_matrix@)[i as int], op));
            assert(!set_int_range(lo as int, i as int).contains(i as int));
        }
        topk_insert(&mut heap, i, sc, k, Ghost(s), Ghost(set_int_range(lo as int, i as int)));
        proof {
            assert(set_int_range(lo as int, i as int).insert(i as int) =~= set_int_range(
                lo as int,
                i as int + 1,
            ));
        }
        i = i + 1;
    }
    heap
}

/// Ranks every document with partitioned data-parallel skimming: each
/// worker keeps its own bounded top-`k` heap over its rows, and the local
/// heaps are merged into the global top-`k` by reinserting their entries.
pub fn rank_parallel_skim(query: &Vec<u32>, dt_matrix: &Vec<Vec<u32>>, op: Op, k: usize) -> (r:
    Result<Vec<RankResult>, RankError>)
    ensures
        rank_post(query@, rows_of(dt_matrix@), op, k as int, r),
{
    if !check_dims(query, dt_matrix) {
        return Err(RankError::InvalidInput);
    }
    let ghost s = scores_of(query@, rows_of(dt_matrix@), op);
    let n: usize = dt_matrix.len();
    let workers: usize = thread_count();
    let per_worker: usize = n / workers;
    let chunk: usize = if per_worker == 0 {
        1
    } else {
        per_worker
    };
    let bounds: Vec<(usize, usize)> = make_bounds(n, chunk);
    let locals: Vec<Vec<RankResult>> = par_skim_chunks(query, dt_matrix, &bounds, op, k);
    let mut acc: Vec<RankResult> = Vec::new();
    let mut c: usize = 0;
    let ghost nb = bounds@.len() as int;
    let mut covered: usize = 0;
    while c < bounds.len()
        invariant
            0 <= c <= nb,
            nb == bounds@.len(),
            locals@.len() == nb,
            s.len() == n as int,
            bounds_wf(bounds@, n as int),
            c == 0 ==> covered == 0,
            c > 0 ==> covered as int == bounds@[c - 1].1 as int,
            forall|j: int|
                0 <= j < nb ==> is_topk(
                    s,
                    set_int_range(bounds@[j].0 as int, bounds@[j].1 as int),
                    k as int,
                    (#[trigger] locals@[j])@,
                ),
            is_topk(s, set_int_range(0, covered as int), k as int, acc@),
        decreases nb - c,
    {
        let ghost lo = bounds@[c as int].0 as int;
        let ghost hi = bounds@[c as int].1 as int;
        proof {
            assert(lo == covered as int);
        }
        let local: &Vec<RankResult> = &locals[c];
        let ghost lv = local@;
        let ghost range_b = set_int_range(lo, hi);
        let ghost mut cs = set_int_range(0, covered as int);
        proof {
            crate::topk::lemma_entries_distinct(s, range_b, k as int, lv);
        }
        let mut e: usize = 0;
        while e < local.len()
            invariant
                0 <= e <= lv.len(),
                local@ == lv,
                s.len() == n as int,
                range_b == set_int_range(lo, hi),
                is_topk(s, range_b, k as int, lv),
                forall|j1: int, j2: int|
                    0 <= j1 < lv.len() && 0 <= j2 < lv.len() && j1 != j2 ==> (
                    #[trigger] lv[j1]).doc_id != (#[trigger] lv[j2]).doc_id,
                is_topk(s, cs, k as int, acc@),
                forall|j: int| 0 <= j < e ==> cs.contains((#[trigger] lv[j]).doc_id as int),
                forall|d: int| 0 <= d < lo ==> #[trigger] cs.contains(d),
                forall|d: int|
                    #[trigger] cs.contains(d) ==> (0 <= d < lo || exists|j: int|
                        0 <= j < e && (#[trigger] lv[j]).doc_id as int == d),
            decreases lv.len() - e,
        {
            let entry: RankResult = local[e];
            proof {
                assert(entry == lv[e as int]);
                assert(entry_ok(s, range_b, lv[e as int]));
                assert(range_b.contains(entry.doc_id as int));
                assert(lo <= (entry.doc_id as int) && (entry.doc_id as int) < hi);
                assert(!cs.contains(entry.doc_id as int)) by {
                    if cs.contains(entry.doc_id as int) {
                        let j = choose|j: int|
                            0 <= j < e && (#[trigger] lv[j]).doc_id as int == entry.doc_id as int;
                        assert(lv[j].doc_id != lv[e as int].doc_id);
                    }
                }
            }
            topk_insert(&mut acc, entry.doc_id, entry.score, k, Ghost(s), Ghost(cs));
            proof {
                cs = cs.insert(entry.doc_id as int);
            }
            e = e + 1;
        }
        proof {
            crate::topk::lemma_topk_extend(s, cs, range_b, k as int, acc@, lv);
            assert(cs.union(range_b) =~= set_int_range(0, hi)) by {
                assert forall|d: int| cs.union(range_b).contains(d) implies set_int_range(
                    0,
                    hi,
                ).contains(d) by {
                    if cs.contains(d) {
                        if !(0 <= d < lo) {
                            let j = choose|j: int|
                                0 <= j < lv.len() && (#[trigger] lv[j]).doc_id as int == d;
                            assert(entry_ok(s, range_b, lv[j]));
                        }
                    }
                }
            }
        }
        let hi_exec: usize = bounds[c].1;
        covered = hi_exec;
        c = c + 1;
    }
    proof {
        if nb == 0 {
            assert(n == 0);
            assert(set_int_range(0, 0) =~= set_int_range(0, n as int));
        }
        assert(covered as int == n as int);
    }
    Ok(acc)
}

/// Agreement of the execution strategies: on identical inputs, any two of
/// the selectors, and any two calls of one selector, return identical
/// results. A dimension mismatch fails identically, and on well-formed
/// input the two result sequences are equal entry for entry, the top one
/// included. This follows from each selector ensuring the same unique
/// `is_topk` sequence.
pub proof fn lemma_rank_agreement(
    q: Seq<u32>,
    m: Seq<Seq<u32>>,
    op: Op,
    k: int,
    r1: Result<Vec<RankResult>, RankError>,
    r2: Result<Vec<RankResult>, RankError>,
)
    requires
        rank_post(q, m, op, k, r1),
        rank_post(q, m, op, k, r2),
    ensures
        dims_ok(q, m) ==> (r1 matches Ok(v1) && r2 matches Ok(v2) && v1@ == v2@),
        !dims_ok(q, m) ==> r1 == r2,
{
    if dims_ok(q, m) {
        let v1 = r1->Ok_0;
        let v2 = r2->Ok_0;
        crate::topk::lemma_topk_unique(
            scores_of(q, m, op),
            set_int_range(0, m.len() as int),
            k,
            v1@,
            v2@,
        );
    }
}

} // verus!
