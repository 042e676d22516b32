use vboo::error::RankError;
use vboo::op::Op;
use vboo::rank::{rank, rank_parallel, rank_parallel_skim};
use vboo::rank_result::RankResult;

fn bits(v: &[f32]) -> Vec<u32> {
    v.iter().map(|w| w.to_bits()).collect()
}

fn matrix(rows: &[&[f32]]) -> Vec<Vec<u32>> {
    rows.iter().map(|r| bits(r)).collect()
}

fn score_of(r: &RankResult) -> f32 {
    f32::from_bits(r.score)
}

/// A small corpus with distinct OR scores: row 2 matches both query terms,
/// row 0 matches one, row 3 matches one weakly, row 1 matches none.
fn sample() -> (Vec<u32>, Vec<Vec<u32>>) {
    let q = bits(&[1., 0., 1.]);
    let m = matrix(&[
        &[1., 1., 0.],
        &[0., 1., 0.],
        &[1., 0., 1.],
        &[0.5, 0., 0.],
    ]);
    (q, m)
}

#[test]
fn selectors_agree_on_top_one() {
    let (q, m) = sample();
    for op in [Op::OR, Op::AND] {
        let rp = rank_parallel(&q, &m, op, 10).unwrap();
        let rps = rank_parallel_skim(&q, &m, op, 10).unwrap();
        let r = rank(&q, &m, op, 10).unwrap();
        assert_eq!(rp.first(), rps.first());
        assert_eq!(rp.first(), r.first());
    }
}

#[test]
fn selectors_agree_on_all_results() {
    let (q, m) = sample();
    for op in [Op::OR, Op::AND] {
        for k in [0usize, 1, 2, 3, 10] {
            let rp = rank_parallel(&q, &m, op, k).unwrap();
            let rps = rank_parallel_skim(&q, &m, op, k).unwrap();
            let r = rank(&q, &m, op, k).unwrap();
            assert_eq!(rp, rps);
            assert_eq!(rp, r);
        }
    }
}

#[test]
fn repeated_calls_are_identical() {
    let (q, m) = sample();
    assert_eq!(
        rank(&q, &m, Op::OR, 2).unwrap(),
        rank(&q, &m, Op::OR, 2).unwrap()
    );
    assert_eq!(
        rank_parallel(&q, &m, Op::OR, 2).unwrap(),
        rank_parallel(&q, &m, Op::OR, 2).unwrap()
    );
    assert_eq!(
        rank_parallel_skim(&q, &m, Op::OR, 2).unwrap(),
        rank_parallel_skim(&q, &m, Op::OR, 2).unwrap()
    );
}

#[test]
fn sequential_rank_exact_values() {
    let (q, m) = sample();
    let r = rank(&q, &m, Op::OR, 10).unwrap();
    // Row 2 matches both query terms: sqrt((1 + 0 + 1) / 3).
    // Row 0 matches one: sqrt(1 / 3). Row 3 matches one at half weight:
    // sqrt(0.25 / 3). Row 1 scores zero and is filtered out.
    assert_eq!(r.len(), 3);
    assert_eq!(r[0].doc_id, 2);
    assert_eq!(score_of(&r[0]), (2.0f32 / 3.0).sqrt());
    assert_eq!(r[1].doc_id, 0);
    assert_eq!(score_of(&r[1]), (1.0f32 / 3.0).sqrt());
    assert_eq!(r[2].doc_id, 3);
    assert_eq!(score_of(&r[2]), (0.25f32 / 3.0).sqrt());
}

#[test]
fn truncates_to_k_best() {
    let (q, m) = sample();
    for selector in [rank, rank_parallel, rank_parallel_skim] {
        let r = selector(&q, &m, Op::OR, 2).unwrap();
        assert_eq!(r.len(), 2);
        assert_eq!(r[0].doc_id, 2);
        assert_eq!(r[1].doc_id, 0);
    }
}

#[test]
fn k_beyond_corpus_returns_all_documents_sorted() {
    let q = bits(&[1., 1.]);
    let m = matrix(&[&[0.5, 0.], &[1., 1.], &[0., 0.9]]);
    for selector in [rank, rank_parallel, rank_parallel_skim] {
        let r = selector(&q, &m, Op::OR, 10).unwrap();
        assert_eq!(r.len(), 3);
        for w in r.windows(2) {
            assert!(score_of(&w[0]) >= score_of(&w[1]));
        }
        let mut ids: Vec<usize> = r.iter().map(|e| e.doc_id).collect();
        ids.sort();
        assert_eq!(ids, vec![0, 1, 2]);
    }
}

#[test]
fn no_match_returns_empty() {
    let q = bits(&[1., 0.]);
    let m = matrix(&[&[0., 1.], &[0., 0.5]]);
    for selector in [rank, rank_parallel, rank_parallel_skim] {
        assert_eq!(selector(&q, &m, Op::OR, 10).unwrap(), vec![]);
    }
}

#[test]
fn empty_corpus_returns_empty() {
    let q = bits(&[1., 0.]);
    let m: Vec<Vec<u32>> = Vec::new();
    for selector in [rank, rank_parallel, rank_parallel_skim] {
        assert_eq!(selector(&q, &m, Op::OR, 10).unwrap(), vec![]);
    }
}

#[test]
fn dimension_mismatch_yields_no_partial_result() {
    let q = bits(&[1., 0.]);
    let m = matrix(&[&[1., 0.], &[1., 0., 1.]]);
    for selector in [rank, rank_parallel, rank_parallel_skim] {
        assert_eq!(selector(&q, &m, Op::OR, 10), Err(RankError::InvalidInput));
    }
}

#[test]
fn ties_break_by_row_order() {
    let q = bits(&[1.]);
    let m = matrix(&[&[0.5], &[1.], &[0.5]]);
    for selector in [rank, rank_parallel, rank_parallel_skim] {
        let r = selector(&q, &m, Op::OR, 3).unwrap();
        let ids: Vec<usize> = r.iter().map(|e| e.doc_id).collect();
        assert_eq!(ids, vec![1, 0, 2]);
    }
}

#[test]
fn larger_corpus_agreement() {
    // Enough rows that the partitioned skim really spans several chunks.
    let terms = 8usize;
    let docs = 64usize;
    let q: Vec<u32> = bits(&vec![1.0f32; terms]);
    let rows: Vec<Vec<f32>> = (0..docs)
        .map(|d| {
            (0..terms)
                .map(|t| if (d + t) % 3 == 0 { ((d % 7) as f32 + 1.) / 8. } else { 0. })
                .collect()
        })
        .collect();
    let m: Vec<Vec<u32>> = rows.iter().map(|r| bits(r)).collect();
    for op in [Op::OR, Op::AND] {
        let rp = rank_parallel(&q, &m, op, 10).unwrap();
        let rps = rank_parallel_skim(&q, &m, op, 10).unwrap();
        let r = rank(&q, &m, op, 10).unwrap();
        assert_eq!(rp, rps);
        assert_eq!(rp, r);
        assert!(rp.len() <= 10);
    }
}
