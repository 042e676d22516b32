use vboo::error::RankError;
use vboo::score::{and, or};

fn bits(v: &[f32]) -> Vec<u32> {
    v.iter().map(|w| w.to_bits()).collect()
}

fn val(r: Result<u32, RankError>) -> f32 {
    f32::from_bits(r.unwrap())
}

#[test]
fn or_no_match() {
    let a = bits(&[0., 0.]);
    let b = bits(&[1., 1.]);
    assert_eq!(0., val(or(&a, &b)));
}

#[test]
fn or_one_match() {
    let a = bits(&[1., 0.]);
    let b = bits(&[1., 1.]);
    assert_eq!(0.70710677, val(or(&a, &b)));
}

#[test]
fn or_both_match() {
    let a = bits(&[1., 1.]);
    let b = bits(&[1., 1.]);
    assert_eq!(1., val(or(&a, &b)));
}

#[test]
fn and_no_match() {
    let a = bits(&[0., 0.]);
    let b = bits(&[1., 1.]);
    assert_eq!(0., val(and(&a, &b)));
}

#[test]
fn and_one_match() {
    let a = bits(&[1., 0.]);
    let b = bits(&[1., 1.]);
    assert_eq!(0.29289323, val(and(&a, &b)));
}

#[test]
fn and_both_match() {
    let a = bits(&[1., 1.]);
    let b = bits(&[1., 1.]);
    assert_eq!(1., val(and(&a, &b)));
}

#[test]
fn sanity_check() {
    let a = bits(&[1., 0.]);
    let b = bits(&[1., 1.]);
    // and + or = 1 because they reach same point from opposite quadrants
    assert_eq!(1., val(or(&a, &b)) + val(and(&a, &b)));
}

#[test]
fn scores_stay_in_unit_interval() {
    let vectors: [&[f32]; 4] = [
        &[0.25, 0.75, 0.5],
        &[1., 0., 0.33],
        &[0.9, 0.9, 0.1],
        &[0., 0., 0.],
    ];
    for q in vectors.iter() {
        for d in vectors.iter() {
            let qb = bits(q);
            let db = bits(d);
            let o = val(or(&qb, &db));
            let a = val(and(&qb, &db));
            assert!((0. ..=1.).contains(&o), "or out of range: {o}");
            assert!((0. ..=1.).contains(&a), "and out of range: {a}");
        }
    }
}

#[test]
fn or_scores_higher_than_and_on_partial_overlap() {
    // One term matches exactly, one is absent from the query: the looser
    // union operator must score strictly higher than the intersection.
    let q = bits(&[1., 0., 0.5]);
    let d = bits(&[1., 1., 0.5]);
    assert!(val(or(&q, &d)) > val(and(&q, &d)));
}

#[test]
fn dimension_mismatch_is_invalid_input() {
    let a = bits(&[1., 0.]);
    let b = bits(&[1., 1., 1.]);
    assert_eq!(or(&a, &b), Err(RankError::InvalidInput));
    assert_eq!(and(&a, &b), Err(RankError::InvalidInput));
}
