use vboo::op::Op;
use vboo::scorer::Scorer;
use vboo::text::trim_clean;

#[test]
fn op_names() {
    assert_eq!(Op::from_str("or"), Ok(Op::OR));
    assert_eq!(Op::from_str("and"), Ok(Op::AND));
    assert_eq!(
        Op::from_str("xor"),
        Err("unsupported ranking operation".to_string())
    );
}

#[test]
fn scorer_names() {
    assert_eq!(Scorer::from_str("tfidf"), Ok(Scorer::TFIDF));
    assert_eq!(Scorer::from_str("tf_idf"), Ok(Scorer::TFIDF));
    assert_eq!(Scorer::from_str("tf-idf"), Ok(Scorer::TFIDF));
    assert_eq!(Scorer::from_str("bm25"), Ok(Scorer::BM25));
    assert_eq!(Scorer::from_str("pagerank"), Err("unsupported scorer".to_string()));
}

#[test]
fn trim_clean_strips_both_ends() {
    assert_eq!(trim_clean("A sentence.\r\n"), "A sentence.");
    assert_eq!(trim_clean("  spaced out \t"), "spaced out");
    assert_eq!(trim_clean("untouched"), "untouched");
    assert_eq!(trim_clean(" \n\t "), "");
    assert_eq!(trim_clean("\u{2003}wide\u{00A0}"), "wide");
}
