//! The ordered value type every selection strategy agrees on.

use vstd::prelude::*;

use crate::score::key_of;

verus! {

/// One ranked document: its row index in the matrix and its score's bit
/// pattern. Scores order results descending; among equal scores the lower
/// row index comes first, so that every selection strategy agrees on one
/// canonical answer.
#[derive(Clone, Copy, Debug, PartialEq, Eq, Structural)]
pub struct RankResult {
    pub doc_id: usize,
    pub score: u32,
}

/// The strict order in which results are returned: descending score, ties
/// broken by ascending row index. On results with distinct row indices this
/// is a strict total order.
pub open spec fn rr_before(a: RankResult, b: RankResult) -> bool {
    ||| key_of(a.score) > key_of(b.score)
    ||| (key_of(a.score) == key_of(b.score) && a.doc_id < b.doc_id)
}

/// `a` comes no later than `b`: before it, or equal to it.
pub open spec fn rr_beq(a: RankResult, b: RankResult) -> bool {
    rr_before(a, b) || a == b
}

/// Decides `rr_before`.
pub fn rr_before_exec(a: &RankResult, b: &RankResult) -> (r: bool)
    ensures
        r == rr_before(*a, *b),
{
    let ka = crate::score::score_key(a.score);
    let kb = crate::score::score_key(b.score);
    ka > kb || (ka == kb && a.doc_id < b.doc_id)
}

/// The comparator handed to a sort: `Less` exactly when `a` is returned
/// before `b`, `Equal` exactly when the two results are the same.
pub fn rank_order(a: &RankResult, b: &RankResult) -> (o: core::cmp::Ordering)
    ensures
        o == core::cmp::Ordering::Less <==> rr_before(*a, *b),
        o == core::cmp::Ordering::Greater <==> rr_before(*b, *a),
        o == core::cmp::Ordering::Equal <==> *a == *b,
{
    let ka = crate::score::score_key(a.score);
    let kb = crate::score::score_key(b.score);
    if ka > kb || (ka == kb && a.doc_id < b.doc_id) {
        core::cmp::Ordering::Less
    } else if ka < kb || (ka == kb && b.doc_id < a.doc_id) {
        core::cmp::Ordering::Greater
    } else {
        proof {
            crate::score::lemma_key_of_injective(a.score, b.score);
        }
        core::cmp::Ordering::Equal
    }
}

} // verus!
