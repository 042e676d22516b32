//! Term-weighting selection for building the document-term matrix.

use vstd::prelude::*;

use crate::text::str_eq;

verus! {

/// The weighting that turns term frequencies into matrix entries.
#[derive(Clone, Copy, Debug, PartialEq, Eq, Structural)]
pub enum Scorer {
    /// More sensitive to document length because no normalization.
    TFIDF,
    /// Less sensitive to document length due to normalization.
    BM25,
}

impl Scorer {
    /// Reads a scorer name from the command line; the TF-IDF weighting
    /// answers to three spellings.
    pub fn from_str(input: &str) -> (r: Result<Scorer, String>)
        ensures
            input@ == "tfidf"@ || input@ == "tf_idf"@ || input@ == "tf-idf"@ ==> r
                == Ok::<Scorer, String>(Scorer::TFIDF),
            input@ == "bm25"@ ==> r == Ok::<Scorer, String>(Scorer::BM25),
            input@ != "tfidf"@ && input@ != "tf_idf"@ && input@ != "tf-idf"@ && input@ != "bm25"@
                ==> (r matches Err(m) && m@ == "unsupported scorer"@),
    {
        proof {
            reveal_strlit("tfidf");
            reveal_strlit("tf_idf");
            reveal_strlit("tf-idf");
            reveal_strlit("bm25");
            assert("tfidf"@.len() == 5 && "tf_idf"@.len() == 6 && "tf-idf"@.len() == 6
                && "bm25"@.len() == 4);
            assert("tf_idf"@[2] == '_' && "tf-idf"@[2] == '-');
            assert("tf_idf"@ != "tf-idf"@);
        }
        if str_eq(input, "tfidf") {
            Ok(Scorer::TFIDF)
        } else if str_eq(input, "tf_idf") {
            Ok(Scorer::TFIDF)
        } else if str_eq(input, "tf-idf") {
            Ok(Scorer::TFIDF)
        } else if str_eq(input, "bm25") {
            Ok(Scorer::BM25)
        } else {
            Err("unsupported scorer".to_owned())
        }
    }
}

} // verus!
