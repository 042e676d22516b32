//! Operator selection for the extended Boolean model.

use vstd::prelude::*;

use crate::text::str_eq;

verus! {

/// The two continuous Boolean operators: fuzzy intersection and fuzzy union.
#[derive(Clone, Copy, Debug, PartialEq, Eq, Structural)]
pub enum Op {
    AND,
    OR,
}

impl Op {
    /// Reads an operator name from the command line, `"or"` or `"and"`.
    pub fn from_str(input: &str) -> (r: Result<Op, String>)
        ensures
            input@ == "or"@ ==> r == Ok::<Op, String>(Op::OR),
            input@ == "and"@ ==> r == Ok::<Op, String>(Op::AND),
            input@ != "or"@ && input@ != "and"@ ==> (r matches Err(m)
                && m@ == "unsupported ranking operation"@),
    {
        proof {
            reveal_strlit("or");
            reveal_strlit("and");
            assert("or"@.len() == 2 && "and"@.len() == 3);
            assert("or"@ != "and"@);
        }
        if str_eq(input, "or") {
            Ok(Op::OR)
        } else if str_eq(input, "and") {
            Ok(Op::AND)
        } else {
            Err("unsupported ranking operation".to_owned())
        }
    }
}

} // verus!
