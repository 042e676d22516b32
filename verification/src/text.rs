//! Small text utilities used when a page is cut into sentences.

use vstd::prelude::*;
use vstd::string::*;

verus! {

/// The characters with the Unicode `White_Space` property, the set that
/// `str::trim` removes from both ends.
pub open spec fn is_space(c: char) -> bool {
    ||| c == '\u{0009}'
    ||| c == '\u{000A}'
    ||| c == '\u{000B}'
    ||| c == '\u{000C}'
    ||| c == '\u{000D}'
    ||| c == ' '
    ||| c == '\u{0085}'
    ||| c == '\u{00A0}'
    ||| c == '\u{1680}'
    ||| c == '\u{2000}'
    ||| c == '\u{2001}'
    ||| c == '\u{2002}'
    ||| c == '\u{2003}'
    ||| c == '\u{2004}'
    ||| c == '\u{2005}'
    ||| c == '\u{2006}'
    ||| c == '\u{2007}'
    ||| c == '\u{2008}'
    ||| c == '\u{2009}'
    ||| c == '\u{200A}'
    ||| c == '\u{2028}'
    ||| c == '\u{2029}'
    ||| c == '\u{202F}'
    ||| c == '\u{205F}'
    ||| c == '\u{3000}'
}

/// Decides `is_space`.
pub fn is_space_char(c: char) -> (r: bool)
    ensures
        r == is_space(c),
{
    c == '\u{0009}' || c == '\u{000A}' || c == '\u{000B}' || c == '\u{000C}' || c == '\u{000D}'
        || c == ' ' || c == '\u{0085}' || c == '\u{00A0}' || c == '\u{1680}' || c == '\u{2000}'
        || c == '\u{2001}' || c == '\u{2002}' || c == '\u{2003}' || c == '\u{2004}'
        || c == '\u{2005}' || c == '\u{2006}' || c == '\u{2007}' || c == '\u{2008}'
        || c == '\u{2009}' || c == '\u{200A}' || c == '\u{2028}' || c == '\u{2029}'
        || c == '\u{202F}' || c == '\u{205F}' || c == '\u{3000}'
}

/// The sequence with its leading whitespace removed.
pub open spec fn trim_front(s: Seq<char>) -> Seq<char>
    decreases s.len(),
{
    if s.len() > 0 && is_space(s[0]) {
        trim_front(s.drop_first())
    } else {
        s
    }
}

/// The sequence with its trailing whitespace removed.
pub open spec fn trim_back(s: Seq<char>) -> Seq<char>
    decreases s.len(),
{
    if s.len() > 0 && is_space(s.last()) {
        trim_back(s.drop_last())
    } else {
        s
    }
}

/// The sequence with whitespace removed from both ends.
pub open spec fn trim_spec(s: Seq<char>) -> Seq<char> {
    trim_back(trim_front(s))
}

/// Removes whitespace, newlines included, on both ends of a sentence or
/// word. The original also stripped a final line break first; removing
/// trailing whitespace covers it.
pub fn trim_clean(input: &str) -> (r: &str)
    ensures
        r@ == trim_spec(input@),
{
    let n: usize = input.unicode_len();
    proof {
        assert(input@.subrange(0, n as int) =~= input@);
    }
    let mut start: usize = 0;
    while start < n && is_space_char(input.get_char(start))
        invariant
            0 <= start <= n,
            n == input@.len(),
            trim_front(input@) == trim_front(input@.subrange(start as int, n as int)),
        decreases n - start,
    {
        proof {
            let cur = input@.subrange(start as int, n as int);
            assert(cur.drop_first() =~= input@.subrange(start as int + 1, n as int));
        }
        start = start + 1;
    }
    proof {
        let cur = input@.subrange(start as int, n as int);
        if start < n {
            assert(trim_front(cur) == cur);
        } else {
            assert(cur =~= Seq::<char>::empty());
        }
    }
    let mut end: usize = n;
    while end > start && is_space_char(input.get_char(end - 1))
        invariant
            start <= end <= n,
            n == input@.len(),
            trim_front(input@) == input@.subrange(start as int, n as int),
            trim_back(input@.subrange(start as int, n as int)) == trim_back(
                input@.subrange(start as int, end as int),
            ),
        decreases end,
    {
        proof {
            let cur = input@.subrange(start as int, end as int);
            assert(cur.drop_last() =~= input@.subrange(start as int, end as int - 1));
        }
        end = end - 1;
    }
    proof {
        let cur = input@.subrange(start as int, end as int);
        if end > start {
            assert(trim_back(cur) == cur);
        } else {
            assert(cur =~= Seq::<char>::empty());
        }
    }
    input.substring_char(start, end)
}

/// Character-for-character equality of two string slices.
pub fn str_eq(a: &str, b: &str) -> (r: bool)
    ensures
        r == (a@ == b@),
{
    let n: usize = a.unicode_len();
    if n != b.unicode_len() {
        return false;
    }
    let mut i: usize = 0;
    while i < n
        invariant
            0 <= i <= n,
            n == a@.len() == b@.len(),
            forall|j: int| 0 <= j < i ==> a@[j] == b@[j],
        decreases n - i,
    {
        if a.get_char(i) != b.get_char(i) {
            return false;
        }
        i = i + 1;
    }
    proof {
        assert(a@ =~= b@);
    }
    true
}

} // verus!
