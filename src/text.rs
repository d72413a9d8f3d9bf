//! Character classes and searches over pattern text.
use vstd::prelude::*;

verus! {

pub open spec fn is_digit(c: char) -> bool {
    '0' <= c && c <= '9'
}

pub open spec fn is_letter(c: char) -> bool {
    ('a' <= c && c <= 'z') || ('A' <= c && c <= 'Z')
}

/// Whether a character has Unicode's Alphabetic property.
pub uninterp spec fn alphabetic(c: char) -> bool;

/// Whether a character is in one of Unicode's numeric general categories
/// (Nd, Nl, No).
pub uninterp spec fn numeric(c: char) -> bool;

/// A character of a class name: an alphabetic character. Among ASCII
/// characters those are the letters.
pub open spec fn is_name_char(c: char) -> bool {
    if (c as u32) < 128 {
        is_letter(c)
    } else {
        alphabetic(c)
    }
}

/// A character allowed among the counts of a brace quantifier: a numeric
/// character. Among ASCII characters those are the digits.
pub open spec fn is_count_char(c: char) -> bool {
    if (c as u32) < 128 {
        is_digit(c)
    } else {
        numeric(c)
    }
}

/// Relies on std's `char::is_alphabetic`: whether `c` has the Alphabetic
/// property, which among ASCII characters holds of the letters exactly.
#[verifier::external_body]
pub fn char_is_alphabetic(c: char) -> (r: bool)
    ensures
        r == alphabetic(c),
        (c as u32) < 128 ==> r == is_letter(c),
{
    c.is_alphabetic()
}

/// Relies on std's `char::is_numeric`: whether `c` is in a numeric general
/// category, which among ASCII characters holds of the digits exactly.
#[verifier::external_body]
pub fn char_is_numeric(c: char) -> (r: bool)
    ensures
        r == numeric(c),
        (c as u32) < 128 ==> r == is_digit(c),
{
    c.is_numeric()
}

/// The first index at or after `k` where `x` holds `c`, or `x.len()`.
pub open spec fn find_from(x: Seq<char>, c: char, k: int) -> int
    decreases x.len() - k,
{
    if k < 0 || k >= x.len() {
        x.len() as int
    } else if x[k] == c {
        k
    } else {
        find_from(x, c, k + 1)
    }
}

/// `find_from` is the first hit: `m` is it when nothing in `[k, m)` is `c`
/// and `m` holds `c` or is the end.
pub proof fn lemma_find_from(x: Seq<char>, c: char, k: int, m: int)
    requires
        0 <= k <= m <= x.len(),
        forall|j: int| k <= j < m ==> x[j] != c,
        m == x.len() || x[m] == c,
    ensures
        find_from(x, c, k) == m,
    decreases m - k,
{
    if k < m {
        lemma_find_from(x, c, k + 1, m);
    }
}

pub proof fn lemma_find_from_bounds(x: Seq<char>, c: char, k: int)
    requires
        0 <= k <= x.len(),
    ensures
        k <= find_from(x, c, k) <= x.len(),
    decreases x.len() - k,
{
    if k < x.len() && x[k] != c {
        lemma_find_from_bounds(x, c, k + 1);
    }
}

/// Any occurrence at or after `k` bounds the first one.
pub proof fn lemma_find_from_at_most(x: Seq<char>, c: char, k: int, m: int)
    requires
        0 <= k <= m < x.len(),
        x[m] == c,
    ensures
        k <= find_from(x, c, k) <= m,
    decreases m - k,
{
    if k < m && x[k] != c {
        lemma_find_from_at_most(x, c, k + 1, m);
    }
}

} // verus!
