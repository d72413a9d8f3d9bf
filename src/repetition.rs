//! Quantifiers: `?`, `+`, `*` and the brace forms `{n}`, `{n,}`, `{,m}`, `{n,m}`.
use vstd::prelude::*;
use crate::ast::{ParsingError, Repetition};
use crate::cursor::{Cursor, look_for};
use crate::text::{char_is_numeric, is_count_char, is_digit, find_from, lemma_find_from, lemma_find_from_at_most};

verus! {

/// The value of a run of decimal digits.
pub open spec fn digits_value(d: Seq<char>) -> nat
    decreases d.len(),
{
    if d.len() == 0 {
        0
    } else {
        digits_value(d.drop_last()) * 10 + ((d.last() as u32 - '0' as u32) as nat)
    }
}

/// Whether every character is an ASCII decimal digit.
pub open spec fn all_digits(d: Seq<char>) -> bool {
    forall|k: int| 0 <= k < d.len() ==> is_digit(#[trigger] d[k])
}

/// A run of numeric characters read as a `usize`: `NotANumber` unless all
/// of them are ASCII decimal digits and the value fits.
pub open spec fn number_of(d: Seq<char>) -> Result<usize, ParsingError> {
    if all_digits(d) && digits_value(d) <= usize::MAX {
        Ok(digits_value(d) as usize)
    } else {
        Err(ParsingError::NotANumber)
    }
}

/// The quantifier that `{first,second}` denotes. A count range whose lower
/// bound is above its upper bound is refused.
pub open spec fn bounds_of(first: Seq<char>, second: Seq<char>) -> Result<Repetition, ParsingError> {
    if first.len() == 0 && second.len() == 0 {
        Err(ParsingError::MalformedExpression)
    } else if first.len() == 0 {
        match number_of(second) {
            Ok(m) => Ok(Repetition::AtMost(m)),
            Err(e) => Err(e),
        }
    } else if second.len() == 0 {
        match number_of(first) {
            Ok(n) => Ok(Repetition::AtLeast(n)),
            Err(e) => Err(e),
        }
    } else {
        match number_of(first) {
            Err(e) => Err(e),
            Ok(n) => match number_of(second) {
                Err(e) => Err(e),
                Ok(m) => if n <= m {
                    Ok(Repetition::InRange(n, m))
                } else {
                    Err(ParsingError::IncorrectRepetitionLimits)
                },
            },
        }
    }
}

/// The quantifier that a brace body of digits and commas denotes.
pub open spec fn repetition_of_body(body: Seq<char>) -> Result<Repetition, ParsingError> {
    let c = find_from(body, ',', 0);
    if c == body.len() {
        if body.len() == 0 {
            Err(ParsingError::MalformedExpression)
        } else {
            match number_of(body) {
                Ok(n) => Ok(Repetition::Exactly(n)),
                Err(e) => Err(e),
            }
        }
    } else if find_from(body, ',', c + 1) < body.len() {
        Err(ParsingError::MalformedExpression)
    } else {
        bounds_of(body.take(c), body.skip(c + 1))
    }
}

/// The end of the run of numeric characters and commas that starts at `i`.
pub open spec fn brace_body_end(s: Seq<char>, i: int) -> int
    decreases s.len() - i,
{
    if 0 <= i < s.len() && (is_count_char(s[i]) || s[i] == ',') {
        brace_body_end(s, i + 1)
    } else {
        i
    }
}

/// A brace quantifier whose body starts at `i` (just after `{`): the quantifier
/// and the index after the closing `}`.
pub open spec fn braces_at(s: Seq<char>, i: int) -> Result<(Repetition, int), ParsingError> {
    let e = brace_body_end(s, i);
    if e < s.len() && s[e] == '}' {
        match repetition_of_body(s.subrange(i, e)) {
            Ok(r) => Ok((r, e + 1)),
            Err(x) => Err(x),
        }
    } else {
        Err(ParsingError::MalformedExpression)
    }
}

/// The quantifier that follows an atom at `i`, if any, and the index after it.
pub open spec fn repetition_at(s: Seq<char>, i: int) -> Result<(Repetition, int), ParsingError> {
    if 0 <= i < s.len() && s[i] == '+' {
        Ok((Repetition::AtLeastOnce, i + 1))
    } else if 0 <= i < s.len() && s[i] == '?' {
        Ok((Repetition::AtMostOnce, i + 1))
    } else if 0 <= i < s.len() && s[i] == '*' {
        Ok((Repetition::ZeroOrMore, i + 1))
    } else if 0 <= i < s.len() && s[i] == '{' {
        braces_at(s, i + 1)
    } else {
        Ok((Repetition::Once, i))
    }
}

pub proof fn lemma_brace_body_end_bounds(s: Seq<char>, i: int)
    requires
        0 <= i <= s.len(),
    ensures
        i <= brace_body_end(s, i) <= s.len(),
    decreases s.len() - i,
{
    if i < s.len() && (is_count_char(s[i]) || s[i] == ',') {
        lemma_brace_body_end_bounds(s, i + 1);
    }
}

/// A quantifier never moves backwards.
pub proof fn lemma_repetition_advances(s: Seq<char>, i: int)
    requires
        0 <= i <= s.len(),
    ensures
        repetition_at(s, i) matches Ok((_, j)) ==> i <= j <= s.len(),
{
    if i < s.len() && s[i] == '{' {
        lemma_brace_body_end_bounds(s, i + 1);
    }
}

proof fn lemma_digits_value_push(d: Seq<char>, c: char)
    ensures
        digits_value(d.push(c)) == digits_value(d) * 10 + ((c as u32 - '0' as u32) as nat),
{
    assert(d.push(c).drop_last() =~= d);
}

/// Reads a run of ASCII decimal digits as a `usize`; `None` when another
/// character is among them or the value does not fit.
pub fn parse_number(d: &Vec<char>) -> (r: Option<usize>)
    ensures
        r == (if all_digits(d@) && digits_value(d@) <= usize::MAX {
            Some(digits_value(d@) as usize)
        } else {
            Option::<usize>::None
        }),
{
    let mut acc: usize = 0;
    let mut overflow = false;
    let mut i: usize = 0;
    while i < d.len()
        invariant
            i <= d@.len(),
            forall|k: int| 0 <= k < i ==> is_digit(#[trigger] d@[k]),
            !overflow ==> acc as nat == digits_value(d@.take(i as int)),
            overflow ==> digits_value(d@.take(i as int)) > usize::MAX,
        decreases d@.len() - i,
    {
        let c = d[i];
        if !('0' <= c && c <= '9') {
            return None;
        }
        let digit = (c as u32 - '0' as u32) as usize;
        proof {
            assert(d@.take(i + 1) =~= d@.take(i as int).push(c));
            lemma_digits_value_push(d@.take(i as int), c);
        }
        if !overflow {
            match acc.checked_mul(10) {
                Some(m) => match m.checked_add(digit) {
                    Some(v) => {
                        acc = v;
                    },
                    None => {
                        overflow = true;
                    },
                },
                None => {
                    overflow = true;
                },
            }
        }
        i = i + 1;
    }
    assert(d@.take(i as int) =~= d@);
    assert(all_digits(d@));
    if overflow {
        None
    } else {
        Some(acc)
    }
}

/// The quantifier that the digits read inside braces denote: `first` before
/// the comma (or all of them, when there is none) and `second` after it.
fn repetition_of_buffers(first: &Vec<char>, second: &Vec<char>, seen_comma: bool) -> (r: Result<
    Repetition,
    ParsingError,
>)
    ensures
        r == (if !seen_comma {
            if first@.len() == 0 {
                Err(ParsingError::MalformedExpression)
            } else {
                match number_of(first@) {
                    Ok(n) => Ok(Repetition::Exactly(n)),
                    Err(e) => Err(e),
                }
            }
        } else {
            bounds_of(first@, second@)
        }),
{
    if !seen_comma {
        if first.len() == 0 {
            return Err(ParsingError::MalformedExpression);
        }
        match parse_number(first) {
            Some(n) => Ok(Repetition::Exactly(n)),
            None => Err(ParsingError::NotANumber),
        }
    } else if first.len() == 0 && second.len() == 0 {
        Err(ParsingError::MalformedExpression)
    } else if first.len() == 0 {
        match parse_number(second) {
            Some(m) => Ok(Repetition::AtMost(m)),
            None => Err(ParsingError::NotANumber),
        }
    } else if second.len() == 0 {
        match parse_number(first) {
            Some(n) => Ok(Repetition::AtLeast(n)),
            None => Err(ParsingError::NotANumber),
        }
    } else {
        let n = match parse_number(first) {
            Some(n) => n,
            None => {
                return Err(ParsingError::NotANumber);
            },
        };
        let m = match parse_number(second) {
            Some(m) => m,
            None => {
                return Err(ParsingError::NotANumber);
            },
        };
        if n <= m {
            Ok(Repetition::InRange(n, m))
        } else {
            Err(ParsingError::IncorrectRepetitionLimits)
        }
    }
}

/// Reads `{...}` starting at the `{` under the cursor.
pub fn exact_repetitions(cur: &mut Cursor) -> (r: Result<Repetition, ParsingError>)
    requires
        old(cur).wf(),
        old(cur).pos() < old(cur).text().len(),
        old(cur).text()[old(cur).pos()] == '{',
    ensures
        final(cur).wf(),
        final(cur).text() == old(cur).text(),
        match braces_at(old(cur).text(), old(cur).pos() + 1) {
            Ok((rep, j)) => r == Ok::<Repetition, ParsingError>(rep) && final(cur).pos() == j,
            Err(e) => r == Err::<Repetition, ParsingError>(e),
        },
{
    let ghost t = cur.text();
    let _ = cur.next_char();
    let ghost start = cur.pos();
    let mut first: Vec<char> = Vec::new();
    let mut second: Vec<char> = Vec::new();
    let mut seen_comma = false;
    let ghost mut comma: int = 0;
    loop
        invariant
            cur.wf(),
            cur.text() == t,
            t == old(cur).text(),
            start == old(cur).pos() + 1,
            0 < start <= cur.pos() <= t.len(),
            forall|k: int| start <= k < cur.pos() ==> is_count_char(t[k]) || t[k] == ',',
            brace_body_end(t, start) == brace_body_end(t, cur.pos()),
            !seen_comma ==> first@ == t.subrange(start, cur.pos()) && second@.len() == 0
                && forall|k: int| start <= k < cur.pos() ==> t[k] != ',',
            seen_comma ==> start <= comma < cur.pos() && t[comma] == ','
                && first@ == t.subrange(start, comma) && second@ == t.subrange(comma + 1, cur.pos())
                && (forall|k: int| start <= k < comma ==> t[k] != ',')
                && (forall|k: int| comma < k < cur.pos() ==> t[k] != ','),
        decreases t.len() - cur.pos(),
    {
        let ghost p = cur.pos();
        let next = cur.next_char();
        match next {
            None => {
                return Err(ParsingError::MalformedExpression);
            },
            Some(c) => {
                if c == ',' {
                    if seen_comma {
                        proof {
                            lemma_brace_body_end_bounds(t, p + 1);
                            let e = brace_body_end(t, start);
                            let body = t.subrange(start, e);
                            if e < t.len() && t[e] == '}' {
                                lemma_find_from(body, ',', 0, comma - start);
                                lemma_find_from_at_most(body, ',', comma - start + 1, p - start);
                            }
                        }
                        return Err(ParsingError::MalformedExpression);
                    }
                    seen_comma = true;
                    proof {
                        comma = p;
                    }
                } else if c == '}' {
                    proof {
                        let body = t.subrange(start, p);
                        if seen_comma {
                            lemma_find_from(body, ',', 0, comma - start);
                            lemma_find_from(body, ',', comma - start + 1, body.len() as int);
                            assert(body.take(comma - start) =~= first@);
                            assert(body.skip(comma - start + 1) =~= second@);
                        } else {
                            lemma_find_from(body, ',', 0, body.len() as int);
                            assert(body =~= first@);
                        }
                    }
                    return repetition_of_buffers(&first, &second, seen_comma);
                } else if char_is_numeric(c) {
                    if seen_comma {
                        second.push(c);
                    } else {
                        first.push(c);
                    }
                } else {
                    return Err(ParsingError::MalformedExpression);
                }
            },
        }
    }
}

/// Reads the quantifier after an atom, if there is one.
pub fn check_repetition(cur: &mut Cursor) -> (r: Result<Repetition, ParsingError>)
    requires
        old(cur).wf(),
    ensures
        final(cur).wf(),
        final(cur).text() == old(cur).text(),
        match repetition_at(old(cur).text(), old(cur).pos()) {
            Ok((rep, j)) => r == Ok::<Repetition, ParsingError>(rep) && final(cur).pos() == j,
            Err(e) => r == Err::<Repetition, ParsingError>(e),
        },
{
    if look_for('+', cur) {
        Ok(Repetition::AtLeastOnce)
    } else if look_for('?', cur) {
        Ok(Repetition::AtMostOnce)
    } else if look_for('*', cur) {
        Ok(Repetition::ZeroOrMore)
    } else if cur.peek() == Some('{') {
        exact_repetitions(cur)
    } else {
        Ok(Repetition::Once)
    }
}

} // verus!
