//! One atom and the quantifier after it, for every atom but a group.
use vstd::prelude::*;
use crate::ast::{AtomModel, ParsingError, Pattern, PatternModel, SubPattern, SetItem, lemma_pattern_model, pattern_of};
use crate::bracket::{bracket_at, items_from, lemma_piece_advances, piece_at, scan_bracketed_expression};
use crate::cursor::Cursor;
use crate::repetition::{check_repetition, lemma_repetition_advances, repetition_at};

verus! {

/// A character that stands for itself: printable ASCII but the
/// metacharacters `\ . [ ] ( ) ^ $ + * ? { }`.
pub open spec fn is_normal_char(c: char) -> bool {
    ' ' <= c && c <= '~' && c != '\\' && c != '.' && c != '[' && c != ']' && c != '(' && c != ')'
        && c != '^' && c != '$' && c != '+' && c != '*' && c != '?' && c != '{' && c != '}'
}

/// The atom that starts at `i`, when it is not a group, and the index after
/// it. `(` here is a group inside a group, which is not supported.
pub open spec fn simple_atom_at(s: Seq<char>, i: int) -> Result<(AtomModel, int), ParsingError> {
    let c = s[i];
    if c == '\\' {
        if i + 1 < s.len() {
            Ok((AtomModel::Char(s[i + 1]), i + 2))
        } else {
            Err(ParsingError::MalformedExpression)
        }
    } else if c == '.' {
        Ok((AtomModel::Dot, i + 1))
    } else if c == '[' {
        bracket_at(s, i + 1)
    } else if c == '(' {
        Err(ParsingError::MalformedExpression)
    } else if c == '^' || c == '$' {
        Err(ParsingError::MisusedAnchorChracter)
    } else if is_normal_char(c) {
        Ok((AtomModel::Char(c), i + 1))
    } else {
        Err(ParsingError::NotAsciiCharacter)
    }
}

/// An atom read up to index `j`, followed by its quantifier.
pub open spec fn with_repetition(s: Seq<char>, atom: Result<(AtomModel, int), ParsingError>) -> Result<
    (PatternModel, int),
    ParsingError,
> {
    match atom {
        Err(e) => Err(e),
        Ok((a, j)) => match repetition_at(s, j) {
            Err(e) => Err(e),
            Ok((rep, k)) => Ok((PatternModel { atom: a, rep }, k)),
        },
    }
}

pub proof fn lemma_items_from_advances(s: Seq<char>, i: int, items: Seq<SetItem>)
    requires
        0 <= i,
    ensures
        items_from(s, i, items) matches Ok((_, j)) ==> i < j <= s.len(),
    decreases s.len() - i,
{
    if i < s.len() {
        lemma_piece_advances(s, i);
        if let Ok((p, j)) = piece_at(s, i) {
            if !(j < s.len() && s[j] == ']') {
                lemma_items_from_advances(s, j, crate::bracket::add_piece(items, p));
            }
        }
    }
}

/// An atom, when it reads, ends after it starts and within the text.
pub proof fn lemma_simple_atom_advances(s: Seq<char>, i: int)
    requires
        0 <= i < s.len(),
    ensures
        simple_atom_at(s, i) matches Ok((_, j)) ==> i < j <= s.len(),
{
    if s[i] == '[' {
        let negated = i + 1 < s.len() && s[i + 1] == '^';
        lemma_items_from_advances(s, if negated { i + 2 } else { i + 1 }, seq![]);
    }
}

/// An atom and its quantifier, when they read, end after they start.
pub proof fn lemma_with_repetition_advances(s: Seq<char>, i: int, atom: Result<(AtomModel, int), ParsingError>)
    requires
        0 <= i,
        atom matches Ok((_, j)) ==> i < j <= s.len(),
    ensures
        with_repetition(s, atom) matches Ok((_, k)) ==> i < k <= s.len(),
{
    if let Ok((_, j)) = atom {
        lemma_repetition_advances(s, j);
    }
}

pub fn is_normal(c: char) -> (r: bool)
    ensures
        r == is_normal_char(c),
{
    ' ' <= c && c <= '~' && c != '\\' && c != '.' && c != '[' && c != ']' && c != '(' && c != ')'
        && c != '^' && c != '$' && c != '+' && c != '*' && c != '?' && c != '{' && c != '}'
}

/// Reads one atom that is not a group, and its quantifier.
pub fn scan_simple_pattern(cur: &mut Cursor) -> (r: Result<Pattern, ParsingError>)
    requires
        old(cur).wf(),
        old(cur).pos() < old(cur).text().len(),
    ensures
        final(cur).wf(),
        final(cur).text() == old(cur).text(),
        match with_repetition(old(cur).text(), simple_atom_at(old(cur).text(), old(cur).pos())) {
            Ok((pm, j)) => r matches Ok(p) && pattern_of(p) == pm && final(cur).pos() == j,
            Err(e) => r == Err::<Pattern, ParsingError>(e),
        },
{
    let ghost t = cur.text();
    let ghost i = cur.pos();
    let atom = match cur.next_char() {
        Some('\\') => match cur.next_char() {
            Some(c) => {
                SubPattern::Char(c)
            },
            None => {
                return Err(ParsingError::MalformedExpression);
            },
        },
        Some('.') => {
            SubPattern::Dot
        },
        Some('[') => match scan_bracketed_expression(cur) {
            Ok(sp) => sp,
            Err(e) => {
                return Err(e);
            },
        },
        Some('(') => {
            return Err(ParsingError::MalformedExpression);
        },
        Some('^') | Some('$') => {
            return Err(ParsingError::MisusedAnchorChracter);
        },
        Some(c) => {
            if is_normal(c) {
                SubPattern::Char(c)
            } else {
                return Err(ParsingError::NotAsciiCharacter);
            }
        },
        None => {
            return Err(ParsingError::MalformedExpression);
        },
    };
    match check_repetition(cur) {
        Ok(repetition) => {
            let p = Pattern { sub_pattern: atom, repetition };
            proof {
                lemma_pattern_model(p);
            }
            Ok(p)
        },
        Err(e) => Err(e),
    }
}

} // verus!
