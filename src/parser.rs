//! The top level: anchors and the sequence of atoms of a whole pattern.
use vstd::prelude::*;
use crate::alternation::{alternation_at, check_alternation};
use crate::ast::{
    AtomModel, Anchor, Expression, ParsingError, Pattern, PatternModel, expression_of, lemma_pattern_model, pattern_of,
    patterns_of,
};
use crate::cursor::{Cursor, look_for};
use crate::pattern::{
    lemma_simple_atom_advances, lemma_with_repetition_advances, scan_simple_pattern, simple_atom_at,
    with_repetition,
};
use crate::repetition::check_repetition;
use crate::text::lemma_find_from_bounds;

verus! {

/// The atom that starts at `i`: a group, or any other atom.
pub open spec fn atom_at(s: Seq<char>, i: int) -> Result<(AtomModel, int), ParsingError> {
    if s[i] == '(' {
        alternation_at(s, i + 1)
    } else {
        simple_atom_at(s, i)
    }
}

/// The atoms stop at the end of the text, or at a `$` that is its last
/// character.
pub open spec fn ends_patterns(s: Seq<char>, i: int) -> bool {
    i >= s.len() || (s[i] == '$' && i + 1 == s.len())
}

/// The patterns from `i` on, after those in `acc`, and the index where they
/// stop.
pub open spec fn patterns_from(s: Seq<char>, i: int, acc: Seq<PatternModel>) -> Result<
    (Seq<PatternModel>, int),
    ParsingError,
>
    decreases s.len() - i,
    via patterns_from_decreases
{
    if i < 0 || ends_patterns(s, i) {
        Ok((acc, i))
    } else {
        match with_repetition(s, atom_at(s, i)) {
            Err(e) => Err(e),
            Ok((p, j)) => patterns_from(s, j, acc.push(p)),
        }
    }
}

/// An atom with its quantifier, when it reads, ends after it starts.
pub proof fn lemma_pattern_advances(s: Seq<char>, i: int)
    requires
        0 <= i < s.len(),
    ensures
        with_repetition(s, atom_at(s, i)) matches Ok((_, j)) ==> i < j <= s.len(),
{
    if s[i] == '(' {
        lemma_find_from_bounds(s, ')', i + 1);
    } else {
        lemma_simple_atom_advances(s, i);
    }
    lemma_with_repetition_advances(s, i, atom_at(s, i));
}

#[via_fn]
proof fn patterns_from_decreases(s: Seq<char>, i: int, acc: Seq<PatternModel>) {
    if 0 <= i < s.len() {
        lemma_pattern_advances(s, i);
    }
}

/// Whether the text opens with the start anchor `^`.
pub open spec fn starts_anchored(s: Seq<char>) -> bool {
    s.len() > 0 && s[0] == '^'
}

/// The anchor for a leading `^` and a trailing `$`.
pub open spec fn anchor_of(start: bool, end: bool) -> Anchor {
    if start && end {
        Anchor::Both
    } else if start {
        Anchor::Start
    } else if end {
        Anchor::End
    } else {
        Anchor::Unanchored
    }
}

/// What a whole pattern text parses to.
pub open spec fn parse_expression(s: Seq<char>) -> Result<(Anchor, Seq<PatternModel>), ParsingError> {
    match patterns_from(s, if starts_anchored(s) { 1 } else { 0 }, seq![]) {
        Err(e) => Err(e),
        Ok((ps, j)) => Ok((anchor_of(starts_anchored(s), j < s.len()), ps)),
    }
}

/// Reads one atom, a group included, and its quantifier.
pub fn scan_pattern(cur: &mut Cursor) -> (r: Result<Pattern, ParsingError>)
    requires
        old(cur).wf(),
        old(cur).pos() < old(cur).text().len(),
    ensures
        final(cur).wf(),
        final(cur).text() == old(cur).text(),
        match with_repetition(old(cur).text(), atom_at(old(cur).text(), old(cur).pos())) {
            Ok((pm, j)) => r matches Ok(p) && pattern_of(p) == pm && final(cur).pos() == j,
            Err(e) => r == Err::<Pattern, ParsingError>(e),
        },
{
    if look_for('(', cur) {
        let sub_pattern = match check_alternation(cur) {
            Ok(sp) => sp,
            Err(e) => {
                return Err(e);
            },
        };
        match check_repetition(cur) {
            Ok(repetition) => {
                let p = Pattern { sub_pattern, repetition };
                proof {
                    lemma_pattern_model(p);
                }
                Ok(p)
            },
            Err(e) => Err(e),
        }
    } else {
        scan_simple_pattern(cur)
    }
}

/// Whether the atoms of the pattern stop here.
fn at_patterns_end(cur: &Cursor) -> (r: bool)
    requires
        cur.wf(),
    ensures
        r == ends_patterns(cur.text(), cur.pos()),
{
    match cur.peek() {
        None => true,
        Some(c) => c == '$' && cur.remaining() == 1,
    }
}

/// The model of a parse result.
pub open spec fn result_model(r: Result<Expression, ParsingError>) -> Result<
    (Anchor, Seq<PatternModel>),
    ParsingError,
> {
    match r {
        Ok(e) => Ok(expression_of(e)),
        Err(x) => Err(x),
    }
}

/// Parses a whole pattern.
pub fn process(line: &str) -> (r: Result<Expression, ParsingError>)
    ensures
        result_model(r) == parse_expression(line@),
{
    let mut cur = Cursor::new(line);
    let ghost t = line@;
    let mut anchor = Anchor::Unanchored;
    if look_for('^', &mut cur) {
        anchor = Anchor::Start;
    }
    let ghost begin = cur.pos();
    let mut patterns: Vec<Pattern> = Vec::new();
    assert(patterns_of(patterns@) =~= seq![]);
    while !at_patterns_end(&cur)
        invariant
            cur.wf(),
            cur.text() == t,
            t == line@,
            begin == (if starts_anchored(t) { 1int } else { 0int }),
            anchor == (if starts_anchored(t) { Anchor::Start } else { Anchor::Unanchored }),
            begin <= cur.pos() <= t.len(),
            patterns_from(t, begin, seq![]) == patterns_from(t, cur.pos(), patterns_of(patterns@)),
        decreases t.len() - cur.pos(),
    {
        let ghost i = cur.pos();
        let ghost before = patterns_of(patterns@);
        proof {
            lemma_pattern_advances(t, i);
        }
        match scan_pattern(&mut cur) {
            Ok(p) => {
                patterns.push(p);
                assert(patterns_of(patterns@) =~= before.push(p@));
            },
            Err(e) => {
                assert(patterns_from(t, i, before) == Err::<(Seq<PatternModel>, int), ParsingError>(e));
                return Err(e);
            },
        }
    }
    assert(patterns_from(t, cur.pos(), patterns_of(patterns@)) == Ok::<(Seq<PatternModel>, int), ParsingError>(
        (patterns_of(patterns@), cur.pos()),
    ));
    if look_for('$', &mut cur) {
        anchor = match anchor {
            Anchor::Start => Anchor::Both,
            Anchor::Unanchored => Anchor::End,
            _ => {
                return Err(ParsingError::MisusedAnchorChracter);
            },
        };
    }
    Ok((anchor, patterns))
}

} // verus!
