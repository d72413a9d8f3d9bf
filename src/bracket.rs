//! Bracket expressions: `[...]` and `[^...]`, with named classes `[:name:]`,
//! ranges `a-z`, escaped members and literal members.
use vstd::prelude::*;
use crate::ast::{AtomModel, ParsingError, PredefinedSet, Range, SetItem, Sets, SubPattern, atom_of, set_item_of, set_items_of};
use crate::cursor::{Cursor, look_for};
use crate::text::{char_is_alphabetic, is_name_char};

verus! {

/// One construct read inside brackets, before it joins the members.
pub enum SetPiece {
    Class(PredefinedSet),
    Span(char, char),
    Member(char),
}

/// The name written for each class.
pub open spec fn class_name(p: PredefinedSet) -> Seq<char> {
    match p {
        PredefinedSet::AlNum => seq!['a', 'l', 'n', 'u', 'm'],
        PredefinedSet::Alpha => seq!['a', 'l', 'p', 'h', 'a'],
        PredefinedSet::Blank => seq!['b', 'l', 'a', 'n', 'k'],
        PredefinedSet::Digit => seq!['d', 'i', 'g', 'i', 't'],
        PredefinedSet::Graph => seq!['g', 'r', 'a', 'p', 'h'],
        PredefinedSet::Lower => seq!['l', 'o', 'w', 'e', 'r'],
        PredefinedSet::Upper => seq!['u', 'p', 'p', 'e', 'r'],
        PredefinedSet::Print => seq!['p', 'r', 'i', 'n', 't'],
        PredefinedSet::Punct => seq!['p', 'u', 'n', 'c', 't'],
        PredefinedSet::Space => seq!['s', 'p', 'a', 'c', 'e'],
        PredefinedSet::XDigit => seq!['x', 'd', 'i', 'g', 'i', 't'],
    }
}

/// The class whose name is `name`, if any.
pub open spec fn class_named(name: Seq<char>) -> Option<PredefinedSet> {
    if name == class_name(PredefinedSet::AlNum) {
        Some(PredefinedSet::AlNum)
    } else if name == class_name(PredefinedSet::Alpha) {
        Some(PredefinedSet::Alpha)
    } else if name == class_name(PredefinedSet::Blank) {
        Some(PredefinedSet::Blank)
    } else if name == class_name(PredefinedSet::Digit) {
        Some(PredefinedSet::Digit)
    } else if name == class_name(PredefinedSet::Graph) {
        Some(PredefinedSet::Graph)
    } else if name == class_name(PredefinedSet::Lower) {
        Some(PredefinedSet::Lower)
    } else if name == class_name(PredefinedSet::Upper) {
        Some(PredefinedSet::Upper)
    } else if name == class_name(PredefinedSet::Print) {
        Some(PredefinedSet::Print)
    } else if name == class_name(PredefinedSet::Punct) {
        Some(PredefinedSet::Punct)
    } else if name == class_name(PredefinedSet::Space) {
        Some(PredefinedSet::Space)
    } else if name == class_name(PredefinedSet::XDigit) {
        Some(PredefinedSet::XDigit)
    } else {
        Option::<PredefinedSet>::None
    }
}

/// The end of the run of alphabetic characters that starts at `k`.
pub open spec fn name_end(s: Seq<char>, k: int) -> int
    decreases s.len() - k,
{
    if 0 <= k < s.len() && is_name_char(s[k]) {
        name_end(s, k + 1)
    } else {
        k
    }
}

/// A class token whose name starts at `i` (just after `[:`): the class and
/// the index after `:]`. The closing `:]` is checked before the name.
pub open spec fn class_at(s: Seq<char>, i: int) -> Result<(PredefinedSet, int), ParsingError> {
    let e = name_end(s, i);
    if e + 1 < s.len() && s[e] == ':' && s[e + 1] == ']' {
        match class_named(s.subrange(i, e)) {
            Some(c) => Ok((c, e + 2)),
            None => Err(ParsingError::UnknownPredefinedSetName),
        }
    } else {
        Err(ParsingError::NotTerminatedProperly)
    }
}

/// The construct that starts at `i` inside brackets, and the index after it.
pub open spec fn piece_at(s: Seq<char>, i: int) -> Result<(SetPiece, int), ParsingError> {
    let c = s[i];
    if c == '[' {
        if i + 1 >= s.len() {
            Err(ParsingError::NotTerminatedProperly)
        } else if s[i + 1] == ':' {
            match class_at(s, i + 2) {
                Ok((p, j)) => Ok((SetPiece::Class(p), j)),
                Err(e) => Err(e),
            }
        } else {
            Err(ParsingError::UnknownGuardCharacter)
        }
    } else if c == '\\' {
        if i + 1 < s.len() {
            Ok((SetPiece::Member(s[i + 1]), i + 2))
        } else {
            Err(ParsingError::MalformedExpression)
        }
    } else if c == '-' {
        Ok((SetPiece::Member('-'), i + 1))
    } else if i + 2 < s.len() && s[i + 1] == '-' && s[i + 2] != ']' {
        if c < s[i + 2] {
            Ok((SetPiece::Span(c, s[i + 2]), i + 3))
        } else {
            Err(ParsingError::IncorrectRepetitionLimits)
        }
    } else {
        Ok((SetPiece::Member(c), i + 1))
    }
}

/// The members after one more construct: a literal joins the literal
/// members just before it, if the last member is one.
pub open spec fn add_piece(items: Seq<SetItem>, p: SetPiece) -> Seq<SetItem> {
    match p {
        SetPiece::Class(c) => items.push(SetItem::Class(c)),
        SetPiece::Span(lo, hi) => items.push(SetItem::Span(lo, hi)),
        SetPiece::Member(c) => if items.len() > 0 && items.last() is Chars {
            items.update(items.len() - 1, SetItem::Chars(items.last()->Chars_0.push(c)))
        } else {
            items.push(SetItem::Chars(seq![c]))
        },
    }
}

pub proof fn lemma_name_end_bounds(s: Seq<char>, k: int)
    requires
        0 <= k <= s.len(),
    ensures
        k <= name_end(s, k) <= s.len(),
    decreases s.len() - k,
{
    if k < s.len() && is_name_char(s[k]) {
        lemma_name_end_bounds(s, k + 1);
    }
}

/// Every construct inside brackets consumes at least one character.
pub proof fn lemma_piece_advances(s: Seq<char>, i: int)
    requires
        0 <= i < s.len(),
    ensures
        piece_at(s, i) matches Ok((_, j)) ==> i < j <= s.len(),
{
    if s[i] == '[' && i + 2 <= s.len() {
        lemma_name_end_bounds(s, i + 2);
    }
}

/// The members from `i` up to the closing `]`, added to `items`, and the
/// index after the `]`. The first construct is read before any `]` is
/// looked for, so a `]` right after `[` or `[^` is a member.
pub open spec fn items_from(s: Seq<char>, i: int, items: Seq<SetItem>) -> Result<
    (Seq<SetItem>, int),
    ParsingError,
>
    decreases s.len() - i,
    via items_from_decreases
{
    if i < 0 || i >= s.len() {
        Err(ParsingError::NotTerminatedProperly)
    } else {
        match piece_at(s, i) {
            Err(e) => Err(e),
            Ok((p, j)) => if j < s.len() && s[j] == ']' {
                Ok((add_piece(items, p), j + 1))
            } else {
                items_from(s, j, add_piece(items, p))
            },
        }
    }
}

#[via_fn]
proof fn items_from_decreases(s: Seq<char>, i: int, items: Seq<SetItem>) {
    if 0 <= i < s.len() {
        lemma_piece_advances(s, i);
    }
}

/// A bracket expression whose body starts at `i` (just after `[`).
pub open spec fn bracket_at(s: Seq<char>, i: int) -> Result<(AtomModel, int), ParsingError> {
    let negated = 0 <= i < s.len() && s[i] == '^';
    match items_from(s, if negated { i + 1 } else { i }, seq![]) {
        Ok((items, j)) => Ok((AtomModel::Bracket(items, negated), j)),
        Err(e) => Err(e),
    }
}

/// The characters that name `p`.
fn name_of_set(p: PredefinedSet) -> (r: Vec<char>)
    ensures
        r@ == class_name(p),
{
    match p {
        PredefinedSet::AlNum => vec!['a', 'l', 'n', 'u', 'm'],
        PredefinedSet::Alpha => vec!['a', 'l', 'p', 'h', 'a'],
        PredefinedSet::Blank => vec!['b', 'l', 'a', 'n', 'k'],
        PredefinedSet::Digit => vec!['d', 'i', 'g', 'i', 't'],
        PredefinedSet::Graph => vec!['g', 'r', 'a', 'p', 'h'],
        PredefinedSet::Lower => vec!['l', 'o', 'w', 'e', 'r'],
        PredefinedSet::Upper => vec!['u', 'p', 'p', 'e', 'r'],
        PredefinedSet::Print => vec!['p', 'r', 'i', 'n', 't'],
        PredefinedSet::Punct => vec!['p', 'u', 'n', 'c', 't'],
        PredefinedSet::Space => vec!['s', 'p', 'a', 'c', 'e'],
        PredefinedSet::XDigit => vec!['x', 'd', 'i', 'g', 'i', 't'],
    }
}

fn same_chars(a: &Vec<char>, b: &Vec<char>) -> (r: bool)
    ensures
        r == (a@ == b@),
{
    if a.len() != b.len() {
        return false;
    }
    let mut i: usize = 0;
    while i < a.len()
        invariant
            a@.len() == b@.len(),
            i <= a@.len(),
            forall|k: int| 0 <= k < i ==> a@[k] == b@[k],
        decreases a@.len() - i,
    {
        if a[i] != b[i] {
            return false;
        }
        i = i + 1;
    }
    assert(a@ =~= b@);
    true
}

fn is_named(name: &Vec<char>, p: PredefinedSet) -> (r: bool)
    ensures
        r == (name@ == class_name(p)),
{
    same_chars(name, &name_of_set(p))
}

/// The class whose name is `name`.
pub fn match_name_of_set(name: &Vec<char>) -> (r: Result<PredefinedSet, ParsingError>)
    ensures
        r == (match class_named(name@) {
            Some(c) => Ok(c),
            None => Err(ParsingError::UnknownPredefinedSetName),
        }),
{
    if is_named(name, PredefinedSet::AlNum) {
        Ok(PredefinedSet::AlNum)
    } else if is_named(name, PredefinedSet::Alpha) {
        Ok(PredefinedSet::Alpha)
    } else if is_named(name, PredefinedSet::Blank) {
        Ok(PredefinedSet::Blank)
    } else if is_named(name, PredefinedSet::Digit) {
        Ok(PredefinedSet::Digit)
    } else if is_named(name, PredefinedSet::Graph) {
        Ok(PredefinedSet::Graph)
    } else if is_named(name, PredefinedSet::Lower) {
        Ok(PredefinedSet::Lower)
    } else if is_named(name, PredefinedSet::Upper) {
        Ok(PredefinedSet::Upper)
    } else if is_named(name, PredefinedSet::Print) {
        Ok(PredefinedSet::Print)
    } else if is_named(name, PredefinedSet::Punct) {
        Ok(PredefinedSet::Punct)
    } else if is_named(name, PredefinedSet::Space) {
        Ok(PredefinedSet::Space)
    } else if is_named(name, PredefinedSet::XDigit) {
        Ok(PredefinedSet::XDigit)
    } else {
        Err(ParsingError::UnknownPredefinedSetName)
    }
}

/// Reads `:name:]`, the cursor standing on the `:` after a `[` of the body.
pub fn get_predefined_set(cur: &mut Cursor) -> (r: Result<Sets, ParsingError>)
    requires
        old(cur).wf(),
        old(cur).pos() < old(cur).text().len(),
        old(cur).text()[old(cur).pos()] == ':',
    ensures
        final(cur).wf(),
        final(cur).text() == old(cur).text(),
        match class_at(old(cur).text(), old(cur).pos() + 1) {
            Ok((c, j)) => r == Ok::<Sets, ParsingError>(Sets::PredefinedSets(c)) && final(cur).pos() == j,
            Err(e) => r == Err::<Sets, ParsingError>(e),
        },
{
    let ghost t = cur.text();
    let _ = cur.next_char();
    let ghost start = cur.pos();
    let mut name: Vec<char> = Vec::new();
    loop
        invariant
            cur.wf(),
            cur.text() == t,
            t == old(cur).text(),
            start == old(cur).pos() + 1,
            0 < start <= cur.pos() <= t.len(),
            name@ == t.subrange(start, cur.pos()),
            name_end(t, start) == name_end(t, cur.pos()),
        ensures
            name_end(t, start) == cur.pos(),
        decreases t.len() - cur.pos(),
    {
        match cur.peek() {
            Some(c) => {
                if char_is_alphabetic(c) {
                    let _ = cur.next_char();
                    name.push(c);
                    assert(name@ =~= t.subrange(start, cur.pos()));
                } else {
                    break;
                }
            },
            None => {
                break;
            },
        }
    }
    let terminated = look_for(':', cur) && look_for(']', cur);
    if !terminated {
        return Err(ParsingError::NotTerminatedProperly);
    }
    match match_name_of_set(&name) {
        Ok(c) => Ok(Sets::PredefinedSets(c)),
        Err(e) => Err(e),
    }
}

/// Adds a literal member: it joins the literal members just before it, if
/// the last member is one.
fn add_char(sets: &mut Vec<Sets>, c: char)
    ensures
        set_items_of(final(sets)@) == add_piece(set_items_of(old(sets)@), SetPiece::Member(c)),
{
    let ghost before = set_items_of(sets@);
    let n = sets.len();
    if n == 0 {
        let v = vec![c];
        assert(v@ =~= seq![c]);
        sets.push(Sets::Custom(v));
    } else {
        let last = sets.pop();
        assert(set_items_of(sets@) =~= before.drop_last());
        match last {
            Some(Sets::Custom(mut v)) => {
                assert(before.last() == SetItem::Chars(v@));
                v.push(c);
                sets.push(Sets::Custom(v));
                assert(set_items_of(sets@) =~= before.drop_last().push(SetItem::Chars(v@)));
            },
            Some(other) => {
                assert(before.last() == set_item_of(other));
                sets.push(other);
                assert(set_items_of(sets@) =~= before);
                let v = vec![c];
                assert(v@ =~= seq![c]);
                sets.push(Sets::Custom(v));
            },
            None => {},
        }
    }
    assert(set_items_of(sets@) =~= add_piece(set_items_of(old(sets)@), SetPiece::Member(c)));
}

} // verus!

verus! {

/// Reads a bracket expression, the cursor standing just after its `[`; the
/// closing `]` is consumed.
pub fn scan_bracketed_expression(cur: &mut Cursor) -> (r: Result<SubPattern, ParsingError>)
    requires
        old(cur).wf(),
    ensures
        final(cur).wf(),
        final(cur).text() == old(cur).text(),
        match bracket_at(old(cur).text(), old(cur).pos()) {
            Ok((a, j)) => r matches Ok(sp) && atom_of(sp) == a && final(cur).pos() == j,
            Err(e) => r == Err::<SubPattern, ParsingError>(e),
        },
{
    let ghost t = cur.text();
    let inverted = look_for('^', cur);
    let ghost begin = cur.pos();
    let mut sets: Vec<Sets> = Vec::new();
    assert(set_items_of(sets@) =~= seq![]);
    loop
        invariant
            cur.wf(),
            cur.text() == t,
            t == old(cur).text(),
            0 <= begin <= cur.pos() <= t.len(),
            begin == (if inverted { old(cur).pos() + 1 } else { old(cur).pos() }),
            inverted == (0 <= old(cur).pos() < t.len() && t[old(cur).pos()] == '^'),
            items_from(t, begin, seq![]) == items_from(t, cur.pos(), set_items_of(sets@)),
        decreases t.len() - cur.pos(),
    {
        let ghost i = cur.pos();
        let ghost before = set_items_of(sets@);
        if cur.peek().is_none() {
            return Err(ParsingError::NotTerminatedProperly);
        }
        if look_for('[', cur) {
            match cur.peek() {
                Some(':') => {
                    match get_predefined_set(cur) {
                        Ok(set) => {
                            sets.push(set);
                            assert(set_items_of(sets@) =~= add_piece(before, SetPiece::Class(set->PredefinedSets_0)));
                        },
                        Err(e) => {
                            return Err(e);
                        },
                    }
                },
                Some('.') | Some('=') => {
                    return Err(ParsingError::UnknownGuardCharacter);
                },
                Some(_) => {
                    return Err(ParsingError::UnknownGuardCharacter);
                },
                None => {
                    return Err(ParsingError::NotTerminatedProperly);
                },
            }
        } else if look_for('\\', cur) {
            match cur.next_char() {
                Some(c) => add_char(&mut sets, c),
                None => {
                    return Err(ParsingError::MalformedExpression);
                },
            }
        } else if look_for('-', cur) {
            add_char(&mut sets, '-');
        } else {
            let lo = match cur.next_char() {
                Some(c) => c,
                None => {
                    return Err(ParsingError::NotTerminatedProperly);
                },
            };
            let is_range = match (cur.peek(), cur.peek_nth(1)) {
                (Some('-'), Some(hi)) => hi != ']',
                _ => false,
            };
            if is_range {
                let _ = cur.next_char();
                let hi = match cur.next_char() {
                    Some(c) => c,
                    None => {
                        return Err(ParsingError::NotTerminatedProperly);
                    },
                };
                if !(lo < hi) {
                    return Err(ParsingError::IncorrectRepetitionLimits);
                }
                sets.push(Sets::CustomRange(Range(lo, hi)));
                assert(set_items_of(sets@) =~= add_piece(before, SetPiece::Span(lo, hi)));
            } else {
                add_char(&mut sets, lo);
            }
        }
        assert(piece_at(t, i) matches Ok((p, j)) && j == cur.pos() && set_items_of(sets@) == add_piece(before, p));
        proof {
            lemma_piece_advances(t, i);
        }
        if look_for(']', cur) {
            return Ok(
                if inverted {
                    SubPattern::InvertedSet(sets)
                } else {
                    SubPattern::BracketedSet(sets)
                },
            );
        }
    }
}

} // verus!
