//! Groups `(a|b|...)`: one level of alternation. The group ends at the first
//! `)`; its text is split on `|` and each branch is read as a sequence of
//! atoms that are not groups.
use vstd::prelude::*;
use crate::ast::{
    AtomModel, ParsingError, Pattern, PatternModel, SubPattern, atom_of, branches_of, lemma_alternative_model,
    patterns_of,
};
use crate::cursor::Cursor;
use crate::pattern::{
    lemma_simple_atom_advances, lemma_with_repetition_advances, scan_simple_pattern, simple_atom_at,
    with_repetition,
};
use crate::text::{find_from, lemma_find_from};

verus! {

/// The text of a group split on `|`; there is always at least one branch.
pub open spec fn split_branches(raw: Seq<char>) -> Seq<Seq<char>>
    decreases raw.len(),
{
    if raw.len() == 0 {
        seq![seq![]]
    } else {
        let prev = split_branches(raw.drop_last());
        if raw.last() == '|' {
            prev.push(seq![])
        } else {
            prev.update(prev.len() - 1, prev.last().push(raw.last()))
        }
    }
}

pub proof fn lemma_split_branches_nonempty(raw: Seq<char>)
    ensures
        split_branches(raw).len() >= 1,
    decreases raw.len(),
{
    if raw.len() > 0 {
        lemma_split_branches_nonempty(raw.drop_last());
    }
}

/// The views of a vector of character vectors.
pub open spec fn char_rows(v: Seq<Vec<char>>) -> Seq<Seq<char>> {
    Seq::new(v.len(), |i: int| v[i]@)
}

/// The patterns of a branch from `i` on, after those in `acc`.
pub open spec fn branch_from(b: Seq<char>, i: int, acc: Seq<PatternModel>) -> Result<
    Seq<PatternModel>,
    ParsingError,
>
    decreases b.len() - i,
    via branch_from_decreases
{
    if i < 0 || i >= b.len() {
        Ok(acc)
    } else {
        match with_repetition(b, simple_atom_at(b, i)) {
            Err(e) => Err(e),
            Ok((p, j)) => branch_from(b, j, acc.push(p)),
        }
    }
}

#[via_fn]
proof fn branch_from_decreases(b: Seq<char>, i: int, acc: Seq<PatternModel>) {
    if 0 <= i < b.len() {
        lemma_simple_atom_advances(b, i);
        lemma_with_repetition_advances(b, i, simple_atom_at(b, i));
    }
}

/// The branches from the `k`-th on, parsed, after those in `acc`; the first
/// branch that fails gives the error.
pub open spec fn branches_from(raw: Seq<Seq<char>>, k: int, acc: Seq<Seq<PatternModel>>) -> Result<
    Seq<Seq<PatternModel>>,
    ParsingError,
>
    decreases raw.len() - k,
{
    if k < 0 || k >= raw.len() {
        Ok(acc)
    } else {
        match branch_from(raw[k], 0, seq![]) {
            Err(e) => Err(e),
            Ok(ps) => branches_from(raw, k + 1, acc.push(ps)),
        }
    }
}

/// A group whose text starts at `i` (just after `(`), and the index after
/// its `)`.
pub open spec fn alternation_at(s: Seq<char>, i: int) -> Result<(AtomModel, int), ParsingError> {
    let k = find_from(s, ')', i);
    if k >= s.len() {
        Err(ParsingError::NotTerminatedProperly)
    } else {
        match branches_from(split_branches(s.subrange(i, k)), 0, seq![]) {
            Ok(bs) => Ok((AtomModel::Alternative(bs), k + 1)),
            Err(e) => Err(e),
        }
    }
}

/// Reads the atoms of one branch.
pub fn parse_branch(chars: Vec<char>) -> (r: Result<Vec<Pattern>, ParsingError>)
    ensures
        match branch_from(chars@, 0, seq![]) {
            Ok(ps) => r matches Ok(v) && patterns_of(v@) == ps,
            Err(e) => r == Err::<Vec<Pattern>, ParsingError>(e),
        },
{
    let ghost b = chars@;
    let mut cur = Cursor::from_chars(chars);
    let mut out: Vec<Pattern> = Vec::new();
    assert(patterns_of(out@) =~= seq![]);
    while cur.peek().is_some()
        invariant
            cur.wf(),
            cur.text() == b,
            b == chars@,
            branch_from(b, 0, seq![]) == branch_from(b, cur.pos(), patterns_of(out@)),
        decreases b.len() - cur.pos(),
    {
        let ghost i = cur.pos();
        let ghost before = patterns_of(out@);
        proof {
            lemma_simple_atom_advances(b, i);
            lemma_with_repetition_advances(b, i, simple_atom_at(b, i));
        }
        match scan_simple_pattern(&mut cur) {
            Ok(p) => {
                out.push(p);
                assert(patterns_of(out@) =~= before.push(p@));
            },
            Err(e) => {
                assert(branch_from(b, i, before) == Err::<Seq<PatternModel>, ParsingError>(e));
                return Err(e);
            },
        }
    }
    assert(branch_from(b, cur.pos(), patterns_of(out@)) == Ok::<Seq<PatternModel>, ParsingError>(patterns_of(out@)));
    Ok(out)
}

/// Reads the atoms of each branch, in order.
pub fn process_subset(alternates: Vec<Vec<char>>) -> (r: Result<Vec<Vec<Pattern>>, ParsingError>)
    ensures
        match branches_from(char_rows(alternates@), 0, seq![]) {
            Ok(bs) => r matches Ok(v) && branches_of(v@) == bs,
            Err(e) => r == Err::<Vec<Vec<Pattern>>, ParsingError>(e),
        },
{
    let ghost orig = alternates@;
    let ghost rows = char_rows(orig);
    let mut rest = alternates;
    let mut parsed: Vec<Vec<Pattern>> = Vec::new();
    let ghost mut done: int = 0;
    assert(branches_of(parsed@) =~= seq![]);
    assert(rest@ =~= orig.skip(0));
    while rest.len() > 0
        invariant
            0 <= done <= orig.len(),
            orig == alternates@,
            rows == char_rows(orig),
            rest@ == orig.skip(done),
            branches_from(rows, 0, seq![]) == branches_from(rows, done, branches_of(parsed@)),
        decreases orig.len() - done,
    {
        let ghost before = branches_of(parsed@);
        let row = rest.remove(0);
        assert(rest@ =~= orig.skip(done + 1));
        assert(row@ == rows[done]);
        match parse_branch(row) {
            Ok(ps) => {
                parsed.push(ps);
                assert(branches_of(parsed@) =~= before.push(patterns_of(ps@)));
                proof {
                    done = done + 1;
                }
            },
            Err(e) => {
                assert(branches_from(rows, done, before) == Err::<Seq<Seq<PatternModel>>, ParsingError>(e));
                return Err(e);
            },
        }
    }
    assert(done == orig.len());
    Ok(parsed)
}

/// Reads a group, the cursor standing just after its `(`; the closing `)`
/// is consumed.
pub fn check_alternation(cur: &mut Cursor) -> (r: Result<SubPattern, ParsingError>)
    requires
        old(cur).wf(),
    ensures
        final(cur).wf(),
        final(cur).text() == old(cur).text(),
        match alternation_at(old(cur).text(), old(cur).pos()) {
            Ok((a, j)) => r matches Ok(sp) && atom_of(sp) == a && final(cur).pos() == j,
            Err(e) => r == Err::<SubPattern, ParsingError>(e),
        },
{
    let ghost t = cur.text();
    let ghost start = cur.pos();
    let mut alternates: Vec<Vec<char>> = Vec::new();
    alternates.push(Vec::new());
    assert(char_rows(alternates@) =~= split_branches(t.subrange(start, start)));
    loop
        invariant
            cur.wf(),
            cur.text() == t,
            t == old(cur).text(),
            start == old(cur).pos(),
            0 <= start <= cur.pos() <= t.len(),
            forall|k: int| start <= k < cur.pos() ==> t[k] != ')',
            char_rows(alternates@) == split_branches(t.subrange(start, cur.pos())),
        decreases t.len() - cur.pos(),
    {
        let ghost p = cur.pos();
        let ghost raw = t.subrange(start, p);
        proof {
            lemma_split_branches_nonempty(raw);
        }
        match cur.next_char() {
            None => {
                proof {
                    lemma_find_from(t, ')', start, t.len() as int);
                }
                return Err(ParsingError::NotTerminatedProperly);
            },
            Some(c) => {
                assert(t.subrange(start, p + 1).drop_last() =~= raw);
                if c == ')' {
                    proof {
                        lemma_find_from(t, ')', start, p);
                    }
                    return match process_subset(alternates) {
                        Ok(branches) => {
                            proof {
                                lemma_alternative_model(branches);
                            }
                            Ok(SubPattern::Alternative(branches))
                        },
                        Err(e) => Err(e),
                    };
                } else if c == '|' {
                    alternates.push(Vec::new());
                    assert(char_rows(alternates@) =~= split_branches(t.subrange(start, p + 1)));
                } else {
                    let ghost rows = char_rows(alternates@);
                    let n = alternates.len();
                    let mut last = alternates.remove(n - 1);
                    last.push(c);
                    alternates.push(last);
                    assert(char_rows(alternates@) =~= rows.update(rows.len() - 1, rows.last().push(c)));
                }
            },
        }
    }
}

} // verus!
