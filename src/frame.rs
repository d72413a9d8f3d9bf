//! The parse from an index depends only on the text from that index on:
//! putting text in front shifts every position and changes nothing else;
//! putting text that starts with `$` behind changes nothing of what reads
//! before it.
use vstd::prelude::*;
use crate::alternation::alternation_at;
use crate::ast::{ParsingError, PatternModel, SetItem};
use crate::bracket::{add_piece, bracket_at, class_at, items_from, name_end, piece_at, SetPiece};
use crate::parser::{atom_at, ends_patterns, patterns_from};
use crate::pattern::{simple_atom_at, with_repetition};
use crate::repetition::{brace_body_end, repetition_at};
use crate::text::find_from;

verus! {

/// A result whose end position is moved by `d`.
pub open spec fn shifted<T>(r: Result<(T, int), ParsingError>, d: int) -> Result<(T, int), ParsingError> {
    match r {
        Ok((x, j)) => Ok((x, j + d)),
        Err(e) => Err(e),
    }
}

pub proof fn lemma_shift_find_from(p: Seq<char>, b: Seq<char>, c: char, k: int)
    requires
        0 <= k <= b.len(),
    ensures
        find_from(p + b, c, p.len() + k) == p.len() + find_from(b, c, k),
    decreases b.len() - k,
{
    if k < b.len() {
        assert((p + b)[p.len() + k] == b[k]);
        lemma_shift_find_from(p, b, c, k + 1);
    }
}

pub proof fn lemma_shift_name_end(p: Seq<char>, b: Seq<char>, k: int)
    requires
        0 <= k <= b.len(),
    ensures
        name_end(p + b, p.len() + k) == p.len() + name_end(b, k),
    decreases b.len() - k,
{
    if k < b.len() {
        assert((p + b)[p.len() + k] == b[k]);
        lemma_shift_name_end(p, b, k + 1);
    }
}

pub proof fn lemma_shift_brace_body_end(p: Seq<char>, b: Seq<char>, k: int)
    requires
        0 <= k <= b.len(),
    ensures
        brace_body_end(p + b, p.len() + k) == p.len() + brace_body_end(b, k),
    decreases b.len() - k,
{
    if k < b.len() {
        assert((p + b)[p.len() + k] == b[k]);
        lemma_shift_brace_body_end(p, b, k + 1);
    }
}

pub proof fn lemma_shift_repetition(p: Seq<char>, b: Seq<char>, i: int)
    requires
        0 <= i <= b.len(),
    ensures
        repetition_at(p + b, p.len() + i) == shifted(repetition_at(b, i), p.len() as int),
{
    let s = p + b;
    let d = p.len() as int;
    if i < b.len() {
        assert(s[d + i] == b[i]);
        if b[i] == '{' {
            lemma_shift_brace_body_end(p, b, i + 1);
            crate::repetition::lemma_brace_body_end_bounds(b, i + 1);
            let e = brace_body_end(b, i + 1);
            if e < b.len() {
                assert(s[d + e] == b[e]);
            }
            assert(s.subrange(d + i + 1, d + e) =~= b.subrange(i + 1, e));
        }
    }
}

pub proof fn lemma_shift_piece(p: Seq<char>, b: Seq<char>, i: int)
    requires
        0 <= i < b.len(),
    ensures
        piece_at(p + b, p.len() + i) == shifted(piece_at(b, i), p.len() as int),
{
    let s = p + b;
    let d = p.len() as int;
    assert(s[d + i] == b[i]);
    if i + 1 < b.len() {
        assert(s[d + i + 1] == b[i + 1]);
    }
    if i + 2 < b.len() {
        assert(s[d + i + 2] == b[i + 2]);
    }
    if b[i] == '[' && i + 1 < b.len() && b[i + 1] == ':' {
        lemma_shift_name_end(p, b, i + 2);
        crate::bracket::lemma_name_end_bounds(b, i + 2);
        let e = name_end(b, i + 2);
        if e < b.len() {
            assert(s[d + e] == b[e]);
        }
        if e + 1 < b.len() {
            assert(s[d + e + 1] == b[e + 1]);
        }
        assert(s.subrange(d + i + 2, d + e) =~= b.subrange(i + 2, e));
        assert(class_at(s, d + i + 2) == shifted(class_at(b, i + 2), d));
    }
}

pub proof fn lemma_shift_items_from(p: Seq<char>, b: Seq<char>, i: int, items: Seq<SetItem>)
    requires
        0 <= i <= b.len(),
    ensures
        items_from(p + b, p.len() + i, items) == shifted(items_from(b, i, items), p.len() as int),
    decreases b.len() - i,
{
    let s = p + b;
    let d = p.len() as int;
    if i < b.len() {
        lemma_shift_piece(p, b, i);
        crate::bracket::lemma_piece_advances(b, i);
        if let Ok((pc, j)) = piece_at(b, i) {
            if j < b.len() {
                assert(s[d + j] == b[j]);
            }
            lemma_shift_items_from(p, b, j, add_piece(items, pc));
        }
    }
}

pub proof fn lemma_shift_simple_atom(p: Seq<char>, b: Seq<char>, i: int)
    requires
        0 <= i < b.len(),
    ensures
        simple_atom_at(p + b, p.len() + i) == shifted(simple_atom_at(b, i), p.len() as int),
{
    let s = p + b;
    let d = p.len() as int;
    assert(s[d + i] == b[i]);
    if i + 1 < b.len() {
        assert(s[d + i + 1] == b[i + 1]);
    }
    if b[i] == '[' {
        let negated = i + 1 < b.len() && b[i + 1] == '^';
        lemma_shift_items_from(p, b, if negated { i + 2 } else { i + 1 }, seq![]);
        assert(bracket_at(s, d + i + 1) == shifted(bracket_at(b, i + 1), d));
    }
}

pub proof fn lemma_shift_atom(p: Seq<char>, b: Seq<char>, i: int)
    requires
        0 <= i < b.len(),
    ensures
        atom_at(p + b, p.len() + i) == shifted(atom_at(b, i), p.len() as int),
{
    let s = p + b;
    let d = p.len() as int;
    assert(s[d + i] == b[i]);
    if b[i] == '(' {
        lemma_shift_find_from(p, b, ')', i + 1);
        crate::text::lemma_find_from_bounds(b, ')', i + 1);
        let k = find_from(b, ')', i + 1);
        assert(s.subrange(d + i + 1, d + k) =~= b.subrange(i + 1, k));
        assert(alternation_at(s, d + i + 1) == shifted(alternation_at(b, i + 1), d));
    } else {
        lemma_shift_simple_atom(p, b, i);
    }
}

pub proof fn lemma_shift_pattern(p: Seq<char>, b: Seq<char>, i: int)
    requires
        0 <= i < b.len(),
    ensures
        with_repetition(p + b, atom_at(p + b, p.len() + i)) == shifted(
            with_repetition(b, atom_at(b, i)),
            p.len() as int,
        ),
{
    lemma_shift_atom(p, b, i);
    crate::parser::lemma_pattern_advances(b, i);
    if let Ok((_, j)) = atom_at(b, i) {
        crate::pattern::lemma_simple_atom_advances(b, i);
        crate::text::lemma_find_from_bounds(b, ')', i + 1);
        lemma_shift_repetition(p, b, j);
    }
}

pub proof fn lemma_shift_patterns_from(p: Seq<char>, b: Seq<char>, i: int, acc: Seq<PatternModel>)
    requires
        0 <= i <= b.len(),
    ensures
        patterns_from(p + b, p.len() + i, acc) == shifted(patterns_from(b, i, acc), p.len() as int),
    decreases b.len() - i,
{
    let s = p + b;
    let d = p.len() as int;
    if i < b.len() {
        assert(s[d + i] == b[i]);
        if i + 1 < b.len() {
            assert(s[d + i + 1] == b[i + 1]);
        }
        assert(ends_patterns(s, d + i) == ends_patterns(b, i));
        if !ends_patterns(b, i) {
            lemma_shift_pattern(p, b, i);
            crate::parser::lemma_pattern_advances(b, i);
            if let Ok((pm, k)) = with_repetition(b, atom_at(b, i)) {
                lemma_shift_patterns_from(p, b, k, acc.push(pm));
            }
        }
    }
}

} // verus!

verus! {

// Text that starts with `$` put behind a text `b` changes nothing of what
// reads within `b`.

pub proof fn lemma_extend_find_from(b: Seq<char>, q: Seq<char>, c: char, k: int)
    requires
        0 <= k <= b.len(),
        find_from(b, c, k) < b.len(),
    ensures
        find_from(b + q, c, k) == find_from(b, c, k),
    decreases b.len() - k,
{
    if k < b.len() {
        assert((b + q)[k] == b[k]);
        if b[k] != c {
            lemma_extend_find_from(b, q, c, k + 1);
        }
    }
}

pub proof fn lemma_extend_name_end(b: Seq<char>, q: Seq<char>, k: int)
    requires
        0 <= k <= b.len(),
        q.len() >= 1,
        q[0] == '$',
    ensures
        name_end(b + q, k) == name_end(b, k),
    decreases b.len() - k,
{
    if k < b.len() {
        assert((b + q)[k] == b[k]);
        lemma_extend_name_end(b, q, k + 1);
    } else {
        assert((b + q)[k] == '$');
    }
}

pub proof fn lemma_extend_brace_body_end(b: Seq<char>, q: Seq<char>, k: int)
    requires
        0 <= k <= b.len(),
        q.len() >= 1,
        q[0] == '$',
    ensures
        brace_body_end(b + q, k) == brace_body_end(b, k),
    decreases b.len() - k,
{
    if k < b.len() {
        assert((b + q)[k] == b[k]);
        lemma_extend_brace_body_end(b, q, k + 1);
    } else {
        assert((b + q)[k] == '$');
    }
}

pub proof fn lemma_extend_repetition(b: Seq<char>, q: Seq<char>, i: int)
    requires
        0 <= i <= b.len(),
        q.len() >= 1,
        q[0] == '$',
    ensures
        repetition_at(b + q, i) == repetition_at(b, i),
{
    let t = b + q;
    let n = b.len() as int;
    if i < n {
        assert(t[i] == b[i]);
        if b[i] == '{' {
            lemma_extend_brace_body_end(b, q, i + 1);
            crate::repetition::lemma_brace_body_end_bounds(b, i + 1);
            let e = brace_body_end(b, i + 1);
            if e < n {
                assert(t[e] == b[e]);
            } else {
                assert(t[e] == '$');
            }
            assert(t.subrange(i + 1, e) =~= b.subrange(i + 1, e));
        }
    } else {
        assert(t[i] == '$');
    }
}

pub proof fn lemma_extend_class(b: Seq<char>, q: Seq<char>, i: int)
    requires
        0 <= i <= b.len(),
        q.len() >= 1,
        q[0] == '$',
    ensures
        class_at(b + q, i) == class_at(b, i),
{
    let t = b + q;
    let n = b.len() as int;
    lemma_extend_name_end(b, q, i);
    crate::bracket::lemma_name_end_bounds(b, i);
    let e = name_end(b, i);
    if e < n {
        assert(t[e] == b[e]);
    } else {
        assert(t[e] == '$');
    }
    if e + 1 < n {
        assert(t[e + 1] == b[e + 1]);
    } else if e + 1 == n {
        assert(t[e + 1] == '$');
    }
    assert(t.subrange(i, e) =~= b.subrange(i, e));
}

pub proof fn lemma_extend_items_from(b: Seq<char>, q: Seq<char>, i: int, items: Seq<SetItem>)
    requires
        0 <= i <= b.len(),
        q.len() >= 1,
        q[0] == '$',
        items_from(b, i, items) is Ok,
    ensures
        items_from(b + q, i, items) == items_from(b, i, items),
    decreases b.len() - i,
{
    let t = b + q;
    let n = b.len() as int;
    if i < n {
        crate::bracket::lemma_piece_advances(b, i);
        assert(t[i] == b[i]);
        if i + 1 < n {
            assert(t[i + 1] == b[i + 1]);
        } else {
            assert(t[i + 1] == '$');
        }
        if i + 2 < n {
            assert(t[i + 2] == b[i + 2]);
        } else if i + 2 == n {
            assert(t[i + 2] == '$');
        }
        if b[i] == '[' && i + 1 < n && b[i + 1] == ':' {
            lemma_extend_class(b, q, i + 2);
        }
        if i + 2 == n && b[i] != '[' && b[i] != '\\' && b[i] != '-' && b[i + 1] == '-' {
            // `b` would end inside the brackets: the `-` before its end is
            // a member, and nothing closes them.
            let y = add_piece(items, SetPiece::Member(b[i]));
            let z = add_piece(y, SetPiece::Member('-'));
            assert(piece_at(b, n - 1) == Ok::<(SetPiece, int), ParsingError>((SetPiece::Member('-'), n)));
            assert(items_from(b, n, z) is Err);
            assert(items_from(b, n - 1, y) is Err);
            assert(false);
        }
        assert(piece_at(t, i) == piece_at(b, i));
        if let Ok((pc, j)) = piece_at(b, i) {
            if j < n {
                assert(t[j] == b[j]);
                if b[j] != ']' {
                    lemma_extend_items_from(b, q, j, add_piece(items, pc));
                }
            } else {
                assert(items_from(b, j, add_piece(items, pc)) is Err);
            }
        }
    }
}

pub proof fn lemma_extend_atom(b: Seq<char>, q: Seq<char>, i: int)
    requires
        0 <= i < b.len(),
        q.len() >= 1,
        q[0] == '$',
        atom_at(b, i) is Ok,
    ensures
        atom_at(b + q, i) == atom_at(b, i),
{
    let t = b + q;
    let n = b.len() as int;
    assert(t[i] == b[i]);
    if i + 1 < n {
        assert(t[i + 1] == b[i + 1]);
    } else {
        assert(t[i + 1] == '$');
    }
    if b[i] == '(' {
        crate::text::lemma_find_from_bounds(b, ')', i + 1);
        lemma_extend_find_from(b, q, ')', i + 1);
        let k = find_from(b, ')', i + 1);
        assert(t.subrange(i + 1, k) =~= b.subrange(i + 1, k));
    } else if b[i] == '[' {
        let negated = i + 1 < n && b[i + 1] == '^';
        lemma_extend_items_from(b, q, if negated { i + 2 } else { i + 1 }, seq![]);
    }
}

pub proof fn lemma_extend_patterns_from(b: Seq<char>, q: Seq<char>, i: int, acc: Seq<PatternModel>)
    requires
        0 <= i <= b.len(),
        q.len() >= 1,
        q[0] == '$',
        patterns_from(b, i, acc) matches Ok((_, j)) && j == b.len(),
    ensures
        patterns_from(b + q, i, acc) == patterns_from(b + q, b.len() as int, patterns_from(b, i, acc)->Ok_0.0),
    decreases b.len() - i,
{
    let t = b + q;
    let n = b.len() as int;
    if i < n {
        assert(t[i] == b[i]);
        assert(!ends_patterns(b, i));
        assert(!ends_patterns(t, i));
        crate::parser::lemma_pattern_advances(b, i);
        lemma_extend_atom(b, q, i);
        if let Ok((_, j)) = atom_at(b, i) {
            crate::pattern::lemma_simple_atom_advances(b, i);
            crate::text::lemma_find_from_bounds(b, ')', i + 1);
            lemma_extend_repetition(b, q, j);
        }
        if let Ok((pm, k)) = with_repetition(b, atom_at(b, i)) {
            lemma_extend_patterns_from(b, q, k, acc.push(pm));
        }
    }
}

} // verus!
