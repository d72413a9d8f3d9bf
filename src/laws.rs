//! General properties of the parser, stated over the model and proved.
use vstd::prelude::*;
use crate::ast::{AtomModel, Anchor, Expression, ParsingError, PatternModel, Repetition, SetItem};
use crate::bracket::{add_piece, bracket_at, items_from, lemma_piece_advances, piece_at};
use crate::frame::{lemma_extend_patterns_from, lemma_shift_patterns_from};
use crate::parser::{
    atom_at, ends_patterns, lemma_pattern_advances, parse_expression, patterns_from, result_model, starts_anchored,
};
use crate::pattern::{is_normal_char, simple_atom_at, with_repetition};
use crate::repetition::{
    braces_at, brace_body_end, digits_value, repetition_at, repetition_of_body,
};
use crate::text::{is_count_char, is_digit, lemma_find_from};

verus! {

/// A literal character, matched once.
pub open spec fn literal(c: char) -> PatternModel {
    PatternModel { atom: AtomModel::Char(c), rep: Repetition::Once }
}

/// One literal pattern per character.
pub open spec fn literals(s: Seq<char>) -> Seq<PatternModel> {
    Seq::new(s.len(), |k: int| literal(s[k]))
}

/// Text whose every character stands for itself: printable ASCII and no
/// metacharacter.
pub open spec fn is_plain(s: Seq<char>) -> bool {
    forall|k: int| 0 <= k < s.len() ==> is_normal_char(#[trigger] s[k])
}

/// A run of literal characters from `i` to where the atoms stop reads as
/// one literal each.
proof fn lemma_plain_run(s: Seq<char>, i: int, n: int, acc: Seq<PatternModel>)
    requires
        0 <= i <= n <= s.len(),
        forall|k: int| i <= k < n ==> is_normal_char(#[trigger] s[k]),
        ends_patterns(s, n),
    ensures
        patterns_from(s, i, acc) == Ok::<(Seq<PatternModel>, int), ParsingError>(
            (acc + literals(s.subrange(i, n)), n),
        ),
    decreases n - i,
{
    if i < n {
        assert(is_normal_char(s[i]));
        if i + 1 < n {
            assert(is_normal_char(s[i + 1]));
        }
        assert(simple_atom_at(s, i) == Ok::<(AtomModel, int), ParsingError>((AtomModel::Char(s[i]), i + 1)));
        assert(repetition_at(s, i + 1) == Ok::<(Repetition, int), ParsingError>((Repetition::Once, i + 1)));
        assert(with_repetition(s, atom_at(s, i)) == Ok::<(PatternModel, int), ParsingError>((literal(s[i]), i + 1)));
        lemma_plain_run(s, i + 1, n, acc.push(literal(s[i])));
        assert(acc.push(literal(s[i])) + literals(s.subrange(i + 1, n)) =~= acc + literals(s.subrange(i, n)));
    } else {
        assert(acc + literals(s.subrange(i, n)) =~= acc);
    }
}

/// Text of printable ASCII characters and no metacharacters parses to one
/// literal per character, each matched once, with no anchor.
pub proof fn lemma_plain_text_is_literals(s: Seq<char>)
    requires
        is_plain(s),
    ensures
        parse_expression(s) == Ok::<(Anchor, Seq<PatternModel>), ParsingError>((Anchor::Unanchored, literals(s))),
{
    if s.len() > 0 {
        assert(is_normal_char(s[0]));
    }
    lemma_plain_run(s, 0, s.len() as int, seq![]);
    assert(seq![] + literals(s.subrange(0, s.len() as int)) =~= literals(s));
}

/// Where the atoms of a text stop lies between where they start and the end.
proof fn lemma_patterns_from_bounds(s: Seq<char>, i: int, acc: Seq<PatternModel>)
    requires
        0 <= i <= s.len(),
    ensures
        patterns_from(s, i, acc) matches Ok((_, j)) ==> i <= j <= s.len(),
    decreases s.len() - i,
{
    if i < s.len() && !ends_patterns(s, i) {
        lemma_pattern_advances(s, i);
        if let Ok((pm, k)) = with_repetition(s, atom_at(s, i)) {
            lemma_patterns_from_bounds(s, k, acc.push(pm));
        }
    }
}

/// Anchors: take any text `b` that parses with no anchor. Then `^b` is
/// anchored at the start, `b$` at the end and `^b$` at both, each with the
/// patterns of `b`. A second `^` after the leading one, or a second `$`
/// before the trailing one, is a misused anchor.
pub proof fn lemma_anchor_marks(b: Seq<char>, rest: Seq<char>)
    requires
        parse_expression(b) matches Ok((a, _)) && a == Anchor::Unanchored,
    ensures
        parse_expression(seq!['^'] + b) == Ok::<(Anchor, Seq<PatternModel>), ParsingError>(
            (Anchor::Start, parse_expression(b)->Ok_0.1),
        ),
        parse_expression(b + seq!['$']) == Ok::<(Anchor, Seq<PatternModel>), ParsingError>(
            (Anchor::End, parse_expression(b)->Ok_0.1),
        ),
        parse_expression(seq!['^'] + b + seq!['$']) == Ok::<(Anchor, Seq<PatternModel>), ParsingError>(
            (Anchor::Both, parse_expression(b)->Ok_0.1),
        ),
        parse_expression(seq!['^', '^'] + rest) == Err::<(Anchor, Seq<PatternModel>), ParsingError>(
            ParsingError::MisusedAnchorChracter,
        ),
        parse_expression(b + seq!['$', '$']) == Err::<(Anchor, Seq<PatternModel>), ParsingError>(
            ParsingError::MisusedAnchorChracter,
        ),
{
    let n = b.len() as int;
    let ps = parse_expression(b)->Ok_0.1;
    assert(!starts_anchored(b));
    lemma_patterns_from_bounds(b, 0, seq![]);
    assert(patterns_from(b, 0, seq![]) == Ok::<(Seq<PatternModel>, int), ParsingError>((ps, n)));
    // ^b
    let start = seq!['^'] + b;
    lemma_shift_patterns_from(seq!['^'], b, 0, seq![]);
    assert(starts_anchored(start));
    // b$
    let dollar: Seq<char> = seq!['$'];
    let end = b + dollar;
    lemma_extend_patterns_from(b, dollar, 0, seq![]);
    assert(end[n] == '$');
    assert(ends_patterns(end, n));
    if n > 0 {
        assert(end[0] == b[0]);
    }
    assert(!starts_anchored(end));
    // ^b$
    let both = seq!['^'] + b + dollar;
    assert(both =~= seq!['^'] + end);
    lemma_shift_patterns_from(seq!['^'], end, 0, seq![]);
    assert(starts_anchored(both));
    // ^^...
    let s1 = seq!['^', '^'] + rest;
    assert(s1[0] == '^' && s1[1] == '^');
    assert(patterns_from(s1, 1, seq![]) == Err::<(Seq<PatternModel>, int), ParsingError>(
        ParsingError::MisusedAnchorChracter,
    ));
    // b$$
    let dollars: Seq<char> = seq!['$', '$'];
    let s2 = b + dollars;
    lemma_extend_patterns_from(b, dollars, 0, seq![]);
    assert(s2[n] == '$');
    assert(patterns_from(s2, n, ps) == Err::<(Seq<PatternModel>, int), ParsingError>(
        ParsingError::MisusedAnchorChracter,
    ));
    if n > 0 {
        assert(s2[0] == b[0]);
    }
}

/// Every range among the members of a bracket expression runs from a lower
/// to a higher character.
pub open spec fn spans_ordered(items: Seq<SetItem>) -> bool {
    forall|k: int| 0 <= k < items.len() ==> (#[trigger] items[k] matches SetItem::Span(lo, hi) ==> lo < hi)
}

proof fn lemma_items_spans_ordered(s: Seq<char>, i: int, items: Seq<SetItem>)
    requires
        0 <= i,
        spans_ordered(items),
    ensures
        items_from(s, i, items) matches Ok((all, _)) ==> spans_ordered(all),
    decreases s.len() - i,
{
    if i < s.len() {
        lemma_piece_advances(s, i);
        if let Ok((p, j)) = piece_at(s, i) {
            let next = add_piece(items, p);
            assert forall|k: int| 0 <= k < next.len() implies (#[trigger] next[k] matches SetItem::Span(lo, hi) ==> lo
                < hi) by {
                if k < items.len() {
                    assert(items[k] matches SetItem::Span(lo, hi) ==> lo < hi);
                }
            }
            if !(j < s.len() && s[j] == ']') {
                lemma_items_spans_ordered(s, j, next);
            }
        }
    }
}

/// A bracket expression holds only ranges whose low end is below their high
/// end.
pub proof fn lemma_bracket_ranges_ordered(s: Seq<char>, i: int)
    requires
        0 <= i,
    ensures
        bracket_at(s, i) matches Ok((AtomModel::Bracket(items, _), _)) ==> spans_ordered(items),
{
    let negated = 0 <= i < s.len() && s[i] == '^';
    lemma_items_spans_ordered(s, if negated { i + 1 } else { i }, seq![]);
}

/// A run of digits and commas from `i` ends at `e`.
proof fn lemma_brace_run(s: Seq<char>, i: int, e: int)
    requires
        0 <= i <= e < s.len(),
        forall|k: int| i <= k < e ==> is_count_char(#[trigger] s[k]) || s[k] == ',',
        !is_count_char(s[e]) && s[e] != ',',
    ensures
        brace_body_end(s, i) == e,
    decreases e - i,
{
    if i < e {
        assert(is_count_char(s[i]) || s[i] == ',');
        lemma_brace_run(s, i + 1, e);
    }
}

/// The text of one literal `c` followed by the brace quantifier `{body}`.
pub open spec fn quantified(c: char, body: Seq<char>) -> Seq<char> {
    seq![c, '{'] + body + seq!['}']
}

/// A literal with one pattern: `c` with the quantifier `rep`.
pub open spec fn single(c: char, rep: Repetition) -> Result<(Anchor, Seq<PatternModel>), ParsingError> {
    Ok((Anchor::Unanchored, seq![PatternModel { atom: AtomModel::Char(c), rep }]))
}

/// `c{body}` parses to `c` with the quantifier that the brace body denotes.
proof fn lemma_quantified(c: char, body: Seq<char>)
    requires
        is_normal_char(c),
        forall|k: int| 0 <= k < body.len() ==> is_count_char(#[trigger] body[k]) || body[k] == ',',
    ensures
        parse_expression(quantified(c, body)) == (match repetition_of_body(body) {
            Ok(r) => single(c, r),
            Err(e) => Err(e),
        }),
{
    let s = quantified(c, body);
    let e = body.len() as int + 2;
    assert forall|k: int| 2 <= k < e implies is_count_char(#[trigger] s[k]) || s[k] == ',' by {
        assert(s[k] == body[k - 2]);
    }
    assert(s[e] == '}');
    lemma_brace_run(s, 2, e);
    assert(s.subrange(2, e) =~= body);
    assert(s[0] == c && s[1] == '{');
    assert(!ends_patterns(s, 0));
    assert(atom_at(s, 0) == Ok::<(AtomModel, int), ParsingError>((AtomModel::Char(c), 1)));
    match repetition_of_body(body) {
        Ok(r) => {
            assert(braces_at(s, 2) == Ok::<(Repetition, int), ParsingError>((r, e + 1)));
            assert(repetition_at(s, 1) == Ok::<(Repetition, int), ParsingError>((r, e + 1)));
            let p = PatternModel { atom: AtomModel::Char(c), rep: r };
            assert(with_repetition(s, atom_at(s, 0)) == Ok::<(PatternModel, int), ParsingError>((p, e + 1)));
            assert(ends_patterns(s, e + 1));
            assert(patterns_from(s, e + 1, seq![p]) == Ok::<(Seq<PatternModel>, int), ParsingError>(
                (seq![p], e + 1),
            ));
            assert(seq![].push(p) =~= seq![p]);
        },
        Err(x) => {
            assert(repetition_at(s, 1) == Err::<(Repetition, int), ParsingError>(x));
        },
    }
}

/// Brace quantifiers on a literal, the counts written in decimal digits:
/// `{n,m}` with `n <= m` is `InRange(n, m)` (and with `n > m` a range error),
/// `{n}` is `Exactly(n)`, `{n,}` is `AtLeast(n)`, `{,m}` is `AtMost(m)`; `{}`
/// and `{,}` are malformed.
pub proof fn lemma_brace_quantifiers(c: char, n: Seq<char>, m: Seq<char>)
    requires
        is_normal_char(c),
        n.len() > 0,
        m.len() > 0,
        forall|k: int| 0 <= k < n.len() ==> is_digit(#[trigger] n[k]),
        forall|k: int| 0 <= k < m.len() ==> is_digit(#[trigger] m[k]),
        digits_value(n) <= usize::MAX,
        digits_value(m) <= usize::MAX,
    ensures
        digits_value(n) <= digits_value(m) ==> parse_expression(quantified(c, n + seq![','] + m)) == single(
            c,
            Repetition::InRange(digits_value(n) as usize, digits_value(m) as usize),
        ),
        digits_value(n) > digits_value(m) ==> parse_expression(quantified(c, n + seq![','] + m)) == Err::<
            (Anchor, Seq<PatternModel>),
            ParsingError,
        >(ParsingError::IncorrectRepetitionLimits),
        parse_expression(quantified(c, n)) == single(c, Repetition::Exactly(digits_value(n) as usize)),
        parse_expression(quantified(c, n + seq![','])) == single(
            c,
            Repetition::AtLeast(digits_value(n) as usize),
        ),
        parse_expression(quantified(c, seq![','] + m)) == single(
            c,
            Repetition::AtMost(digits_value(m) as usize),
        ),
        parse_expression(quantified(c, seq![])) == Err::<(Anchor, Seq<PatternModel>), ParsingError>(
            ParsingError::MalformedExpression,
        ),
        parse_expression(quantified(c, seq![','])) == Err::<(Anchor, Seq<PatternModel>), ParsingError>(
            ParsingError::MalformedExpression,
        ),
{
    let ln = n.len() as int;
    let lm = m.len() as int;
    // {n,m}
    let b = n + seq![','] + m;
    assert forall|k: int| 0 <= k < b.len() implies is_count_char(#[trigger] b[k]) || b[k] == ',' by {
        if k < ln {
            assert(b[k] == n[k]);
        } else if k > ln {
            assert(b[k] == m[k - ln - 1]);
        }
    }
    assert forall|k: int| 0 <= k < ln implies b[k] != ',' by {
        assert(b[k] == n[k]);
    }
    assert forall|k: int| ln + 1 <= k < b.len() implies b[k] != ',' by {
        assert(b[k] == m[k - ln - 1]);
    }
    lemma_find_from(b, ',', 0, ln);
    lemma_find_from(b, ',', ln + 1, b.len() as int);
    assert(b.take(ln) =~= n);
    assert(b.skip(ln + 1) =~= m);
    lemma_quantified(c, b);
    // {n}
    assert forall|k: int| 0 <= k < ln implies n[k] != ',' by {
        assert(is_digit(n[k]));
    }
    lemma_find_from(n, ',', 0, ln);
    lemma_quantified(c, n);
    // {n,}
    let bn = n + seq![','];
    assert forall|k: int| 0 <= k < bn.len() implies is_count_char(#[trigger] bn[k]) || bn[k] == ',' by {
        if k < ln {
            assert(bn[k] == n[k]);
        }
    }
    assert forall|k: int| 0 <= k < ln implies bn[k] != ',' by {
        assert(bn[k] == n[k]);
    }
    lemma_find_from(bn, ',', 0, ln);
    lemma_find_from(bn, ',', ln + 1, ln + 1);
    assert(bn.take(ln) =~= n);
    assert(bn.skip(ln + 1) =~= seq![]);
    lemma_quantified(c, bn);
    // {,m}
    let bm = seq![','] + m;
    assert forall|k: int| 0 <= k < bm.len() implies is_count_char(#[trigger] bm[k]) || bm[k] == ',' by {
        if k > 0 {
            assert(bm[k] == m[k - 1]);
        }
    }
    assert forall|k: int| 1 <= k < bm.len() implies bm[k] != ',' by {
        assert(bm[k] == m[k - 1]);
    }
    lemma_find_from(bm, ',', 0, 0);
    lemma_find_from(bm, ',', 1, bm.len() as int);
    assert(bm.take(0) =~= seq![]);
    assert(bm.skip(1) =~= m);
    lemma_quantified(c, bm);
    // {} and {,}
    lemma_quantified(c, seq![]);
    let comma: Seq<char> = seq![','];
    lemma_find_from(comma, ',', 0, 0);
    lemma_find_from(comma, ',', 1, 1);
    assert(comma.take(0) =~= seq![]);
    assert(comma.skip(1) =~= seq![]);
    lemma_quantified(c, comma);
}

/// Parsing is a function of the text: any two results that `process` may
/// give for one text agree.
pub proof fn lemma_parse_deterministic(
    s: Seq<char>,
    r1: Result<Expression, ParsingError>,
    r2: Result<Expression, ParsingError>,
)
    requires
        result_model(r1) == parse_expression(s),
        result_model(r2) == parse_expression(s),
    ensures
        result_model(r1) == result_model(r2),
        r1 is Ok <==> r2 is Ok,
{
}

} // verus!
