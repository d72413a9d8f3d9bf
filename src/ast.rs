//! The syntax tree that the parser builds, and its mathematical model.
use vstd::prelude::*;

verus! {

/// Why a pattern was rejected.
#[derive(Debug, Clone, Copy, PartialEq, Eq, Structural)]
pub enum ParsingError {
    NotAsciiCharacter,
    MisusedAnchorChracter,
    NotTerminatedProperly,
    UnknownGuardCharacter,
    MalformedExpression,
    UnknownPredefinedSetName,
    NotANumber,
    IncorrectRepetitionLimits,
}

/// Where the pattern is tied to the line it is matched against.
#[derive(Debug, Clone, Copy, PartialEq, Eq, Structural)]
pub enum Anchor {
    Start,
    End,
    Both,
    /// tied to neither end
    Unanchored,
}

/// How many consecutive occurrences of an atom are matched.
#[derive(Debug, Clone, Copy, PartialEq, Eq, Structural)]
pub enum Repetition {
    /// `?`
    AtMostOnce,
    /// `+`
    AtLeastOnce,
    /// `*`
    ZeroOrMore,
    /// `{n}`
    Exactly(usize),
    /// `{n,}`
    AtLeast(usize),
    /// `{,m}`
    AtMost(usize),
    /// `{n,m}`
    InRange(usize, usize),
    /// no quantifier: exactly once
    Once,
}

/// The named character classes usable as `[:name:]` inside brackets.
#[derive(Debug, Clone, Copy, PartialEq, Eq, Structural)]
pub enum PredefinedSet {
    AlNum,
    Alpha,
    Blank,
    Digit,
    Graph,
    Lower,
    Upper,
    Print,
    Punct,
    Space,
    XDigit,
}

/// An inclusive character range `lo-hi` of a bracket expression, with `lo < hi`.
#[derive(Debug, Clone, Copy, PartialEq, Eq, Structural)]
pub struct Range(pub char, pub char);

/// One member of a bracket expression.
#[derive(Debug, PartialEq, Eq)]
pub enum Sets {
    PredefinedSets(PredefinedSet),
    CustomRange(Range),
    Custom(Vec<char>),
}

/// An atom of a pattern.
#[derive(Debug, PartialEq, Eq)]
pub enum SubPattern {
    /// `.`: any single character
    Dot,
    /// a literal character
    Char(char),
    /// `[...]`
    BracketedSet(Vec<Sets>),
    /// `[^...]`
    InvertedSet(Vec<Sets>),
    /// `(a|b|...)`: each branch is a sequence of patterns
    Alternative(Vec<Vec<Pattern>>),
}

/// An atom together with its quantifier.
#[derive(Debug, PartialEq, Eq)]
pub struct Pattern {
    pub sub_pattern: SubPattern,
    pub repetition: Repetition,
}

/// A parsed pattern: its anchoring and its atoms in match order.
pub type Expression = (Anchor, Vec<Pattern>);

/// Model of a bracket-expression member: a named class, an inclusive
/// range, or a run of single characters.
pub enum SetItem {
    Class(PredefinedSet),
    Span(char, char),
    Chars(Seq<char>),
}

/// Model of an atom.
pub enum AtomModel {
    Dot,
    Char(char),
    /// the members, and whether the set is negated
    Bracket(Seq<SetItem>, bool),
    Alternative(Seq<Seq<PatternModel>>),
}

/// Model of a pattern.
pub struct PatternModel {
    pub atom: AtomModel,
    pub rep: Repetition,
}

/// Model of a bracket-expression member.
pub open spec fn set_item_of(s: Sets) -> SetItem {
    match s {
        Sets::PredefinedSets(p) => SetItem::Class(p),
        Sets::CustomRange(r) => SetItem::Span(r.0, r.1),
        Sets::Custom(cs) => SetItem::Chars(cs@),
    }
}

/// Models of the members, in order.
pub open spec fn set_items_of(v: Seq<Sets>) -> Seq<SetItem> {
    Seq::new(v.len(), |i: int| set_item_of(v[i]))
}

/// Model of an atom.
pub open spec fn atom_of(sp: SubPattern) -> AtomModel
    decreases sp,
{
    match sp {
        SubPattern::Dot => AtomModel::Dot,
        SubPattern::Char(c) => AtomModel::Char(c),
        SubPattern::BracketedSet(v) => AtomModel::Bracket(set_items_of(v@), false),
        SubPattern::InvertedSet(v) => AtomModel::Bracket(set_items_of(v@), true),
        SubPattern::Alternative(bs) => AtomModel::Alternative(
            Seq::new(
                bs@.len(),
                |i: int|
                    Seq::new(
                        bs@[i]@.len(),
                        |j: int|
                            if 0 <= i < bs@.len() && 0 <= j < bs@[i]@.len() {
                                pattern_of(bs@[i]@[j])
                            } else {
                                PatternModel { atom: AtomModel::Dot, rep: Repetition::Once }
                            },
                    ),
            ),
        ),
    }
}

/// Model of a pattern.
pub open spec fn pattern_of(p: Pattern) -> PatternModel
    decreases p,
{
    PatternModel { atom: atom_of(p.sub_pattern), rep: p.repetition }
}

/// The model of a pattern in terms of its atom, and of the atoms that hold
/// no other pattern.
pub proof fn lemma_pattern_model(p: Pattern)
    ensures
        pattern_of(p) == (PatternModel { atom: atom_of(p.sub_pattern), rep: p.repetition }),
        p.sub_pattern is Dot ==> atom_of(p.sub_pattern) == AtomModel::Dot,
        p.sub_pattern matches SubPattern::Char(c) ==> atom_of(p.sub_pattern) == AtomModel::Char(c),
{
}

/// Models of a sequence of patterns.
pub open spec fn patterns_of(v: Seq<Pattern>) -> Seq<PatternModel> {
    Seq::new(v.len(), |i: int| pattern_of(v[i]))
}

/// Models of the branches of a group.
pub open spec fn branches_of(v: Seq<Vec<Pattern>>) -> Seq<Seq<PatternModel>> {
    Seq::new(v.len(), |i: int| patterns_of(v[i]@))
}

/// The model of a group is the model of its branches.
pub proof fn lemma_alternative_model(bs: Vec<Vec<Pattern>>)
    ensures
        atom_of(SubPattern::Alternative(bs)) == AtomModel::Alternative(branches_of(bs@)),
{
    let m = atom_of(SubPattern::Alternative(bs))->Alternative_0;
    assert forall|i: int| 0 <= i < bs@.len() implies m[i] =~= branches_of(bs@)[i] by {}
    assert(m =~= branches_of(bs@));
}

impl View for Sets {
    type V = SetItem;

    open spec fn view(&self) -> SetItem {
        set_item_of(*self)
    }
}

impl View for Pattern {
    type V = PatternModel;

    open spec fn view(&self) -> PatternModel {
        pattern_of(*self)
    }
}

/// Model of a parse result: the anchor and the patterns.
pub open spec fn expression_of(e: Expression) -> (Anchor, Seq<PatternModel>) {
    (e.0, patterns_of(e.1@))
}

} // verus!
