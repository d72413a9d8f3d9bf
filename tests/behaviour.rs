use pattern_parser::{process, Anchor, ParsingError, Pattern, PredefinedSet, Range, Repetition, Sets, SubPattern};

fn lit(c: char) -> Pattern {
    Pattern { sub_pattern: SubPattern::Char(c), repetition: Repetition::Once }
}

fn single(sub_pattern: SubPattern, repetition: Repetition) -> (Anchor, Vec<Pattern>) {
    (Anchor::Unanchored, vec![Pattern { sub_pattern, repetition }])
}

fn err(text: &str) -> ParsingError {
    process(text).unwrap_err()
}

#[test]
fn plain_text_gives_one_literal_per_character() {
    let text = "abc XYZ_09,-@|~";
    let expected: Vec<Pattern> = text.chars().map(lit).collect();
    assert_eq!(process(text).unwrap(), (Anchor::Unanchored, expected));
}

#[test]
fn empty_input_is_an_empty_expression() {
    assert_eq!(process("").unwrap(), (Anchor::Unanchored, vec![]));
}

#[test]
fn anchors_at_both_ends() {
    assert_eq!(process("^ab$").unwrap(), (Anchor::Both, vec![lit('a'), lit('b')]));
    assert_eq!(process("^ab").unwrap(), (Anchor::Start, vec![lit('a'), lit('b')]));
    assert_eq!(process("ab$").unwrap(), (Anchor::End, vec![lit('a'), lit('b')]));
    assert_eq!(process("^$").unwrap(), (Anchor::Both, vec![]));
    assert_eq!(process("^").unwrap(), (Anchor::Start, vec![]));
    assert_eq!(process("$").unwrap(), (Anchor::End, vec![]));
}

#[test]
fn stray_anchors_are_rejected() {
    assert_eq!(err("^^a"), ParsingError::MisusedAnchorChracter);
    assert_eq!(err("a$$"), ParsingError::MisusedAnchorChracter);
    assert_eq!(err("a^b"), ParsingError::MisusedAnchorChracter);
    assert_eq!(err("a$b"), ParsingError::MisusedAnchorChracter);
    assert_eq!(err("(a|^b)"), ParsingError::MisusedAnchorChracter);
}

#[test]
fn escaped_anchor_is_a_literal() {
    assert_eq!(process(r"a\$").unwrap(), (Anchor::Unanchored, vec![lit('a'), lit('$')]));
    assert_eq!(process(r"\^a").unwrap(), (Anchor::Unanchored, vec![lit('^'), lit('a')]));
}

#[test]
fn brace_quantifiers() {
    assert_eq!(process("a{2,5}").unwrap(), single(SubPattern::Char('a'), Repetition::InRange(2, 5)));
    assert_eq!(process("a{3,3}").unwrap(), single(SubPattern::Char('a'), Repetition::InRange(3, 3)));
    assert_eq!(process("a{3}").unwrap(), single(SubPattern::Char('a'), Repetition::Exactly(3)));
    assert_eq!(process("a{3,}").unwrap(), single(SubPattern::Char('a'), Repetition::AtLeast(3)));
    assert_eq!(process("a{,4}").unwrap(), single(SubPattern::Char('a'), Repetition::AtMost(4)));
    assert_eq!(process("a{007}").unwrap(), single(SubPattern::Char('a'), Repetition::Exactly(7)));
    assert_eq!(process("a{0}").unwrap(), single(SubPattern::Char('a'), Repetition::Exactly(0)));
}

#[test]
fn largest_count_fits() {
    let text = format!("a{{{}}}", usize::MAX);
    assert_eq!(process(&text).unwrap(), single(SubPattern::Char('a'), Repetition::Exactly(usize::MAX)));
}

#[test]
fn malformed_braces() {
    assert_eq!(err("a{}"), ParsingError::MalformedExpression);
    assert_eq!(err("a{,}"), ParsingError::MalformedExpression);
    assert_eq!(err("a{1,2,3}"), ParsingError::MalformedExpression);
    assert_eq!(err("a{2x}"), ParsingError::MalformedExpression);
    assert_eq!(err("a{2"), ParsingError::MalformedExpression);
}

#[test]
fn count_too_large_is_not_a_number() {
    assert_eq!(err("a{99999999999999999999999}"), ParsingError::NotANumber);
    assert_eq!(err("a{1,99999999999999999999999}"), ParsingError::NotANumber);
}

#[test]
fn reversed_count_range_is_rejected() {
    assert_eq!(err("a{5,2}"), ParsingError::IncorrectRepetitionLimits);
}

#[test]
fn character_ranges() {
    assert_eq!(
        process("[a-z]").unwrap(),
        single(SubPattern::BracketedSet(vec![Sets::CustomRange(Range('a', 'z'))]), Repetition::Once)
    );
    assert_eq!(err("[z-a]"), ParsingError::IncorrectRepetitionLimits);
    assert_eq!(err("[a-a]"), ParsingError::IncorrectRepetitionLimits);
}

#[test]
fn dash_at_either_edge_is_a_member() {
    assert_eq!(
        process("[-az]").unwrap(),
        single(SubPattern::BracketedSet(vec![Sets::Custom(vec!['-', 'a', 'z'])]), Repetition::Once)
    );
    assert_eq!(
        process("[az-]").unwrap(),
        single(SubPattern::BracketedSet(vec![Sets::Custom(vec!['a', 'z', '-'])]), Repetition::Once)
    );
}

#[test]
fn bracket_right_after_open_is_a_member() {
    assert_eq!(
        process("[]a]").unwrap(),
        single(SubPattern::BracketedSet(vec![Sets::Custom(vec![']', 'a'])]), Repetition::Once)
    );
}

#[test]
fn named_classes() {
    let both = vec![Sets::PredefinedSets(PredefinedSet::AlNum), Sets::PredefinedSets(PredefinedSet::XDigit)];
    assert_eq!(process("[[:alnum:][:xdigit:]]").unwrap(), single(SubPattern::BracketedSet(both), Repetition::Once));
    assert_eq!(
        process("[^[:alnum:]]").unwrap(),
        single(SubPattern::InvertedSet(vec![Sets::PredefinedSets(PredefinedSet::AlNum)]), Repetition::Once)
    );
    assert_eq!(
        process("[[:upper:][:lower:]]").unwrap(),
        single(
            SubPattern::BracketedSet(vec![
                Sets::PredefinedSets(PredefinedSet::Upper),
                Sets::PredefinedSets(PredefinedSet::Lower),
            ]),
            Repetition::Once
        )
    );
}

#[test]
fn class_errors() {
    assert_eq!(err("[[:foo:]]"), ParsingError::UnknownPredefinedSetName);
    assert_eq!(err("[[:Alpha:]]"), ParsingError::UnknownPredefinedSetName);
    assert_eq!(err("[[:alpha]]"), ParsingError::NotTerminatedProperly);
    assert_eq!(err("[[:alpha:"), ParsingError::NotTerminatedProperly);
    assert_eq!(err("[[.a.]]"), ParsingError::UnknownGuardCharacter);
    assert_eq!(err("[[=a=]]"), ParsingError::UnknownGuardCharacter);
    assert_eq!(err("[[a]]"), ParsingError::UnknownGuardCharacter);
}

#[test]
fn class_names_are_alphabetic_runs() {
    assert_eq!(err("[[:\u{e9}:]]"), ParsingError::UnknownPredefinedSetName);
    assert_eq!(err("[[:alph\u{e4}:]]"), ParsingError::UnknownPredefinedSetName);
    assert_eq!(err("[[:alpha1:]]"), ParsingError::NotTerminatedProperly);
    assert_eq!(err("[[::]]"), ParsingError::UnknownPredefinedSetName);
}

#[test]
fn numeric_characters_that_are_not_ascii_digits_are_not_numbers() {
    assert_eq!(err("a{\u{663}}"), ParsingError::NotANumber);
    assert_eq!(err("a{1,\u{663}}"), ParsingError::NotANumber);
    assert_eq!(err("a{\u{663},}"), ParsingError::NotANumber);
    assert_eq!(err("a{\u{bd}}"), ParsingError::NotANumber);
    assert_eq!(err("a{2\u{e9}}"), ParsingError::MalformedExpression);
}

#[test]
fn unclosed_constructs() {
    assert_eq!(err("[ab"), ParsingError::NotTerminatedProperly);
    assert_eq!(err("["), ParsingError::NotTerminatedProperly);
    assert_eq!(err("(ab|c"), ParsingError::NotTerminatedProperly);
}

#[test]
fn dangling_escapes() {
    assert_eq!(err("ab\\"), ParsingError::MalformedExpression);
    assert_eq!(err("[a\\"), ParsingError::MalformedExpression);
}

#[test]
fn characters_outside_the_literal_set() {
    assert_eq!(err("caf\u{e9}"), ParsingError::NotAsciiCharacter);
    assert_eq!(err("a)"), ParsingError::NotAsciiCharacter);
    assert_eq!(err("a**"), ParsingError::NotAsciiCharacter);
    assert_eq!(err("+a"), ParsingError::NotAsciiCharacter);
    assert_eq!(err("a\tb"), ParsingError::NotAsciiCharacter);
}

#[test]
fn escaped_characters_are_literals() {
    assert_eq!(
        process(r"\.\[\(\\\é").unwrap(),
        (Anchor::Unanchored, vec![lit('.'), lit('['), lit('('), lit('\\'), lit('é')])
    );
}

#[test]
fn group_branches() {
    let ans = single(
        SubPattern::Alternative(vec![
            vec![Pattern { sub_pattern: SubPattern::Char('a'), repetition: Repetition::AtLeastOnce }],
            vec![],
            vec![Pattern {
                sub_pattern: SubPattern::BracketedSet(vec![Sets::CustomRange(Range('0', '9'))]),
                repetition: Repetition::Exactly(2),
            }],
        ]),
        Repetition::AtMostOnce,
    );
    assert_eq!(process("(a+||[0-9]{2})?").unwrap(), ans);
}

#[test]
fn nested_groups_are_rejected() {
    assert_eq!(err("((a|b)|c)"), ParsingError::MalformedExpression);
    assert_eq!(err(r"(a\)b)"), ParsingError::MalformedExpression);
}

#[test]
fn parsing_twice_gives_equal_results() {
    for text in ["^[a-f0-9]{2,}(x|y)*$", "(cat|dog)*", "a{5,2}", ""] {
        assert_eq!(process(text), process(text));
    }
}
