use pattern_parser::{process, Anchor, Pattern, PredefinedSet, Range, Repetition, Sets, SubPattern};

#[test]
fn parser_test_exact_repetition_1() {
    let expr = "1{25}";
    let ans = (
        Anchor::Unanchored,
        vec![Pattern {
            sub_pattern: SubPattern::Char('1'),
            repetition: Repetition::Exactly(25),
        }],
    );
    assert_eq!(ans, process(expr).unwrap());
}

#[test]
fn test_exact_reptition_2() {
    let expr = "1{,25}";
    let ans = (
        Anchor::Unanchored,
        vec![Pattern {
            sub_pattern: SubPattern::Char('1'),
            repetition: Repetition::AtMost(25),
        }],
    );
    assert_eq!(ans, process(expr).unwrap());
}

#[test]
fn parser_test_exact_repetition_3() {
    let expr = "1{25,}";
    let ans = (
        Anchor::Unanchored,
        vec![Pattern {
            sub_pattern: SubPattern::Char('1'),
            repetition: Repetition::AtLeast(25),
        }],
    );
    assert_eq!(ans, process(expr).unwrap());
}

#[test]
fn parser_test_exact_repetition_4() {
    let expr = "1{2,25}";
    let ans = (
        Anchor::Unanchored,
        vec![Pattern {
            sub_pattern: SubPattern::Char('1'),
            repetition: Repetition::InRange(2, 25),
        }],
    );
    assert_eq!(ans, process(expr).unwrap());
}

#[test]
fn parser_test_bracketed_expression1() {
    let exp = r"[[:alnum:]]";

    let ans = (
        Anchor::Unanchored,
        vec![Pattern {
            sub_pattern: SubPattern::BracketedSet(vec![Sets::PredefinedSets(
                PredefinedSet::AlNum,
            )]),
            repetition: Repetition::Once,
        }],
    );

    assert_eq!(process(exp).unwrap(), ans);
}

#[test]
fn parser_test_bracketed_expression2() {
    let exp = r"[[:alnum:][:xdigit:]]";

    let ans = (
        Anchor::Unanchored,
        vec![Pattern {
            sub_pattern: SubPattern::BracketedSet(vec![
                Sets::PredefinedSets(PredefinedSet::AlNum),
                Sets::PredefinedSets(PredefinedSet::XDigit),
            ]),
            repetition: Repetition::Once,
        }],
    );

    assert_eq!(process(exp).unwrap(), ans);
}

#[test]
fn parser_test_inverted_bracketed_expression2() {
    let exp = r"[^[:alnum:][:xdigit:]]";

    let ans = (
        Anchor::Unanchored,
        vec![Pattern {
            sub_pattern: SubPattern::InvertedSet(vec![
                Sets::PredefinedSets(PredefinedSet::AlNum),
                Sets::PredefinedSets(PredefinedSet::XDigit),
            ]),
            repetition: Repetition::Once,
        }],
    );

    assert_eq!(process(exp).unwrap(), ans);
}

#[test]
fn parser_test_inverted_bracketed_expression3() {
    let exp = r"[^[:alnum:][:xdigit:][:punct:]]";

    let ans = (
        Anchor::Unanchored,
        vec![Pattern {
            sub_pattern: SubPattern::InvertedSet(vec![
                Sets::PredefinedSets(PredefinedSet::AlNum),
                Sets::PredefinedSets(PredefinedSet::XDigit),
                Sets::PredefinedSets(PredefinedSet::Punct),
            ]),
            repetition: Repetition::Once,
        }],
    );

    assert_eq!(process(exp).unwrap(), ans);
}

#[test]
fn parser_test_bracketed_expression3() {
    let exp = r"[aBc09]";

    let ans = (
        Anchor::Unanchored,
        vec![Pattern {
            sub_pattern: SubPattern::BracketedSet(vec![Sets::Custom(vec![
                'a', 'B', 'c', '0', '9',
            ])]),
            repetition: Repetition::Once,
        }],
    );

    assert_eq!(process(exp).unwrap(), ans);
}

#[test]
fn parser_test_bracketed_expression_range_simple() {
    let exp = r"[a-z]";

    let ans = (
        Anchor::Unanchored,
        vec![Pattern {
            sub_pattern: SubPattern::BracketedSet(vec![Sets::CustomRange(Range('a', 'z'))]),
            repetition: Repetition::Once,
        }],
    );

    assert_eq!(process(exp).unwrap(), ans);
}

#[test]
fn parser_test_bracketed_expression_range_compound() {
    let exp = r"[a-zA-Z0-9]";

    let ans = (
        Anchor::Unanchored,
        vec![Pattern {
            sub_pattern: SubPattern::BracketedSet(vec![
                Sets::CustomRange(Range('a', 'z')),
                Sets::CustomRange(Range('A', 'Z')),
                Sets::CustomRange(Range('0', '9')),
            ]),
            repetition: Repetition::Once,
        }],
    );

    assert_eq!(process(exp).unwrap(), ans);
}

#[test]
fn parser_all_bracketed_expression_together() {
    let exp = r"[^0-9a-f[:space:]xX]+";

    let ans = (
        Anchor::Unanchored,
        vec![Pattern {
            sub_pattern: SubPattern::InvertedSet(vec![
                Sets::CustomRange(Range('0', '9')),
                Sets::CustomRange(Range('a', 'f')),
                Sets::PredefinedSets(PredefinedSet::Space),
                Sets::Custom(vec!['x', 'X']),
            ]),
            repetition: Repetition::AtLeastOnce,
        }],
    );

    assert_eq!(process(exp).unwrap(), ans);
}

#[test]
fn parser_test_bracketed_expression_range_compound2() {
    let exp = r"[-a-zA-Z0-9]";

    let ans = (
        Anchor::Unanchored,
        vec![Pattern {
            sub_pattern: SubPattern::BracketedSet(vec![
                Sets::Custom(vec!['-']),
                Sets::CustomRange(Range('a', 'z')),
                Sets::CustomRange(Range('A', 'Z')),
                Sets::CustomRange(Range('0', '9')),
            ]),
            repetition: Repetition::Once,
        }],
    );

    assert_eq!(process(exp).unwrap(), ans);
}

#[test]
fn parser_test_bracketed_expression_range_compound3() {
    let exp = r"[a-zA-Z0-9-]";

    let ans = (
        Anchor::Unanchored,
        vec![Pattern {
            sub_pattern: SubPattern::BracketedSet(vec![
                Sets::CustomRange(Range('a', 'z')),
                Sets::CustomRange(Range('A', 'Z')),
                Sets::CustomRange(Range('0', '9')),
                Sets::Custom(vec!['-']),
            ]),
            repetition: Repetition::Once,
        }],
    );

    assert_eq!(process(exp).unwrap(), ans);
}

#[test]
fn test_bracketed_expression_range_compound4() {
    let exp = r"[a-eA-Z0-9ac-]";

    let ans = (
        Anchor::Unanchored,
        vec![Pattern {
            sub_pattern: SubPattern::BracketedSet(vec![
                Sets::CustomRange(Range('a', 'e')),
                Sets::CustomRange(Range('A', 'Z')),
                Sets::CustomRange(Range('0', '9')),
                Sets::Custom(vec!['a', 'c', '-']),
            ]),
            repetition: Repetition::Once,
        }],
    );

    assert_eq!(process(exp).unwrap(), ans);
}

#[test]
fn test_bracketed_expression_escaping1() {
    let exp = r"[a-eA-Z0-9\\ac-]";

    let ans = (
        Anchor::Unanchored,
        vec![Pattern {
            sub_pattern: SubPattern::BracketedSet(vec![
                Sets::CustomRange(Range('a', 'e')),
                Sets::CustomRange(Range('A', 'Z')),
                Sets::CustomRange(Range('0', '9')),
                Sets::Custom(vec!['\\', 'a', 'c', '-']),
            ]),
            repetition: Repetition::Once,
        }],
    );

    assert_eq!(process(exp).unwrap(), ans);
}

#[test]
fn test_bracketed_expression_escaping2() {
    let exp = r"[a-eA-Z0-9\]ac-]";

    let ans = (
        Anchor::Unanchored,
        vec![Pattern {
            sub_pattern: SubPattern::BracketedSet(vec![
                Sets::CustomRange(Range('a', 'e')),
                Sets::CustomRange(Range('A', 'Z')),
                Sets::CustomRange(Range('0', '9')),
                Sets::Custom(vec![']', 'a', 'c', '-']),
            ]),
            repetition: Repetition::Once,
        }],
    );

    assert_eq!(process(exp).unwrap(), ans);
}
