//! The decoration engine on concrete lines and rule sets.

use grep_pager::utils::{Attribute, DecorationPattern, Decorations, Line, Text};
use grep_pager::utils::match_against_pattern;

#[test]
fn test_match_against_pattern() {
    assert_eq!(
        match_against_pattern(&"test", &"test"),
        Some("test".to_string())
    );
    assert_eq!(match_against_pattern(&"test", &"t"), Some("t".to_string()));
    assert_eq!(
        match_against_pattern(&"test test", &"test"),
        Some("test".to_string())
    );
    assert_eq!(
        match_against_pattern(&"string test", &"test"),
        Some("test".to_string())
    );
    assert_eq!(
        match_against_pattern(&"SOME TEST BUFFER", &"SOME"),
        Some("SOME".to_string())
    );
    assert_eq!(match_against_pattern(&"SOME", &"NONE"), None);
}

#[test]
fn test_new_tex_from_buffer() {
    let mut text = Text::new();
    let buffer = &"SOME TEST BUFFER";
    text.fill_from_buffer(buffer);

    assert_eq!(&text.lines[0].buffer, buffer);
}

#[test]
fn test_pattern_decorations() {
    let mut text = Text::new();
    let buffer = &"SOME TEST BUFFER";
    text.fill_from_buffer(buffer);

    assert_eq!(
        text.lines[0].decorate(&vec![DecorationPattern::from_single_attr(
            Attribute::Inverse,
            &"SOME"
        )])[0],
        Decorations::Attributed(vec![Attribute::Inverse], String::from("SOME"))
    );
    assert_eq!(
        text.lines[0].decorate(&vec![DecorationPattern::from_single_attr(
            Attribute::Inverse,
            &"TEST"
        )])[0],
        Decorations::Plain(String::from("SOME "))
    );
    assert_eq!(
        text.lines[0].decorate(&vec![DecorationPattern::from_single_attr(
            Attribute::Inverse,
            &"TEST"
        )])[1],
        Decorations::Attributed(vec![Attribute::Inverse], String::from("TEST"))
    );
    assert_eq!(
        text.lines[0].decorate(&vec![DecorationPattern::from_single_attr(
            Attribute::Inverse,
            &"TEST"
        )])[2],
        Decorations::Plain(String::from(" BUFFER"))
    );
}

#[test]
fn more_complicated_pattern_decorations() {
    let mut text = Text::new();
    let buffer = &"a b c d e f g h i j k l m n o p r s t";
    text.fill_from_buffer(buffer);
    let decorations = vec![
        DecorationPattern::from_single_attr(Attribute::Red, &"a b c"),
        DecorationPattern::from_single_attr(Attribute::Red, &"g h i"),
        DecorationPattern::from_single_attr(Attribute::Red, &"r s t"),
    ];

    let decorated_line = text.lines[0].decorate(&decorations);
    assert_eq!(decorated_line.len(), 5);
}

#[test]
fn more_complicated_pattern_decorations_last_is_first() {
    let mut text = Text::new();
    let buffer = &"a b c d e f g h i j k l m n o p r s t";
    text.fill_from_buffer(buffer);
    let decorations = vec![
        DecorationPattern::from_single_attr(Attribute::Red, &"r s t"),
        DecorationPattern::from_single_attr(Attribute::Red, &"g h i"),
        DecorationPattern::from_single_attr(Attribute::Red, &"a b c"),
    ];

    let decorated_line = text.lines[0].decorate(&decorations);
    assert_eq!(decorated_line.len(), 5);
}

#[test]
fn match_same_pattern() {
    let mut text = Text::new();
    let buffer = &"a a a d e f g h i j k l m n o p a a a";
    text.fill_from_buffer(buffer);
    let decorations = vec![
        DecorationPattern::from_single_attr(Attribute::Red, &"a a a"),
        DecorationPattern::from_single_attr(Attribute::Red, &"g h i"),
        DecorationPattern::from_single_attr(Attribute::Red, &"unmatched"),
    ];

    let decorated_line = text.lines[0].decorate(&decorations);
    assert_eq!(decorated_line.len(), 5);
}

fn segment_text(d: &Decorations) -> &str {
    match d {
        Decorations::Plain(s) => s.as_str(),
        Decorations::Attributed(_, s) => s.as_str(),
    }
}

#[test]
fn decorations_reconstruct_the_line() {
    let line = Line::from("one two three two one");
    let rules = vec![
        DecorationPattern::from_single_attr(Attribute::Inverse, "two"),
        DecorationPattern::from_single_attr(Attribute::Red, "one"),
    ];
    let segments = line.decorate(&rules);
    let rebuilt: String = segments.iter().map(segment_text).collect();
    assert_eq!(rebuilt, "one two three two one");
}

#[test]
fn decorate_without_rules_is_one_plain_run() {
    let line = Line::from("nothing to see");
    let segments = line.decorate(&vec![]);
    assert_eq!(
        segments,
        vec![Decorations::Plain(String::from("nothing to see"))]
    );
}

#[test]
fn regex_matches_are_not_literal_copies() {
    // A pattern with a character class: the returned text is the matched
    // substring, not the pattern source.
    assert_eq!(
        match_against_pattern("abc123def", "[0-9]+"),
        Some("123".to_string())
    );
    // The last match wins.
    assert_eq!(
        match_against_pattern("a1 b22 c333", "[0-9]+"),
        Some("333".to_string())
    );
}

#[test]
fn text_from_splits_on_newlines() {
    let text = Text::from("first\nsecond\nthird");
    assert_eq!(text.lines.len(), 3);
    assert_eq!(text.lines[0].buffer, "first");
    assert_eq!(text.lines[1].buffer, "second");
    assert_eq!(text.lines[2].buffer, "third");

    let trailing = Text::from("first\n");
    assert_eq!(trailing.lines.len(), 2);
    assert_eq!(trailing.lines[1].buffer, "");
}

#[test]
fn add_line_appends() {
    let mut text = Text::new();
    text.add_line("alpha");
    text.add_line("beta");
    assert_eq!(text.lines.len(), 2);
    assert_eq!(text.lines[1].buffer, "beta");
}
