//! Viewport arithmetic: fitting lines to the screen and cutting overflow.

use grep_pager::pager::{
    line_overflow, printable_prefix, render_rows, PagerMock, TermOperations,
};
use grep_pager::utils::{Attribute, DecorationPattern, Decorations, Text};

#[test]
fn top_leftofer_test_none() {
    let mut pager = PagerMock::default().with_size((10, 10)).with_cursor_pos((0, 0));
    let test_line = String::from("a").chars().cycle().take(10).collect::<String>();
    assert_eq!(test_line.len(), 10);
    assert_eq!(&pager.top_leftofer(&test_line), &None);
}

#[test]
fn top_leftofer_test_overflow() {
    let mut pager = PagerMock::default().with_size((10, 10)).with_cursor_pos((0, 0));
    let test_line = String::from("a").chars().cycle().take(11).collect::<String>();
    assert_eq!(test_line.len(), 11);
    assert_eq!(&pager.top_leftofer(&test_line), &Some("a"));
}

#[test]
fn line_overflow_splits_at_the_width() {
    assert_eq!(line_overflow("abcdef", 4), Some("ef"));
    assert_eq!(line_overflow("abcd", 4), None);
    assert_eq!(line_overflow("", 0), None);
}

#[test]
fn printable_prefix_fits_and_cuts() {
    // Ten rows, two reserved; the cursor at the origin leaves an 8 x 10
    // character budget.
    assert_eq!(printable_prefix(50, 10, 10, 2, 0, 0), 50);
    // A buffer over the budget is cut one short of it.
    assert_eq!(printable_prefix(100, 10, 10, 2, 0, 0), 79);
    // A cursor on the last content row has one row's budget, less the
    // columns already used.
    assert_eq!(printable_prefix(100, 10, 10, 2, 3, 7), 6);
    // No budget at all.
    assert_eq!(printable_prefix(5, 10, 10, 2, 0, 9), 0);
}

#[test]
fn render_plan_counts_lines_and_fillers() {
    let text = Text::from("one\ntwo\nthree");
    let rules: Vec<DecorationPattern> = Vec::new();
    // Ten rows minus the two-row footer leave eight content rows.
    let plan = render_rows(&text.lines, &rules, 10, 10, 2);
    assert_eq!(plan.printed_lines, 3);
    assert_eq!(plan.rows.len(), 3);
    assert_eq!(plan.filler_rows, 5);
}

#[test]
fn render_plan_stops_at_the_footer() {
    let text = Text::from("a\nb\nc\nd\ne");
    let rules: Vec<DecorationPattern> = Vec::new();
    // Four rows minus the footer leave two content rows.
    let plan = render_rows(&text.lines, &rules, 10, 4, 2);
    assert_eq!(plan.printed_lines, 2);
    assert_eq!(plan.rows.len(), 2);
    assert_eq!(plan.filler_rows, 0);
}

#[test]
fn render_plan_cuts_the_last_row_to_its_budget() {
    let text = Text::from("abcdefghijklmnopqrstuvwxyz");
    let rules: Vec<DecorationPattern> = Vec::new();
    // One content row of ten columns: the line is cut to ten characters.
    let plan = render_rows(&text.lines, &rules, 10, 3, 2);
    assert_eq!(plan.printed_lines, 1);
    assert_eq!(
        plan.rows[0],
        vec![Decorations::Plain(String::from("abcdefghij"))]
    );
}

#[test]
fn render_plan_keeps_decorations() {
    let text = Text::from("SOME TEST BUFFER");
    let rules = vec![DecorationPattern::from_single_attr(Attribute::Inverse, "TEST")];
    let plan = render_rows(&text.lines, &rules, 80, 10, 2);
    assert_eq!(plan.printed_lines, 1);
    assert_eq!(
        plan.rows[0],
        vec![
            Decorations::Plain(String::from("SOME ")),
            Decorations::Attributed(vec![Attribute::Inverse], String::from("TEST")),
            Decorations::Plain(String::from(" BUFFER")),
        ]
    );
}

#[test]
fn render_plan_with_invalid_rule_stays_plain() {
    let text = Text::from("SOME TEST BUFFER");
    let rules = vec![DecorationPattern::from_single_attr(Attribute::Inverse, "(")];
    let plan = render_rows(&text.lines, &rules, 80, 10, 2);
    assert_eq!(
        plan.rows[0],
        vec![Decorations::Plain(String::from("SOME TEST BUFFER"))]
    );
}
