//! The filter stack: pushing and closing levels, searching, and stepping.

use grep_pager::greps::Greps;
use grep_pager::utils::{Line, Text};

fn sample_stack() -> Greps {
    Greps::new(Text::from("apple\nbanana\napricot\ncherry\napex").lines)
}

#[test]
fn new_stack_has_one_root_level() {
    let greps = sample_stack();
    assert_eq!(greps.greps.len(), 1);
    assert_eq!(greps.selected, 0);
    assert_eq!(greps.greps[0].patern, "ROOT");
    assert_eq!(greps.greps[0].line_index, 0);
    assert_eq!(greps.greps[0].lines.len(), 5);
}

#[test]
fn new_grep_filters_and_selects() {
    let mut greps = sample_stack();
    greps.new_grep("ap");
    assert_eq!(greps.greps.len(), 2);
    assert_eq!(greps.selected, 1);
    assert_eq!(greps.greps[1].patern, "ROOT > ap");
    assert_eq!(greps.greps[1].line_index, 0);
    let kept: Vec<&str> = greps.greps[1]
        .lines
        .iter()
        .map(|l: &Line| l.buffer.as_str())
        .collect();
    assert_eq!(kept, vec!["apple", "apricot", "apex"]);
}

#[test]
fn new_grep_keeps_child_no_longer_than_parent() {
    let mut greps = sample_stack();
    greps.new_grep("a");
    let parent_len = greps.greps[0].lines.len();
    let child_len = greps.greps[1].lines.len();
    assert!(child_len <= parent_len);
    greps.new_grep("apr");
    assert!(greps.greps[2].lines.len() <= greps.greps[1].lines.len());
}

#[test]
fn new_grep_with_invalid_pattern_is_a_no_op() {
    let mut greps = sample_stack();
    greps.new_grep("(");
    assert_eq!(greps.greps.len(), 1);
    assert_eq!(greps.selected, 0);
}

#[test]
fn empty_filter_result_still_creates_a_level() {
    let mut greps = sample_stack();
    greps.new_grep("zzz");
    assert_eq!(greps.greps.len(), 2);
    assert_eq!(greps.selected, 1);
    assert_eq!(greps.greps[1].lines.len(), 0);
}

#[test]
fn close_at_root_is_a_no_op() {
    let mut greps = sample_stack();
    greps.close_grep();
    assert_eq!(greps.greps.len(), 1);
    assert_eq!(greps.selected, 0);
}

#[test]
fn close_removes_selected_level() {
    let mut greps = sample_stack();
    greps.new_grep("ap");
    greps.new_grep("apr");
    assert_eq!(greps.greps.len(), 3);
    greps.close_grep();
    assert_eq!(greps.greps.len(), 2);
    assert_eq!(greps.selected, 1);
    assert_eq!(greps.greps[1].patern, "ROOT > ap");
}

#[test]
fn selection_moves_and_clamps() {
    let mut greps = sample_stack();
    greps.new_grep("a");
    assert_eq!(greps.selected, 1);
    greps.select_one_to_right();
    assert_eq!(greps.selected, 1);
    greps.select_one_to_left();
    assert_eq!(greps.selected, 0);
    greps.select_one_to_left();
    assert_eq!(greps.selected, 0);
    greps.select_one_to_right();
    assert_eq!(greps.selected, 1);
}

#[test]
fn apply_search_selects_first_match_and_installs_a_rule() {
    let mut greps = sample_stack();
    // Matches at lines 1 (banana) and 3 (cherry).
    greps.apply_search_patern("an|err");
    assert_eq!(greps.current_grep().line_index, 1);
    assert_eq!(greps.decorations().len(), 1);
}

#[test]
fn apply_search_with_invalid_pattern_is_a_no_op() {
    let mut greps = sample_stack();
    greps.apply_search_patern("(");
    assert_eq!(greps.current_grep().line_index, 0);
    assert_eq!(greps.decorations().len(), 0);
}

#[test]
fn apply_search_without_matches_is_a_no_op() {
    let mut greps = sample_stack();
    greps.apply_search_patern("ap");
    assert_eq!(greps.current_grep().line_index, 0);
    greps.apply_search_patern("zzz");
    assert_eq!(greps.current_grep().line_index, 0);
    assert_eq!(greps.decorations().len(), 1);
}

#[test]
fn search_steps_forward_and_backward() {
    let mut greps = sample_stack();
    // Matches at lines 0 (apple), 2 (apricot) and 4 (apex).
    greps.apply_search_patern("ap");
    assert_eq!(greps.current_grep().line_index, 0);
    greps.next_search();
    assert_eq!(greps.current_grep().line_index, 2);
    greps.next_search();
    assert_eq!(greps.current_grep().line_index, 4);
    // At the last match the forward step stays.
    greps.next_search();
    assert_eq!(greps.current_grep().line_index, 4);
    greps.prev_search();
    assert_eq!(greps.current_grep().line_index, 2);
    greps.prev_search();
    assert_eq!(greps.current_grep().line_index, 0);
    // At the first match the backward step stays.
    greps.prev_search();
    assert_eq!(greps.current_grep().line_index, 0);
}

#[test]
fn stepping_off_a_match_jumps_to_the_nearest() {
    let mut greps = sample_stack();
    greps.apply_search_patern("ap");
    greps.change_current_line_index(3);
    // 3 is equally near to matches 2 and 4: the lower one wins.
    greps.next_search();
    assert_eq!(greps.current_grep().line_index, 2);
}

#[test]
fn stepping_without_any_search_is_a_no_op() {
    let mut greps = sample_stack();
    greps.next_search();
    assert_eq!(greps.current_grep().line_index, 0);
    greps.prev_search();
    assert_eq!(greps.current_grep().line_index, 0);
}
