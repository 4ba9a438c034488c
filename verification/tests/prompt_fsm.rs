//! The prompt's transition table and the key-reading loop over a mock
//! terminal.

use grep_pager::pager::{Key, PagerMock};
use grep_pager::prompt::{prompt, prompt_step, Prompt, PromptMode, PromptStep};

#[test]
fn visual_mode_emits_commands() {
    let typed = String::new();
    let tabbed = String::new();
    assert_eq!(
        prompt_step(PromptMode::Visual, Key::Char(' '), &typed, &tabbed),
        PromptStep::Emit(Prompt::NextPage)
    );
    assert_eq!(
        prompt_step(PromptMode::Visual, Key::Char('q'), &typed, &tabbed),
        PromptStep::Emit(Prompt::Exit)
    );
    assert_eq!(
        prompt_step(PromptMode::Visual, Key::Char('g'), &typed, &tabbed),
        PromptStep::Emit(Prompt::ScrollTop)
    );
    assert_eq!(
        prompt_step(PromptMode::Visual, Key::Char('G'), &typed, &tabbed),
        PromptStep::Emit(Prompt::ScrollBottom)
    );
    assert_eq!(
        prompt_step(PromptMode::Visual, Key::Char('n'), &typed, &tabbed),
        PromptStep::Emit(Prompt::NextSearch)
    );
    assert_eq!(
        prompt_step(PromptMode::Visual, Key::Char('N'), &typed, &tabbed),
        PromptStep::Emit(Prompt::PrevSearch)
    );
    assert_eq!(
        prompt_step(PromptMode::Visual, Key::Down, &typed, &tabbed),
        PromptStep::Emit(Prompt::SingleLineDown)
    );
    assert_eq!(
        prompt_step(PromptMode::Visual, Key::Up, &typed, &tabbed),
        PromptStep::Emit(Prompt::SingleLineUp)
    );
    assert_eq!(
        prompt_step(PromptMode::Visual, Key::Left, &typed, &tabbed),
        PromptStep::Emit(Prompt::GrepLeft)
    );
    assert_eq!(
        prompt_step(PromptMode::Visual, Key::Right, &typed, &tabbed),
        PromptStep::Emit(Prompt::GrepRight)
    );
    assert_eq!(
        prompt_step(PromptMode::Visual, Key::Ctrl('w'), &typed, &tabbed),
        PromptStep::Emit(Prompt::CloseGrep)
    );
    assert_eq!(
        prompt_step(PromptMode::Visual, Key::Ctrl('x'), &typed, &tabbed),
        PromptStep::Ignore
    );
    assert_eq!(
        prompt_step(PromptMode::Visual, Key::Char('z'), &typed, &tabbed),
        PromptStep::Ignore
    );
}

#[test]
fn visual_mode_switches_modes() {
    let typed = String::new();
    let tabbed = String::new();
    assert_eq!(
        prompt_step(PromptMode::Visual, Key::Char('/'), &typed, &tabbed),
        PromptStep::SwitchMode(PromptMode::Search)
    );
    assert_eq!(
        prompt_step(PromptMode::Visual, Key::Char('&'), &typed, &tabbed),
        PromptStep::SwitchMode(PromptMode::Grep)
    );
    assert_eq!(
        prompt_step(PromptMode::Visual, Key::Char('#'), &typed, &tabbed),
        PromptStep::SwitchMode(PromptMode::Command)
    );
}

#[test]
fn entry_modes_collect_text_and_emit_patterns() {
    let typed = String::from("pat");
    let tabbed = String::new();
    assert_eq!(
        prompt_step(PromptMode::Search, Key::Char('x'), &typed, &tabbed),
        PromptStep::Append('x')
    );
    assert_eq!(
        prompt_step(PromptMode::Search, Key::Enter, &typed, &tabbed),
        PromptStep::Emit(Prompt::SearchPattern(String::from("pat")))
    );
    assert_eq!(
        prompt_step(PromptMode::Grep, Key::Enter, &typed, &tabbed),
        PromptStep::Emit(Prompt::GrepPattern(String::from("pat")))
    );
    assert_eq!(
        prompt_step(PromptMode::Search, Key::Esc, &typed, &tabbed),
        PromptStep::SwitchMode(PromptMode::Visual)
    );
}

#[test]
fn command_mode_completes_and_runs_close() {
    let typed = String::new();
    let tabbed = String::new();
    assert_eq!(
        prompt_step(PromptMode::Command, Key::Tab, &typed, &tabbed),
        PromptStep::SetTab
    );
    // With the completion set, Enter closes the level.
    let completed = String::from("close");
    assert_eq!(
        prompt_step(PromptMode::Command, Key::Enter, &typed, &completed),
        PromptStep::Emit(Prompt::CloseGrep)
    );
    // Typing the command name out works too.
    assert_eq!(
        prompt_step(PromptMode::Command, Key::Enter, &completed, &tabbed),
        PromptStep::Emit(Prompt::CloseGrep)
    );
    // Anything else does nothing.
    let other = String::from("open");
    assert_eq!(
        prompt_step(PromptMode::Command, Key::Enter, &other, &tabbed),
        PromptStep::Ignore
    );
}

#[test]
fn prompt_loop_returns_the_emitted_command() {
    let mut pager = PagerMock::default();
    pager.input_key = Key::Char('q');
    assert_eq!(prompt(&mut pager, PromptMode::Visual), Prompt::Exit);

    let mut pager = PagerMock::default();
    pager.input_key = Key::Enter;
    assert_eq!(
        prompt(&mut pager, PromptMode::Search),
        Prompt::SearchPattern(String::new())
    );
}
