//! Keystroke-to-command translation: a finite state machine over the input
//! modes, stepped one key event at a time.

use vstd::prelude::*;

verus! {

use crate::pager::{Key, TermOperations};
use crate::utils::str_eq;

/// A command for the controller, produced from key input.
#[derive(Debug, PartialEq)]
pub enum Prompt {
    Exit,
    NextPage,
    ScrollTop,
    ScrollBottom,
    SingleLineDown,
    SingleLineUp,
    SearchPattern(String),
    GrepPattern(String),
    GrepLeft,
    GrepRight,
    CloseGrep,
    NextSearch,
    PrevSearch,
}

/// The mathematical shape of a command: patterns as character sequences.
pub enum PromptView {
    Exit,
    NextPage,
    ScrollTop,
    ScrollBottom,
    SingleLineDown,
    SingleLineUp,
    SearchPattern(Seq<char>),
    GrepPattern(Seq<char>),
    GrepLeft,
    GrepRight,
    CloseGrep,
    NextSearch,
    PrevSearch,
}

impl View for Prompt {
    type V = PromptView;

    open spec fn view(&self) -> PromptView {
        match self {
            Prompt::Exit => PromptView::Exit,
            Prompt::NextPage => PromptView::NextPage,
            Prompt::ScrollTop => PromptView::ScrollTop,
            Prompt::ScrollBottom => PromptView::ScrollBottom,
            Prompt::SingleLineDown => PromptView::SingleLineDown,
            Prompt::SingleLineUp => PromptView::SingleLineUp,
            Prompt::SearchPattern(s) => PromptView::SearchPattern(s@),
            Prompt::GrepPattern(s) => PromptView::GrepPattern(s@),
            Prompt::GrepLeft => PromptView::GrepLeft,
            Prompt::GrepRight => PromptView::GrepRight,
            Prompt::CloseGrep => PromptView::CloseGrep,
            Prompt::NextSearch => PromptView::NextSearch,
            Prompt::PrevSearch => PromptView::PrevSearch,
        }
    }
}

/// An input mode of the prompt.
#[derive(Debug, Copy, Clone, PartialEq, Eq, Structural)]
pub enum PromptMode {
    Visual,
    Search,
    Grep,
    Command,
}

/// What one key event does to the prompt: emit a command, restart in
/// another mode, extend the typed text, complete the one command name, or
/// nothing.
#[derive(Debug, PartialEq)]
pub enum PromptStep {
    Emit(Prompt),
    SwitchMode(PromptMode),
    Append(char),
    SetTab,
    Ignore,
}

/// The mathematical shape of a prompt step.
pub enum PromptStepView {
    Emit(PromptView),
    SwitchMode(PromptMode),
    Append(char),
    SetTab,
    Ignore,
}

impl View for PromptStep {
    type V = PromptStepView;

    open spec fn view(&self) -> PromptStepView {
        match self {
            PromptStep::Emit(p) => PromptStepView::Emit(p@),
            PromptStep::SwitchMode(m) => PromptStepView::SwitchMode(*m),
            PromptStep::Append(c) => PromptStepView::Append(*c),
            PromptStep::SetTab => PromptStepView::SetTab,
            PromptStep::Ignore => PromptStepView::Ignore,
        }
    }
}

/// The prompt's transition table: what one key event does in each mode,
/// given the text typed so far and any completed command name.
pub open spec fn prompt_step_model(
    mode: PromptMode,
    key: Key,
    typed: Seq<char>,
    tabbed: Seq<char>,
) -> PromptStepView {
    match mode {
        PromptMode::Visual => match key {
            Key::Char(c) => if c == ' ' {
                PromptStepView::Emit(PromptView::NextPage)
            } else if c == 'q' {
                PromptStepView::Emit(PromptView::Exit)
            } else if c == '/' {
                PromptStepView::SwitchMode(PromptMode::Search)
            } else if c == '&' {
                PromptStepView::SwitchMode(PromptMode::Grep)
            } else if c == '#' {
                PromptStepView::SwitchMode(PromptMode::Command)
            } else if c == 'g' {
                PromptStepView::Emit(PromptView::ScrollTop)
            } else if c == 'G' {
                PromptStepView::Emit(PromptView::ScrollBottom)
            } else if c == 'n' {
                PromptStepView::Emit(PromptView::NextSearch)
            } else if c == 'N' {
                PromptStepView::Emit(PromptView::PrevSearch)
            } else {
                PromptStepView::Ignore
            },
            Key::Down => PromptStepView::Emit(PromptView::SingleLineDown),
            Key::Up => PromptStepView::Emit(PromptView::SingleLineUp),
            Key::Left => PromptStepView::Emit(PromptView::GrepLeft),
            Key::Right => PromptStepView::Emit(PromptView::GrepRight),
            Key::Ctrl(c) => if c == 'w' {
                PromptStepView::Emit(PromptView::CloseGrep)
            } else {
                PromptStepView::Ignore
            },
            _ => PromptStepView::Ignore,
        },
        PromptMode::Search => match key {
            Key::Esc => PromptStepView::SwitchMode(PromptMode::Visual),
            Key::Enter => PromptStepView::Emit(PromptView::SearchPattern(typed)),
            Key::Char(c) => PromptStepView::Append(c),
            _ => PromptStepView::Ignore,
        },
        PromptMode::Grep => match key {
            Key::Esc => PromptStepView::SwitchMode(PromptMode::Visual),
            Key::Enter => PromptStepView::Emit(PromptView::GrepPattern(typed)),
            Key::Char(c) => PromptStepView::Append(c),
            _ => PromptStepView::Ignore,
        },
        PromptMode::Command => match key {
            Key::Esc => PromptStepView::SwitchMode(PromptMode::Visual),
            Key::Tab => PromptStepView::SetTab,
            Key::Enter => if (if tabbed.len() == 0 {
                typed
            } else {
                tabbed
            }) == "close"@ {
                PromptStepView::Emit(PromptView::CloseGrep)
            } else {
                PromptStepView::Ignore
            },
            Key::Char(c) => PromptStepView::Append(c),
            _ => PromptStepView::Ignore,
        },
    }
}

/// Translates one key event under the prompt's transition table.
pub fn prompt_step(mode: PromptMode, key: Key, typed: &String, tabbed: &String) -> (r: PromptStep)
    ensures
        r@ == prompt_step_model(mode, key, typed@, tabbed@),
{
    match mode {
        PromptMode::Visual => match key {
            Key::Char(c) => {
                if c == ' ' {
                    PromptStep::Emit(Prompt::NextPage)
                } else if c == 'q' {
                    PromptStep::Emit(Prompt::Exit)
                } else if c == '/' {
                    PromptStep::SwitchMode(PromptMode::Search)
                } else if c == '&' {
                    PromptStep::SwitchMode(PromptMode::Grep)
                } else if c == '#' {
                    PromptStep::SwitchMode(PromptMode::Command)
                } else if c == 'g' {
                    PromptStep::Emit(Prompt::ScrollTop)
                } else if c == 'G' {
                    PromptStep::Emit(Prompt::ScrollBottom)
                } else if c == 'n' {
                    PromptStep::Emit(Prompt::NextSearch)
                } else if c == 'N' {
                    PromptStep::Emit(Prompt::PrevSearch)
                } else {
                    PromptStep::Ignore
                }
            },
            Key::Down => PromptStep::Emit(Prompt::SingleLineDown),
            Key::Up => PromptStep::Emit(Prompt::SingleLineUp),
            Key::Left => PromptStep::Emit(Prompt::GrepLeft),
            Key::Right => PromptStep::Emit(Prompt::GrepRight),
            Key::Ctrl(c) => {
                if c == 'w' {
                    PromptStep::Emit(Prompt::CloseGrep)
                } else {
                    PromptStep::Ignore
                }
            },
            _ => PromptStep::Ignore,
        },
        PromptMode::Search => match key {
            Key::Esc => PromptStep::SwitchMode(PromptMode::Visual),
            Key::Enter => PromptStep::Emit(Prompt::SearchPattern(typed.clone())),
            Key::Char(c) => PromptStep::Append(c),
            _ => PromptStep::Ignore,
        },
        PromptMode::Grep => match key {
            Key::Esc => PromptStep::SwitchMode(PromptMode::Visual),
            Key::Enter => PromptStep::Emit(Prompt::GrepPattern(typed.clone())),
            Key::Char(c) => PromptStep::Append(c),
            _ => PromptStep::Ignore,
        },
        PromptMode::Command => match key {
            Key::Esc => PromptStep::SwitchMode(PromptMode::Visual),
            Key::Tab => PromptStep::SetTab,
            Key::Enter => {
                let use_tabbed: bool = !tabbed.as_str().is_empty();
                let chosen: &String = if use_tabbed {
                    tabbed
                } else {
                    typed
                };
                if str_eq(chosen.as_str(), "close") {
                    PromptStep::Emit(Prompt::CloseGrep)
                } else {
                    PromptStep::Ignore
                }
            },
            Key::Char(c) => PromptStep::Append(c),
            _ => PromptStep::Ignore,
        },
    }
}

/// Relies on String::push: appends one character to the owned text.
#[verifier::external_body]
fn push_char(s: &mut String, c: char)
    ensures
        final(s)@ == old(s)@.push(c),
{
    s.push(c);
}

/// Writes the entry marker of a mode at the cursor.
fn print_mode_prefix<P: TermOperations>(pager: &mut P, mode: PromptMode) {
    match mode {
        PromptMode::Visual => pager.print(":"),
        PromptMode::Search => pager.print("/"),
        PromptMode::Grep => pager.print("&/"),
        PromptMode::Command => pager.print("#"),
    }
}

/// Reads key events and steps the transition table until it emits a
/// command, echoing typed text and restarting the entry line on a mode
/// switch. The loop spends one unit of a generous key budget per event so
/// that it provably terminates; an exhausted budget asks to exit.
pub fn prompt<P: TermOperations>(pager: &mut P, mode: PromptMode) -> Prompt {
    let mut current_mode: PromptMode = mode;
    let mut typed: String = String::new();
    let mut tabbed: String = String::new();
    pager.clear_line();
    print_mode_prefix(pager, current_mode);
    let mut fuel: u64 = u64::MAX;
    while fuel > 0
        decreases fuel,
    {
        fuel = fuel - 1;
        let key: Key = pager.input_key();
        match prompt_step(current_mode, key, &typed, &tabbed) {
            PromptStep::Emit(p) => {
                return p;
            },
            PromptStep::SwitchMode(m) => {
                current_mode = m;
                typed = String::new();
                tabbed = String::new();
                pager.clear_line();
                print_mode_prefix(pager, current_mode);
            },
            PromptStep::Append(c) => {
                push_char(&mut typed, c);
                let mut echo: String = String::new();
                push_char(&mut echo, c);
                pager.print(echo.as_str());
            },
            PromptStep::SetTab => {
                tabbed = "close".to_owned();
                pager.clear_line();
                pager.print("#close");
            },
            PromptStep::Ignore => {},
        }
    }
    Prompt::Exit
}

} // verus!
