//! Terminal input routing: raw key and mouse events are classified into
//! abstract inputs, and inputs are routed to actions by the game's phase.

use crate::rules::Phase;
use vstd::prelude::*;

verus! {

/// Key codes the game distinguishes; every other key is `Other`.
#[derive(Debug, Clone, Copy, PartialEq, Eq, Structural)]
pub enum KeyCode {
    Char(char),
    Esc,
    Other,
}

/// Kind of a key event.
#[derive(Debug, Clone, Copy, PartialEq, Eq, Structural)]
pub enum KeyEventKind {
    Press,
    Repeat,
    Release,
}

/// A terminal event as the game sees it.
#[derive(Debug, Clone, Copy, PartialEq, Eq, Structural)]
pub enum TermEvent {
    Key { code: KeyCode, kind: KeyEventKind },
    /// Left mouse button pressed.
    LeftClick,
    /// Any other mouse event, a resize, a paste, a focus change.
    Other,
}

/// Abstract input.
#[derive(Debug, Clone, Copy, PartialEq, Eq, Structural)]
pub enum Input {
    /// Space, click or tap.
    Primary,
    /// `r`.
    Restart,
    /// `q` or Esc.
    Quit,
}

/// What an input does to the game or the loop.
#[derive(Debug, Clone, Copy, PartialEq, Eq, Structural)]
pub enum Action {
    Flap,
    Restart,
    Quit,
}

/// The input a key code stands for when pressed.
pub open spec fn key_input(code: KeyCode) -> Option<Input> {
    match code {
        KeyCode::Char(c) => if c == ' ' {
            Some(Input::Primary)
        } else if c == 'r' || c == 'R' {
            Some(Input::Restart)
        } else if c == 'q' || c == 'Q' {
            Some(Input::Quit)
        } else {
            None
        },
        KeyCode::Esc => Some(Input::Quit),
        KeyCode::Other => None,
    }
}

/// The input an event stands for: key presses by their code (repeats and
/// releases are ignored), a left click is the primary input.
pub open spec fn event_input(event: TermEvent) -> Option<Input> {
    match event {
        TermEvent::Key { code, kind } => if kind == KeyEventKind::Press {
            key_input(code)
        } else {
            None
        },
        TermEvent::LeftClick => Some(Input::Primary),
        TermEvent::Other => None,
    }
}

/// Classifies an event as an abstract input; events the game ignores give `None`.
pub fn classify(event: &TermEvent) -> (r: Option<Input>)
    ensures
        r == event_input(*event),
{
    match event {
        TermEvent::Key { code, kind } => {
            if *kind != KeyEventKind::Press {
                return None;
            }
            match code {
                KeyCode::Char(c) => {
                    if *c == ' ' {
                        Some(Input::Primary)
                    } else if *c == 'r' || *c == 'R' {
                        Some(Input::Restart)
                    } else if *c == 'q' || *c == 'Q' {
                        Some(Input::Quit)
                    } else {
                        None
                    }
                },
                KeyCode::Esc => Some(Input::Quit),
                KeyCode::Other => None,
            }
        },
        TermEvent::LeftClick => Some(Input::Primary),
        TermEvent::Other => None,
    }
}

/// The action of an input in a phase: the primary input restarts after
/// GameOver and flaps otherwise; restart and quit do the same in every phase.
pub open spec fn action_of(input: Input, phase: Phase) -> Action {
    match input {
        Input::Primary => if phase == Phase::GameOver {
            Action::Restart
        } else {
            Action::Flap
        },
        Input::Restart => Action::Restart,
        Input::Quit => Action::Quit,
    }
}

/// Routes an input to an action according to the phase.
pub fn route(input: Input, phase: Phase) -> (r: Action)
    ensures
        r == action_of(input, phase),
{
    match input {
        Input::Primary => {
            if phase == Phase::GameOver {
                Action::Restart
            } else {
                Action::Flap
            }
        },
        Input::Restart => Action::Restart,
        Input::Quit => Action::Quit,
    }
}

} // verus!
