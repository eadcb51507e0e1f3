//! The control loop's decisions: one pure step from the current state and
//! one external event to the next state and the action the loop must
//! perform. The loop itself — terminal polling, timers, drawing, network
//! rounds — lives outside the library and only performs what this step
//! decides.

use vstd::prelude::*;

use crate::state::{spec_scroll_down, spec_scroll_up, App, AppView};

verus! {

use vstd::string::StringExecFns;

/// A key press, reduced to what the loop distinguishes.
#[derive(Clone, Copy, PartialEq, Eq, Structural, Debug)]
pub enum KeyInput {
    Char(char),
    Esc,
    Up,
    Down,
    Other,
}

/// One external event handed to the control loop.
#[derive(Clone, Copy, PartialEq, Eq, Structural, Debug)]
pub enum AppEvent {
    /// The refresh timer fired.
    Tick,
    Key(KeyInput),
    Resize,
    Quit,
}

/// What the loop must do after a step.
#[derive(Clone, Copy, PartialEq, Eq, Structural, Debug)]
pub enum Action {
    /// Run one concurrent snapshot round, then merge it back in.
    Fetch,
    /// Just redraw.
    Idle,
}

/// The step function: what each event does to the state, and what follows.
pub open spec fn spec_handle_event(v: AppView, ev: AppEvent) -> (AppView, Action) {
    match ev {
        AppEvent::Tick => ((AppView { status: "Fetching..."@, ..v }), Action::Fetch),
        AppEvent::Key(k) => match k {
            KeyInput::Char(c) => if c == 'q' {
                ((AppView { running: false, ..v }), Action::Idle)
            } else if c == 'r' {
                ((AppView { status: "Refreshing..."@, ..v }), Action::Fetch)
            } else if c == 'k' {
                ((AppView { scroll_offset: spec_scroll_up(v.scroll_offset), ..v }), Action::Idle)
            } else if c == 'j' {
                (
                    (AppView {
                        scroll_offset: spec_scroll_down(v.scroll_offset, v.coins.len()),
                        ..v
                    }),
                    Action::Idle,
                )
            } else {
                (v, Action::Idle)
            },
            KeyInput::Esc => ((AppView { running: false, ..v }), Action::Idle),
            KeyInput::Up => (
                (AppView { scroll_offset: spec_scroll_up(v.scroll_offset), ..v }),
                Action::Idle,
            ),
            KeyInput::Down => (
                (AppView {
                    scroll_offset: spec_scroll_down(v.scroll_offset, v.coins.len()),
                    ..v
                }),
                Action::Idle,
            ),
            KeyInput::Other => (v, Action::Idle),
        },
        AppEvent::Quit => ((AppView { running: false, ..v }), Action::Idle),
        AppEvent::Resize => (v, Action::Idle),
    }
}

impl App {
    /// Performs one step of the control loop on the state and says what
    /// the loop must do next.
    pub fn handle_event(&mut self, ev: AppEvent) -> (a: Action)
        requires
            old(self).wf(),
        ensures
            (final(self)@, a) == spec_handle_event(old(self)@, ev),
            final(self).wf(),
    {
        match ev {
            AppEvent::Tick => {
                self.status_message = String::from_str("Fetching...");
                Action::Fetch
            },
            AppEvent::Key(k) => match k {
                KeyInput::Char(c) => {
                    if c == 'q' {
                        self.quit();
                        Action::Idle
                    } else if c == 'r' {
                        self.status_message = String::from_str("Refreshing...");
                        Action::Fetch
                    } else if c == 'k' {
                        self.scroll_up();
                        Action::Idle
                    } else if c == 'j' {
                        self.scroll_down();
                        Action::Idle
                    } else {
                        Action::Idle
                    }
                },
                KeyInput::Esc => {
                    self.quit();
                    Action::Idle
                },
                KeyInput::Up => {
                    self.scroll_up();
                    Action::Idle
                },
                KeyInput::Down => {
                    self.scroll_down();
                    Action::Idle
                },
                KeyInput::Other => Action::Idle,
            },
            AppEvent::Quit => {
                self.quit();
                Action::Idle
            },
            AppEvent::Resize => Action::Idle,
        }
    }
}

} // verus!
