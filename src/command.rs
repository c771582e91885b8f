//! The keyboard commands of the interactive viewer.
//!
//! Keys `z` and `x` zoom in and out, `w`, `a`, `s`, `d` pan up, left, down and
//! right, `e` toggles the axes, `r` resets the view and `k` quits. Any other
//! key is ignored: it changes nothing and triggers no redraw.

use vstd::prelude::*;

verus! {

#[derive(Clone, Copy, Debug, PartialEq, Eq, Structural)]
pub enum Command {
    ZoomIn,
    ZoomOut,
    PanUp,
    PanDown,
    PanLeft,
    PanRight,
    ToggleAxes,
    Reset,
    Quit,
    Ignored,
}

/// The command bound to key `c`.
pub open spec fn command_of(c: char) -> Command {
    if c == 'z' {
        Command::ZoomIn
    } else if c == 'x' {
        Command::ZoomOut
    } else if c == 'w' {
        Command::PanUp
    } else if c == 's' {
        Command::PanDown
    } else if c == 'a' {
        Command::PanLeft
    } else if c == 'd' {
        Command::PanRight
    } else if c == 'e' {
        Command::ToggleAxes
    } else if c == 'r' {
        Command::Reset
    } else if c == 'k' {
        Command::Quit
    } else {
        Command::Ignored
    }
}

impl Command {
    /// Decodes one key press.
    pub fn from_key(c: char) -> (r: Command)
        ensures
            r == command_of(c),
    {
        match c {
            'z' => Command::ZoomIn,
            'x' => Command::ZoomOut,
            'w' => Command::PanUp,
            's' => Command::PanDown,
            'a' => Command::PanLeft,
            'd' => Command::PanRight,
            'e' => Command::ToggleAxes,
            'r' => Command::Reset,
            'k' => Command::Quit,
            _ => Command::Ignored,
        }
    }

    /// Whether the viewer redraws after this command: every command but
    /// `Quit` and `Ignored` changes the view and is followed by a redraw.
    pub fn redraws(&self) -> (r: bool)
        ensures
            r == !(*self == Command::Quit || *self == Command::Ignored),
    {
        match self {
            Command::Quit => false,
            Command::Ignored => false,
            _ => true,
        }
    }

    /// Whether the viewer stops after this command.
    pub fn quits(&self) -> (r: bool)
        ensures
            r == (*self == Command::Quit),
    {
        match self {
            Command::Quit => true,
            _ => false,
        }
    }
}

} // verus!
