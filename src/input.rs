use vstd::prelude::*;

verus! {

/// What the person at the keyboard asked for.
#[derive(Clone, Copy, Debug, PartialEq, Eq, Structural)]
pub enum Command {
    Quit,
    Pause,
    SpeedUp,
    SpeedDown,
    ScrollUp,
    ScrollDown,
    ScrollLeft,
    ScrollRight,
    TogglePheromones,
}

/// The command bound to a typed character, if any.
pub fn command_for_char(c: char) -> (r: Option<Command>)
    ensures
        r == if c == 'q' || c == 'Q' {
            Some(Command::Quit)
        } else if c == ' ' {
            Some(Command::Pause)
        } else if c == '+' || c == '=' {
            Some(Command::SpeedUp)
        } else if c == '-' || c == '_' {
            Some(Command::SpeedDown)
        } else if c == 'w' || c == 'k' {
            Some(Command::ScrollUp)
        } else if c == 's' || c == 'j' {
            Some(Command::ScrollDown)
        } else if c == 'a' || c == 'h' {
            Some(Command::ScrollLeft)
        } else if c == 'd' || c == 'l' {
            Some(Command::ScrollRight)
        } else if c == 'p' || c == 'P' {
            Some(Command::TogglePheromones)
        } else {
            None
        },
{
    if c == 'q' || c == 'Q' {
        Some(Command::Quit)
    } else if c == ' ' {
        Some(Command::Pause)
    } else if c == '+' || c == '=' {
        Some(Command::SpeedUp)
    } else if c == '-' || c == '_' {
        Some(Command::SpeedDown)
    } else if c == 'w' || c == 'k' {
        Some(Command::ScrollUp)
    } else if c == 's' || c == 'j' {
        Some(Command::ScrollDown)
    } else if c == 'a' || c == 'h' {
        Some(Command::ScrollLeft)
    } else if c == 'd' || c == 'l' {
        Some(Command::ScrollRight)
    } else if c == 'p' || c == 'P' {
        Some(Command::TogglePheromones)
    } else {
        None
    }
}

} // verus!
