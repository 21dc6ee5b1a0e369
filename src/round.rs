//! The outer cycle of the game: menu, round, game over, menu.
use vstd::prelude::*;

verus! {

/// Where the game stands between rounds.
#[derive(Clone, Copy, Debug, PartialEq, Eq, Structural)]
pub enum Phase {
    Menu,
    Playing,
    GameOver,
}

/// What happened during one frame, as far as the outer loop cares.
#[derive(Clone, Copy, Debug, PartialEq, Eq, Structural)]
pub enum Event {
    /// The player confirmed the menu.
    Confirm,
    /// The round's game-over check fired.
    RoundOver,
    /// A frame passed with neither of the above.
    Frame,
}

/// The cycle menu, round, game over, menu: the menu waits for a
/// confirmation, a round lasts until its game-over check fires, and game over
/// leads straight back to the menu.
pub open spec fn next_phase_spec(phase: Phase, event: Event) -> Phase {
    match phase {
        Phase::Menu => if event == Event::Confirm {
            Phase::Playing
        } else {
            Phase::Menu
        },
        Phase::Playing => if event == Event::RoundOver {
            Phase::GameOver
        } else {
            Phase::Playing
        },
        Phase::GameOver => Phase::Menu,
    }
}

/// The phase after `event`.
pub fn next_phase(phase: Phase, event: Event) -> (r: Phase)
    ensures
        r == next_phase_spec(phase, event),
{
    match phase {
        Phase::Menu => if event == Event::Confirm {
            Phase::Playing
        } else {
            Phase::Menu
        },
        Phase::Playing => if event == Event::RoundOver {
            Phase::GameOver
        } else {
            Phase::Playing
        },
        Phase::GameOver => Phase::Menu,
    }
}

} // verus!
