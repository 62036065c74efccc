//! The messages a game shows over the board: which one, and where.

use vstd::prelude::*;

verus! {

/// Finite number of possible messages
#[derive(Copy, Clone, PartialEq, Eq, Debug, Hash, Structural)]
pub enum MessageID {
    /// Persistent fps view
    Fps,
    /// Temporary info when resizing window, toggling grid, or other notifications
    Notification,
    /// Stats about the game
    Stats,
}

/// The corner of the window a message is shown in
#[derive(Copy, Clone, PartialEq, Eq, Debug, Structural)]
pub enum Position {
    TopLeft,
    TopRight,
}

} // verus!
