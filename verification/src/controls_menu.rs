//! The controls menus' state: a choice between the two players (and whose
//! keys a single player uses), and each player's keys, one per direction.

use vstd::prelude::*;

use crate::hex::Dir;
use crate::key::Side;

verus! {

/// What a click on the players screen asks for
#[derive(Copy, Clone, PartialEq, Eq, Debug, Structural)]
pub enum PlayersAction {
    Back,
    /// Open this player's keys
    Open(Side),
    /// Make this player's keys the single player's
    SinglePlayer(Side),
}

/// What a click on a player's keys screen asks for
#[derive(Copy, Clone, PartialEq, Eq, Debug, Structural)]
pub enum KeysAction {
    Back,
    /// A key was clicked
    Select(Dir),
}

/// How long a key that lost its binding blinks, in milliseconds
pub const FLASH_MILLIS: u64 = 900;

/// How long each blink is lit, and then dark, in milliseconds
pub const BLINK_MILLIS: u64 = 100;

/// A key that lost its binding: whose, which, and since when
/// (milliseconds on the caller's clock)
#[derive(Copy, Clone, PartialEq, Eq, Debug, Structural)]
pub struct Flash {
    pub side: Side,
    pub dir: Dir,
    pub since: u64,
}

/// The state of one player's keys screen
#[derive(Copy, Clone, PartialEq, Eq, Debug, Structural)]
pub struct KeysScreen {
    pub side: Side,
    /// The key waiting for a key press to bind
    pub listening: Option<Dir>,
    /// A key that just lost its binding to another
    pub flash: Option<Flash>,
}

/// Whether the key for `dir` is lit at `now`: it lost its binding on this
/// player's screen less than [`FLASH_MILLIS`] ago, and blinks on and off.
/// A time before the flash began counts as lit.
pub open spec fn is_flashing(screen: KeysScreen, dir: Dir, now: u64) -> bool {
    match screen.flash {
        Some(f) => f.side == screen.side && f.dir == dir && (now < f.since || (now - f.since
            < FLASH_MILLIS && ((now - f.since) as int / BLINK_MILLIS as int) % 2 == 0)),
        None => false,
    }
}

impl KeysScreen {
    pub fn new(side: Side) -> (screen: KeysScreen)
        ensures
            screen == (KeysScreen { side, listening: None, flash: None }),
    {
        KeysScreen { side, listening: None, flash: None }
    }

    /// Start the key for `dir` of the player on `side` flashing, at `now`.
    pub fn flash(&mut self, side: Side, dir: Dir, now: u64)
        ensures
            *final(self) == (KeysScreen { flash: Some(Flash { side, dir, since: now }), ..*old(self) }),
    {
        self.flash = Some(Flash { side, dir, since: now });
    }

    /// Whether the key for `dir` is lit at `now`.
    pub fn flashing(&self, dir: Dir, now: u64) -> (lit: bool)
        ensures
            lit == is_flashing(*self, dir, now),
    {
        match self.flash {
            Some(f) => {
                if f.side != self.side || f.dir != dir {
                    false
                } else if now < f.since {
                    true
                } else {
                    let t = now - f.since;
                    t < FLASH_MILLIS && (t / BLINK_MILLIS) % 2 == 0
                }
            },
            None => false,
        }
    }
}

} // verus!
