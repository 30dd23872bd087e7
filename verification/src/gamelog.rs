//! The message log: what happened, in the order in which it happened.

use vstd::prelude::*;

verus! {

/// One thing that happened. Names are copies of the actors' names at the
/// time of the event, so that an entry outlives the actors it speaks of.
#[derive(Clone, Debug, PartialEq, Eq)]
pub enum LogEntry {
    /// An attack that took `damage` points of health.
    Hit { attacker: Option<String>, target: Option<String>, damage: i32 },
    /// An attack that the target's defense absorbed.
    UnableToHurt { attacker: Option<String>, target: Option<String> },
    /// A named actor died and left the world.
    Dead { victim: String },
    /// The player's health ran out.
    PlayerDead,
    /// The player picked an item up.
    PickedUp { item: Option<String> },
    /// The player tried to pick something up where nothing lies.
    NothingToPickUp,
}

/// Entries are only ever added at the end.
#[derive(Clone, Debug, PartialEq, Eq)]
pub struct GameLog {
    pub entries: Vec<LogEntry>,
}

impl GameLog {
    /// A log without entries.
    pub fn new() -> (log: GameLog)
        ensures
            log.entries@.len() == 0,
    {
        GameLog { entries: Vec::new() }
    }
}

} // verus!
