pub mod just_one;

use vstd::prelude::*;

verus! {

/// The kind of game a room plays.
#[derive(Debug, Clone, Copy, PartialEq, Eq, Structural)]
pub enum GameType {
    JustOne,
}

impl Default for GameType {
    fn default() -> (r: GameType)
        ensures
            r == GameType::JustOne,
    {
        GameType::JustOne
    }
}

} // verus!
