pub mod game_data;
pub mod round;

pub use game_data::{GameData, JustOneMove};
pub use round::{Guess, Hint, InvalidMove, RoundData, RoundState};
