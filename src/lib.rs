//! Room and round logic for a word-guessing party game: the round state
//! machine with per-viewer redaction, the game sequencer, the room actor's
//! decisions, and the room registry's membership rules.

pub mod games;
pub mod lobby;
pub mod lobby_manager;
