//! Verified core of a desktop chess application in which a language model
//! plays against a person: move and reply parsing, the game record, prompt
//! construction, streaming-reply handling, vote counting and saved-state
//! normalisation.

pub mod text;
pub mod chess_engine;
pub mod move_parser;
pub mod deepseek;
pub mod prompt;
pub mod game_state;
pub mod persistence;
pub mod commands;
