//! The saved state (game and settings) and what is done to it around
//! writing and reading: the format version is stamped on writing, and on
//! reading missing fields take their defaults and missing players are
//! inferred from the side the person plays.

use vstd::prelude::*;
use crate::text::{owned, same_text};

verus! {

/// The current version of the save format.
pub const CURRENT_VERSION: u32 = 1;

/// Prompt language of saves that predate the setting.
pub fn default_lang() -> (r: String)
    ensures
        r@ == "zh"@,
{
    owned("zh")
}

/// Reasoning effort of saves that predate the setting.
pub fn default_effort() -> (r: String)
    ensures
        r@ == "high"@,
{
    owned("high")
}

/// Pseudo-reasoning of saves that predate the setting: off.
pub fn default_false() -> (r: bool)
    ensures
        !r,
{
    false
}

/// Samples per move of saves that predate the setting: 1 (no voting).
pub fn default_sc_samples() -> (r: u32)
    ensures
        r == 1,
{
    1
}

/// White's player in saves that predate the field: left empty, so that
/// `migrate_players` fills it in from the side the person plays.
pub fn default_white_player() -> (r: String)
    ensures
        r@ == default_players_text(),
{
    String::new()
}

/// Black's player in saves that predate the field: left empty, so that
/// `migrate_players` fills it in from the side the person plays.
pub fn default_black_player() -> (r: String)
    ensures
        r@ == default_players_text(),
{
    String::new()
}

/// Format version of saves that predate the field.
pub fn default_version() -> (r: u32)
    ensures
        r == CURRENT_VERSION,
{
    1
}

/// The saved settings.
pub struct SettingsSave {
    pub api_key: String,
    pub model: String,
    pub thinking: bool,
    pub pseudo_thinking: bool,
    pub thinking_language: String,
    pub reasoning_effort: String,
    pub min_thinking_tokens: u32,
    pub self_consistency_samples: u32,
}

/// The saved state: the game (as the moves played from the start) and the
/// settings.
pub struct SaveData {
    pub version: u32,
    pub has_game: bool,
    /// `white` or `black`.
    pub player_side: String,
    pub fen: String,
    pub move_history: Vec<String>,
    pub status: String,
    pub settings: SettingsSave,
    /// The notes of the model's last move.
    pub last_notes: String,
    /// `human`, `stockfish` or `deepseek`.
    pub white_player: String,
    pub black_player: String,
}

/// The players of a save after reading: an empty one is filled in as the
/// person against the model, the person taking the side in `player_side`
/// (white unless it reads `black`).
pub open spec fn filled_players(side: Seq<char>, white: Seq<char>, black: Seq<char>) -> (Seq<char>, Seq<char>) {
    if white.len() == 0 || black.len() == 0 {
        if side == "black"@ {
            (
                if white.len() == 0 {
                    "deepseek"@
                } else {
                    white
                },
                if black.len() == 0 {
                    "human"@
                } else {
                    black
                },
            )
        } else {
            (
                if white.len() == 0 {
                    "human"@
                } else {
                    white
                },
                if black.len() == 0 {
                    "deepseek"@
                } else {
                    black
                },
            )
        }
    } else {
        (white, black)
    }
}

/// `r` is `data` with missing players filled in (see `filled_players`) and
/// everything else kept.
pub open spec fn migrated(data: SaveData, r: SaveData) -> bool {
    &&& r.white_player@ == filled_players(data.player_side@, data.white_player@, data.black_player@).0
    &&& r.black_player@ == filled_players(data.player_side@, data.white_player@, data.black_player@).1
    &&& r.version == data.version
    &&& r.has_game == data.has_game
    &&& r.player_side == data.player_side
    &&& r.fen == data.fen
    &&& r.move_history == data.move_history
    &&& r.status == data.status
    &&& r.settings == data.settings
    &&& r.last_notes == data.last_notes
}

/// Fills in missing players of a save just read (see `filled_players`);
/// everything else is kept.
pub fn migrate_players(data: SaveData) -> (r: SaveData)
    ensures
        migrated(data, r),
{
    let mut data = data;
    if data.white_player.as_str().is_empty() || data.black_player.as_str().is_empty() {
        if same_text(data.player_side.as_str(), "black") {
            if data.white_player.as_str().is_empty() {
                data.white_player = owned("deepseek");
            }
            if data.black_player.as_str().is_empty() {
                data.black_player = owned("human");
            }
        } else {
            if data.white_player.as_str().is_empty() {
                data.white_player = owned("human");
            }
            if data.black_player.as_str().is_empty() {
                data.black_player = owned("deepseek");
            }
        }
    }
    data
}

/// `r` is `data` stamped with the current format version, everything else
/// kept.
pub open spec fn stamped(data: SaveData, r: SaveData) -> bool {
    &&& r.version == CURRENT_VERSION
    &&& r.has_game == data.has_game
    &&& r.player_side == data.player_side
    &&& r.fen == data.fen
    &&& r.move_history == data.move_history
    &&& r.status == data.status
    &&& r.settings == data.settings
    &&& r.last_notes == data.last_notes
    &&& r.white_player == data.white_player
    &&& r.black_player == data.black_player
}

/// A save about to be written: stamped with the current format version.
pub fn stamp_version(data: SaveData) -> (r: SaveData)
    ensures
        stamped(data, r),
{
    let mut data = data;
    data.version = CURRENT_VERSION;
    data
}

/// What is written comes back on reading: a save with both players set,
/// stamped on writing and migrated on reading, is the save itself with the
/// current format version.
pub proof fn law_written_save_reads_back(data: SaveData, written: SaveData, read: SaveData)
    requires
        data.white_player@.len() > 0,
        data.black_player@.len() > 0,
        stamped(data, written),
        migrated(written, read),
    ensures
        read.version == CURRENT_VERSION,
        read.has_game == data.has_game,
        read.player_side == data.player_side,
        read.fen == data.fen,
        read.move_history == data.move_history,
        read.status == data.status,
        read.settings == data.settings,
        read.last_notes == data.last_notes,
        read.white_player@ == data.white_player@,
        read.black_player@ == data.black_player@,
{
}

/// A save that predates the player fields reads back with the person on the
/// side the save names and the model on the other.
pub proof fn law_old_save_players_follow_side(data: SaveData, read: SaveData)
    requires
        data.white_player@ == default_players_text(),
        data.black_player@ == default_players_text(),
        migrated(data, read),
    ensures
        data.player_side@ == "black"@ ==> read.white_player@ == "deepseek"@ && read.black_player@
            == "human"@,
        data.player_side@ != "black"@ ==> read.white_player@ == "human"@ && read.black_player@
            == "deepseek"@,
{
}

/// The text the player fields of an old save are read as.
pub open spec fn default_players_text() -> Seq<char> {
    Seq::<char>::empty()
}

} // verus!
