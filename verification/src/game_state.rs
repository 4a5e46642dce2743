//! Settings and the data handed to the window: the game as the window
//! shows it, the result of a move, and the settings it edits.

use vstd::prelude::*;
use crate::text::{owned, string_of, string_views};
use crate::chess_engine::{
    color_name, color_opposite, color_to_str, coords_of, in_check_of, legal_coords, move_coord,
    move_to_coord, opposite, piece_letter, piece_to_char, side_of, square_name, square_to_str,
    status_of, visual_of, BoardStatus, ChessGame, ChessMove,
};

verus! {

/// The player's settings.
pub struct Settings {
    pub api_key: String,
    pub model: String,
    /// Whether the service's own reasoning is wanted.
    pub thinking: bool,
    /// Pseudo-reasoning: the service's reasoning is turned off and the
    /// prompt asks for reasoning inside `<LMTHINK>` tags in the content.
    pub pseudo_thinking: bool,
    /// Prompt language: `zh` or `en`.
    pub thinking_language: String,
    /// `high` or `max`.
    pub reasoning_effort: String,
    /// The least reasoning length asked for (0: no demand).
    pub min_thinking_tokens: u32,
    /// Samples per move for voting (1: no voting).
    pub self_consistency_samples: u32,
    pub max_retries: u32,
}

impl Default for Settings {
    fn default() -> (r: Settings)
        ensures
            r.api_key@ == Seq::<char>::empty(),
            r.model@ == "deepseek-v4-flash"@,
            !r.thinking,
            !r.pseudo_thinking,
            r.thinking_language@ == "zh"@,
            r.reasoning_effort@ == "high"@,
            r.min_thinking_tokens == 0,
            r.self_consistency_samples == 1,
            r.max_retries == 5,
    {
        Settings {
            api_key: String::new(),
            model: owned("deepseek-v4-flash"),
            thinking: false,
            pseudo_thinking: false,
            thinking_language: owned("zh"),
            reasoning_effort: owned("high"),
            min_thinking_tokens: 0,
            self_consistency_samples: 1,
            max_retries: 5,
        }
    }
}

/// A move as the window shows it.
pub struct MoveDto {
    pub from: String,
    pub to: String,
    pub promotion: Option<String>,
}

/// The game as the window shows it.
pub struct GameStateDto {
    pub fen: String,
    pub visual: String,
    pub player_side: String,
    pub turn: String,
    pub move_history: Vec<String>,
    /// `playing`, `thinking`, `checkmate`, `stalemate` or `draw`.
    pub status: String,
    pub winner: Option<String>,
    pub last_move: Option<MoveDto>,
    pub legal_moves: Vec<String>,
    pub in_check: bool,
    pub ply: usize,
}

/// The answer to a move.
pub struct MoveResult {
    pub move_str: String,
    pub state: GameStateDto,
    pub game_over: bool,
}

/// What the window sends to start a game.
pub struct StartGameArgs {
    pub side: String,
    pub api_key: String,
    pub model: String,
    pub thinking: bool,
    pub pseudo_thinking: bool,
    pub thinking_language: String,
    pub reasoning_effort: String,
    pub min_thinking_tokens: u32,
    pub self_consistency_samples: u32,
}

/// The settings as the window shows them.
pub struct SettingsDto {
    pub api_key: String,
    pub model: String,
    pub thinking: bool,
    pub pseudo_thinking: bool,
    pub thinking_language: String,
    pub reasoning_effort: String,
    pub min_thinking_tokens: u32,
    pub self_consistency_samples: u32,
}

/// What the window receives at start-up.
pub struct LoadedState {
    pub game: Option<GameStateDto>,
    pub settings: SettingsDto,
}

/// A move shown as its squares and promotion letter.
pub open spec fn shows_move(d: MoveDto, mv: ChessMove) -> bool {
    &&& d.from@ == square_name(mv.source)
    &&& d.to@ == square_name(mv.dest)
    &&& match mv.promotion {
        Some(p) => d.promotion matches Some(s) && s@ == seq![piece_letter(p)],
        None => d.promotion is None,
    }
}

/// `d` shows `game` with the status text `status`: its FEN and drawing,
/// the player's side, the side to move, the moves played, the winner (the
/// side that did not move into checkmate), the last move, the legal moves,
/// check and the number of moves.
pub open spec fn shows_game(d: GameStateDto, game: ChessGame, status: Seq<char>) -> bool {
    let fen = game.board@;
    &&& d.fen@ == fen
    &&& d.visual@ == visual_of(fen)
    &&& d.player_side@ == color_name(game.player_side)
    &&& d.turn@ == color_name(side_of(fen))
    &&& string_views(d.move_history@) == coords_of(game.move_history@)
    &&& d.status@ == status
    &&& (if status_of(fen) == BoardStatus::Checkmate {
        d.winner matches Some(w) && w@ == color_name(opposite(side_of(fen)))
    } else {
        d.winner is None
    })
    &&& (if game.move_history@.len() == 0 {
        d.last_move is None
    } else {
        d.last_move matches Some(m) && shows_move(m, game.move_history@.last())
    })
    &&& string_views(d.legal_moves@) == legal_coords(fen)
    &&& d.in_check == in_check_of(fen)
    &&& d.ply == game.move_history@.len()
}

/// The window's view of a game, with the given status text.
pub fn game_to_dto(game: &ChessGame, status: &str) -> (r: GameStateDto)
    ensures
        shows_game(r, *game, status@),
{
    let winner = match game.status() {
        BoardStatus::Checkmate => Some(color_to_str(color_opposite(game.side_to_move()))),
        _ => None,
    };
    let n = game.move_history.len();
    let last_move = if n == 0 {
        None
    } else {
        let mv = game.move_history[n - 1];
        let from = square_to_str(mv.get_source());
        let to = square_to_str(mv.get_dest());
        let promotion = match mv.get_promotion() {
            Some(p) => {
                let c = [piece_to_char(p)];
                assert(c@ =~= seq![piece_letter(p)]);
                Some(string_of(&c))
            },
            None => None,
        };
        let d = MoveDto { from, to, promotion };
        assert(mv == game.move_history@.last());
        assert(shows_move(d, mv));
        Some(d)
    };
    let mut history: Vec<String> = Vec::new();
    let mut i: usize = 0;
    while i < n
        invariant
            i <= n,
            n == game.move_history@.len(),
            history@.len() == i,
            forall|k: int| 0 <= k < i ==> #[trigger] history@[k]@ == move_coord(game.move_history@[k]),
        decreases n - i,
    {
        history.push(move_to_coord(&game.move_history[i]));
        i = i + 1;
    }
    let legal = game.legal_moves_str();
    let r = GameStateDto {
        fen: game.to_fen(),
        visual: game.to_visual_string(),
        player_side: color_to_str(game.player_side),
        turn: color_to_str(game.side_to_move()),
        move_history: history,
        status: owned(status),
        winner,
        last_move,
        legal_moves: legal,
        in_check: game.in_check(),
        ply: game.ply_count(),
    };
    assert(string_views(r.move_history@) =~= coords_of(game.move_history@));
    assert(string_views(r.legal_moves@) =~= legal_coords(game.board@));
    r
}

} // verus!
