//! What the window's commands decide: starting and resetting games, the
//! person's moves and take-backs, the model's moves (reading replies,
//! retrying with failed moves left out, voting over several samples, the
//! last-resort move), the saved state and the settings.
//!
//! The commands themselves hold the shared state behind locks, talk to the
//! model and write files; they call these functions for every decision.

use vstd::prelude::*;
use crate::text::{
    append_chars, chars_of, concat_str, decimal, owned, same_text, string_of, string_views, trim,
    trim_str, u64_to_decimal,
};
use crate::chess_engine::{
    color_name, color_of_name, coord_move_of, coords_of, legal_moves_of,
    move_coord, move_to_coord, moved, parse_coord_move, rebuilt, start_fen, status_of,
    str_to_color, taken_back, texts, BoardStatus, ChessGame, ChessMove, Color,
};
use crate::deepseek::{effort_setting, DeepSeekClient};
use crate::game_state::{
    game_to_dto, shows_game, GameStateDto, LoadedState, MoveResult, Settings, SettingsDto,
};
use crate::move_parser::{parse_and_validate, validated, ParseError};
use crate::persistence::{SaveData, SettingsSave, CURRENT_VERSION};

verus! {

// ---------------------------------------------------------------------------
// Game status
// ---------------------------------------------------------------------------

/// The status text of a position: `playing`, `checkmate` or `stalemate`.
pub open spec fn status_name(s: BoardStatus) -> Seq<char> {
    match s {
        BoardStatus::Ongoing => "playing"@,
        BoardStatus::Checkmate => "checkmate"@,
        BoardStatus::Stalemate => "stalemate"@,
    }
}

/// The status text of the current position.
pub fn game_status_str(game: &ChessGame) -> (r: &'static str)
    ensures
        r@ == status_name(status_of(game.board@)),
{
    match game.status() {
        BoardStatus::Ongoing => "playing",
        BoardStatus::Checkmate => "checkmate",
        BoardStatus::Stalemate => "stalemate",
    }
}

/// Whether the game has ended (checkmate or stalemate).
pub fn is_game_over(game: &ChessGame) -> (r: bool)
    ensures
        r == (status_of(game.board@) != BoardStatus::Ongoing),
{
    match game.status() {
        BoardStatus::Ongoing => false,
        _ => true,
    }
}

// ---------------------------------------------------------------------------
// Settings
// ---------------------------------------------------------------------------

/// The prompt language kept: an empty one becomes `zh`.
pub open spec fn language_setting(l: Seq<char>) -> Seq<char> {
    if l.len() == 0 {
        "zh"@
    } else {
        l
    }
}

/// Whether the service's own reasoning is asked for: pseudo-reasoning turns
/// it off.
pub open spec fn api_thinking(thinking: bool, pseudo_thinking: bool) -> bool {
    thinking && !pseudo_thinking
}

fn language_or_default(l: String) -> (r: String)
    ensures
        r@ == language_setting(l@),
{
    if l.as_str().is_empty() {
        owned("zh")
    } else {
        l
    }
}

fn effort_or_default(e: &str) -> (r: String)
    ensures
        r@ == effort_setting(e@),
{
    if same_text(e, "max") {
        owned("max")
    } else {
        owned("high")
    }
}

/// Takes new settings (as the settings form and a new game give them): an
/// empty language becomes `zh`, an effort other than `max` becomes `high`;
/// the retry limit is kept.
pub fn apply_settings(
    settings: &mut Settings,
    api_key: String,
    model: String,
    thinking: bool,
    pseudo_thinking: bool,
    thinking_language: String,
    reasoning_effort: String,
    min_thinking_tokens: u32,
    self_consistency_samples: u32,
)
    ensures
        final(settings).api_key == api_key,
        final(settings).model == model,
        final(settings).thinking == thinking,
        final(settings).pseudo_thinking == pseudo_thinking,
        final(settings).thinking_language@ == language_setting(thinking_language@),
        final(settings).reasoning_effort@ == effort_setting(reasoning_effort@),
        final(settings).min_thinking_tokens == min_thinking_tokens,
        final(settings).self_consistency_samples == self_consistency_samples,
        final(settings).max_retries == old(settings).max_retries,
{
    settings.api_key = api_key;
    settings.model = model;
    settings.thinking = thinking;
    settings.pseudo_thinking = pseudo_thinking;
    settings.thinking_language = language_or_default(thinking_language);
    settings.reasoning_effort = effort_or_default(reasoning_effort.as_str());
    settings.min_thinking_tokens = min_thinking_tokens;
    settings.self_consistency_samples = self_consistency_samples;
}

/// The model client for the settings: the service's reasoning is off in
/// pseudo-reasoning mode.
pub fn client_for(settings: &Settings) -> (r: DeepSeekClient)
    ensures
        r.api_key == settings.api_key,
        r.model == settings.model,
        r.thinking == api_thinking(settings.thinking, settings.pseudo_thinking),
        r.reasoning_effort@ == effort_setting(settings.reasoning_effort@),
{
    let real_thinking = if settings.pseudo_thinking {
        false
    } else {
        settings.thinking
    };
    DeepSeekClient::new(
        settings.api_key.clone(),
        settings.model.clone(),
        real_thinking,
        settings.reasoning_effort.clone(),
    )
}

/// The settings as the window shows them.
pub fn settings_dto(settings: &Settings) -> (r: SettingsDto)
    ensures
        r.api_key == settings.api_key,
        r.model == settings.model,
        r.thinking == settings.thinking,
        r.pseudo_thinking == settings.pseudo_thinking,
        r.thinking_language == settings.thinking_language,
        r.reasoning_effort == settings.reasoning_effort,
        r.min_thinking_tokens == settings.min_thinking_tokens,
        r.self_consistency_samples == settings.self_consistency_samples,
{
    SettingsDto {
        api_key: settings.api_key.clone(),
        model: settings.model.clone(),
        thinking: settings.thinking,
        pseudo_thinking: settings.pseudo_thinking,
        thinking_language: settings.thinking_language.clone(),
        reasoning_effort: settings.reasoning_effort.clone(),
        min_thinking_tokens: settings.min_thinking_tokens,
        self_consistency_samples: settings.self_consistency_samples,
    }
}

/// What the window receives at start-up: the game (if any) with its status,
/// and the settings.
pub fn loaded_state(settings: &Settings, game: Option<&ChessGame>) -> (r: LoadedState)
    ensures
        match game {
            None => r.game is None,
            Some(g) => r.game matches Some(d) && shows_game(
                d,
                *g,
                status_name(status_of(g.board@)),
            ),
        },
        r.settings.api_key == settings.api_key,
        r.settings.model == settings.model,
        r.settings.thinking == settings.thinking,
        r.settings.pseudo_thinking == settings.pseudo_thinking,
        r.settings.thinking_language == settings.thinking_language,
        r.settings.reasoning_effort == settings.reasoning_effort,
        r.settings.min_thinking_tokens == settings.min_thinking_tokens,
        r.settings.self_consistency_samples == settings.self_consistency_samples,
{
    let s = settings_dto(settings);
    match game {
        None => LoadedState { game: None, settings: s },
        Some(g) => {
            let status = game_status_str(g);
            LoadedState { game: Some(game_to_dto(g, status)), settings: s }
        },
    }
}

/// Restores saved settings: an empty language becomes `zh`, an effort other
/// than `max` becomes `high`; the retry limit is kept.
pub fn restore_settings(settings: &mut Settings, save: &SettingsSave)
    ensures
        final(settings).api_key == save.api_key,
        final(settings).model == save.model,
        final(settings).thinking == save.thinking,
        final(settings).pseudo_thinking == save.pseudo_thinking,
        final(settings).thinking_language@ == language_setting(save.thinking_language@),
        final(settings).reasoning_effort@ == effort_setting(save.reasoning_effort@),
        final(settings).min_thinking_tokens == save.min_thinking_tokens,
        final(settings).self_consistency_samples == save.self_consistency_samples,
        final(settings).max_retries == old(settings).max_retries,
{
    apply_settings(
        settings,
        save.api_key.clone(),
        save.model.clone(),
        save.thinking,
        save.pseudo_thinking,
        save.thinking_language.clone(),
        save.reasoning_effort.clone(),
        save.min_thinking_tokens,
        save.self_consistency_samples,
    );
}

/// The model client of saved settings; none without a key.
pub fn restored_client(save: &SettingsSave) -> (r: Option<DeepSeekClient>)
    ensures
        save.api_key@.len() == 0 ==> r is None,
        save.api_key@.len() > 0 ==> (r matches Some(c) && c.api_key == save.api_key && c.model
            == save.model && c.thinking == api_thinking(save.thinking, save.pseudo_thinking)
            && c.reasoning_effort@ == effort_setting(save.reasoning_effort@)),
{
    if save.api_key.as_str().is_empty() {
        return None;
    }
    let effort = effort_or_default(save.reasoning_effort.as_str());
    let real_thinking = if save.pseudo_thinking {
        false
    } else {
        save.thinking
    };
    Some(DeepSeekClient::new(save.api_key.clone(), save.model.clone(), real_thinking, effort))
}

// ---------------------------------------------------------------------------
// New games
// ---------------------------------------------------------------------------

/// The players of a new game: the person on the chosen side, the model on
/// the other.
pub open spec fn players_for(side: Color) -> (Seq<char>, Seq<char>) {
    match side {
        Color::White => ("human"@, "deepseek"@),
        Color::Black => ("deepseek"@, "human"@),
    }
}

/// A new game for the side named (`white`/`w`, `black`/`b`, any case);
/// refused with `无效的执方` otherwise.
pub fn new_game_for(side: &str) -> (r: Result<ChessGame, String>)
    ensures
        match color_of_name(side@) {
            None => r matches Err(e) && e@ == "无效的执方"@,
            Some(c) => r matches Ok(g) && g.board@ == start_fen() && g.move_history@.len() == 0
                && g.board_history@.len() == 0 && g.player_side == c && g.white_player@
                == players_for(c).0 && g.black_player@ == players_for(c).1,
        },
{
    match str_to_color(side) {
        None => Err(owned("无效的执方")),
        Some(c) => {
            let (white, black) = match c {
                Color::White => (owned("human"), owned("deepseek")),
                Color::Black => (owned("deepseek"), owned("human")),
            };
            Ok(ChessGame::new(c, white, black))
        },
    }
}

/// The outcome of restoring the saved game.
pub enum RestoredGame {
    /// The save holds no game.
    NoGame,
    Game(ChessGame),
    /// Replaying the saved moves was refused.
    Failed(String),
}

/// Restores the saved game by replaying its moves from the start, with the
/// saved side (white unless it reads as a colour) and players.
pub fn restore_game(save: SaveData) -> (r: RestoredGame)
    ensures
        !save.has_game ==> r is NoGame,
        save.has_game ==> {
            let side = match color_of_name(save.player_side@) {
                Some(c) => c,
                None => Color::White,
            };
            ||| r matches RestoredGame::Game(g) && rebuilt(
                side,
                save.white_player,
                save.black_player,
                texts(save.move_history@),
                Ok(g),
            )
            ||| r matches RestoredGame::Failed(m) && rebuilt(
                side,
                save.white_player,
                save.black_player,
                texts(save.move_history@),
                Err(m),
            )
        },
{
    if !save.has_game {
        return RestoredGame::NoGame;
    }
    let side = match str_to_color(save.player_side.as_str()) {
        Some(c) => c,
        None => Color::White,
    };
    match ChessGame::rebuild_from_history(
        side,
        save.white_player,
        save.black_player,
        save.move_history,
    ) {
        Ok(g) => RestoredGame::Game(g),
        Err(m) => RestoredGame::Failed(m),
    }
}

// ---------------------------------------------------------------------------
// Moves
// ---------------------------------------------------------------------------

/// `mv` was played in `old`, giving `new`, and `res` reports it: the move's
/// notation, the new game with its status, and whether the game is over.
pub open spec fn played(old: ChessGame, mv: ChessMove, new: ChessGame, res: MoveResult) -> bool {
    &&& moved(old, mv, new)
    &&& res.move_str@ == move_coord(mv)
    &&& shows_game(res.state, new, status_name(status_of(new.board@)))
    &&& res.game_over == (status_of(new.board@) != BoardStatus::Ongoing)
}

/// Plays a chosen move and reports it; refused with `非法走法` (the game
/// unchanged) when it is not legal.
pub fn play_chosen_move(game: &mut ChessGame, mv: ChessMove) -> (r: Result<MoveResult, String>)
    ensures
        legal_moves_of(old(game).board@).contains(mv) ==> (r matches Ok(res) && played(
            *old(game),
            mv,
            *final(game),
            res,
        )),
        !legal_moves_of(old(game).board@).contains(mv) ==> (r matches Err(e) && e@ == "非法走法"@
            && *final(game) == *old(game)),
{
    let coord = move_to_coord(&mv);
    match game.make_move(mv) {
        Err(e) => Err(e),
        Ok(()) => {
            let status = game_status_str(game);
            let game_over = is_game_over(game);
            let dto = game_to_dto(game, status);
            Ok(MoveResult { move_str: coord, state: dto, game_over })
        },
    }
}

/// The person's move, in coordinate notation: refused with `走法格式错误`
/// when it is not notation, with `非法走法` when it is not legal (the game
/// unchanged either way).
pub fn player_move_step(game: &mut ChessGame, move_str: &str) -> (r: Result<MoveResult, String>)
    ensures
        match coord_move_of(move_str@) {
            None => r matches Err(e) && e@ == "走法格式错误"@ && *final(game) == *old(game),
            Some(mv) => if legal_moves_of(old(game).board@).contains(mv) {
                r matches Ok(res) && played(*old(game), mv, *final(game), res)
            } else {
                r matches Err(e) && e@ == "非法走法"@ && *final(game) == *old(game)
            },
        },
{
    let mv = match parse_coord_move(move_str) {
        Some(m) => m,
        None => {
            return Err(owned("走法格式错误"));
        },
    };
    if !game.is_legal(&mv) {
        return Err(owned("非法走法"));
    }
    play_chosen_move(game, mv)
}

/// Takes back the last move and shows the game; refused with
/// `没有可撤销的走法` (the game unchanged) when there is none.
pub fn undo_step(game: &mut ChessGame) -> (r: Result<GameStateDto, String>)
    ensures
        old(game).board_history@.len() == 0 ==> (r matches Err(e) && e@ == "没有可撤销的走法"@
            && *final(game) == *old(game)),
        old(game).board_history@.len() > 0 ==> (r matches Ok(d) && taken_back(
            *old(game),
            *final(game),
        ) && shows_game(d, *final(game), status_name(status_of(final(game).board@)))),
{
    if !game.undo() {
        return Err(owned("没有可撤销的走法"));
    }
    let status = game_status_str(game);
    Ok(game_to_dto(game, status))
}

// ---------------------------------------------------------------------------
// The model's moves
// ---------------------------------------------------------------------------

/// The reply text a move is read from: the content, unless it is blank, then
/// the reasoning.
pub open spec fn reply_text(content: Seq<char>, reasoning: Seq<char>) -> Seq<char> {
    if trim(content).len() > 0 {
        content
    } else {
        reasoning
    }
}

/// Reads the model's move from a reply (the content, or the reasoning when
/// the content is blank) and checks it against the game.
pub fn parse_reply(content: &str, reasoning: &str, game: &ChessGame) -> (r: Result<
    ChessMove,
    ParseError,
>)
    ensures
        validated(reply_text(content@, reasoning@), game.board@, r),
{
    let t = trim_str(content);
    if !t.as_str().is_empty() {
        parse_and_validate(content, game)
    } else {
        parse_and_validate(reasoning, game)
    }
}

/// Retrying after unusable replies: each illegal move is remembered and
/// left out of the next prompt's legal list; the last error is kept for the
/// final message.
pub struct RetryLoop {
    pub attempt: u32,
    pub max_retries: u32,
    pub failed_moves: Vec<String>,
    pub last_error: String,
}

/// The failed moves after a failed reply: the move text of an illegal move
/// is added.
pub open spec fn failed_after(failed: Seq<Seq<char>>, err: ParseError) -> Seq<Seq<char>> {
    match err {
        ParseError::IllegalMove(bad, _) => failed.push(bad@),
        ParseError::InvalidFormat(_) => failed,
    }
}

/// The error text of a failed reply.
pub open spec fn error_text(err: ParseError) -> Seq<char> {
    match err {
        ParseError::IllegalMove(bad, _) => "非法走法 "@ + bad@,
        ParseError::InvalidFormat(s) => "无法解析: "@ + s@,
    }
}

impl RetryLoop {
    /// A retry loop with no attempt made yet.
    pub fn new(max_retries: u32, initial_failed: Vec<String>) -> (r: RetryLoop)
        ensures
            r.attempt == 0,
            r.max_retries == max_retries,
            r.failed_moves == initial_failed,
            r.last_error@ == Seq::<char>::empty(),
    {
        RetryLoop { attempt: 0, max_retries, failed_moves: initial_failed, last_error: String::new() }
    }

    /// The retry loop after the first of several samples failed: an illegal
    /// move of that sample is already left out.
    pub fn after_first_sample(max_retries: u32, first: ParseError) -> (r: RetryLoop)
        ensures
            r.attempt == 0,
            r.max_retries == max_retries,
            string_views(r.failed_moves@) == failed_after(seq![], first),
            r.last_error@ == Seq::<char>::empty(),
    {
        let mut failed: Vec<String> = Vec::new();
        match first {
            ParseError::IllegalMove(bad, _) => {
                failed.push(bad);
            },
            ParseError::InvalidFormat(_) => {},
        }
        let r = RetryLoop::new(max_retries, failed);
        assert(string_views(r.failed_moves@) =~= failed_after(seq![], first));
        r
    }

    /// Whether another request may be made.
    pub fn wants_attempt(&self) -> (r: bool)
        ensures
            r == (self.attempt < self.max_retries),
    {
        self.attempt < self.max_retries
    }

    /// Whether the window's reasoning and pick are cleared before the next
    /// request: on every retry, and when earlier samples already failed.
    pub fn resets_display(&self) -> (r: bool)
        ensures
            r == (self.attempt > 0 || self.failed_moves@.len() > 0),
    {
        self.attempt > 0 || self.failed_moves.len() > 0
    }

    /// Records a failed reply.
    pub fn record_failure(&mut self, err: ParseError)
        requires
            old(self).attempt < old(self).max_retries,
        ensures
            final(self).attempt == old(self).attempt + 1,
            final(self).max_retries == old(self).max_retries,
            string_views(final(self).failed_moves@) == failed_after(
                string_views(old(self).failed_moves@),
                err,
            ),
            final(self).last_error@ == error_text(err),
    {
        let ghost before = string_views(self.failed_moves@);
        let ghost e = err;
        match err {
            ParseError::IllegalMove(bad, _) => {
                self.last_error = concat_str("非法走法 ", bad.as_str());
                self.failed_moves.push(bad);
            },
            ParseError::InvalidFormat(s) => {
                self.last_error = concat_str("无法解析: ", s.as_str());
            },
        }
        assert(string_views(self.failed_moves@) =~= failed_after(before, e));
        self.attempt = self.attempt + 1;
    }

    /// The error given when no reply was usable and no move is legal.
    pub fn give_up_message(&self) -> (r: String)
        ensures
            r@ == "DeepSeek 连续 "@ + decimal(self.max_retries as nat) + " 次返回非法走法且无合法走法: "@
                + self.last_error@,
    {
        let mut v = chars_of("DeepSeek 连续 ");
        let n = u64_to_decimal(self.max_retries as u64);
        append_chars(&mut v, n.as_slice());
        let mid = chars_of(" 次返回非法走法且无合法走法: ");
        append_chars(&mut v, mid.as_slice());
        let tail = chars_of(self.last_error.as_str());
        append_chars(&mut v, tail.as_slice());
        string_of(v.as_slice())
    }
}

/// The last-resort move when no reply was usable: the first legal move.
pub fn fallback_move(game: &ChessGame) -> (r: Option<ChessMove>)
    ensures
        legal_moves_of(game.board@).len() == 0 ==> r is None,
        legal_moves_of(game.board@).len() > 0 ==> r == Some(legal_moves_of(game.board@)[0]),
{
    let legal = game.legal_moves();
    if legal.len() == 0 {
        None
    } else {
        Some(legal[0])
    }
}

/// The notes kept for the next move: the new ones, unless they are empty.
pub fn next_notes(current: String, new_notes: String) -> (r: String)
    ensures
        r@ == (if new_notes@.len() > 0 {
            new_notes@
        } else {
            current@
        }),
{
    if new_notes.as_str().is_empty() {
        current
    } else {
        new_notes
    }
}

/// The number of samples drawn per move: at least one.
pub fn sample_count(settings: &Settings) -> (r: u32)
    ensures
        r == (if settings.self_consistency_samples > 1 {
            settings.self_consistency_samples
        } else {
            1
        }),
{
    if settings.self_consistency_samples > 1 {
        settings.self_consistency_samples
    } else {
        1
    }
}

/// The move a text names when it is coordinate notation for a legal move.
pub open spec fn legal_choice(w: Seq<char>, fen: Seq<char>) -> Option<ChessMove> {
    match coord_move_of(w) {
        Some(mv) => if legal_moves_of(fen).contains(mv) {
            Some(mv)
        } else {
            None
        },
        None => None,
    }
}

/// The voted move, when it is coordinate notation for a legal move.
pub fn legal_vote(best: &str, game: &ChessGame) -> (r: Option<ChessMove>)
    ensures
        r == legal_choice(best@, game.board@),
{
    match parse_coord_move(best) {
        Some(mv) => {
            if game.is_legal(&mv) {
                Some(mv)
            } else {
                None
            }
        },
        None => None,
    }
}

// ---------------------------------------------------------------------------
// Voting over samples
// ---------------------------------------------------------------------------

/// How many samples chose `m`.
pub open spec fn vote_count(samples: Seq<(String, i32)>, m: Seq<char>) -> nat
    decreases samples.len(),
{
    if samples.len() == 0 {
        0
    } else {
        vote_count(samples.drop_last(), m) + if samples.last().0@ == m {
            1nat
        } else {
            0nat
        }
    }
}

/// The sum of the scores of the samples that chose `m`.
pub open spec fn vote_sum(samples: Seq<(String, i32)>, m: Seq<char>) -> int
    decreases samples.len(),
{
    if samples.len() == 0 {
        0
    } else {
        vote_sum(samples.drop_last(), m) + if samples.last().0@ == m {
            samples.last().1 as int
        } else {
            0
        }
    }
}

/// Integer division rounding toward zero, as Rust's `/` does.
pub open spec fn div_toward_zero(a: int, b: int) -> int {
    if a >= 0 {
        a / b
    } else {
        -((-a) / b)
    }
}

/// The vote of a move: 100 per sample that chose it, plus the average score
/// of those samples (rounded toward zero).
pub open spec fn vote_score(samples: Seq<(String, i32)>, m: Seq<char>) -> int {
    vote_count(samples, m) * 100 + div_toward_zero(
        vote_sum(samples, m),
        vote_count(samples, m) as int,
    )
}

/// `w`, chosen by sample `i`, wins the vote: no move has a higher vote,
/// and every move sampled before `i` has a lower one.
pub open spec fn winner_at(samples: Seq<(String, i32)>, w: Seq<char>, i: int) -> bool {
    &&& 0 <= i < samples.len()
    &&& samples[i].0@ == w
    &&& w.len() > 0
    &&& forall|j: int|
        0 <= j < samples.len() && samples[j].0@.len() > 0 ==> vote_score(samples, #[trigger] samples[j].0@)
            <= vote_score(samples, w)
    &&& forall|j: int|
        0 <= j < i && samples[j].0@.len() > 0 ==> vote_score(samples, #[trigger] samples[j].0@)
            < vote_score(samples, w)
}

/// `w` wins the vote over the samples (the first-sampled of the moves with
/// the highest vote).
pub open spec fn is_vote_winner(samples: Seq<(String, i32)>, w: Seq<char>) -> bool {
    exists|i: int| #[trigger] winner_at(samples, w, i)
}

proof fn lemma_vote_bounds(samples: Seq<(String, i32)>, m: Seq<char>)
    ensures
        vote_count(samples, m) <= samples.len(),
        -2147483648 * vote_count(samples, m) <= vote_sum(samples, m) <= 2147483647 * vote_count(
            samples,
            m,
        ),
    decreases samples.len(),
{
    if samples.len() > 0 {
        lemma_vote_bounds(samples.drop_last(), m);
    }
}

proof fn lemma_vote_positive(samples: Seq<(String, i32)>, i: int)
    requires
        0 <= i < samples.len(),
    ensures
        vote_count(samples, samples[i].0@) >= 1,
    decreases samples.len(),
{
    if i < samples.len() - 1 {
        lemma_vote_positive(samples.drop_last(), i);
    }
}

/// Counts and sums the votes for `m`.
fn tally(samples: &[(String, i32)], m: &str) -> (r: (u32, i64))
    requires
        samples@.len() <= u32::MAX,
    ensures
        r.0 == vote_count(samples@, m@),
        r.1 == vote_sum(samples@, m@),
{
    let mut count: u32 = 0;
    let mut sum: i64 = 0;
    let mut i: usize = 0;
    while i < samples.len()
        invariant
            i <= samples@.len(),
            samples@.len() <= u32::MAX,
            count == vote_count(samples@.subrange(0, i as int), m@),
            sum == vote_sum(samples@.subrange(0, i as int), m@),
        decreases samples.len() - i,
    {
        let ghost sub = samples@.subrange(0, i + 1);
        assert(sub.drop_last() =~= samples@.subrange(0, i as int));
        proof {
            lemma_vote_bounds(samples@.subrange(0, i as int), m@);
        }
        if same_text(samples[i].0.as_str(), m) {
            count = count + 1;
            sum = sum + samples[i].1 as i64;
        }
        i = i + 1;
    }
    assert(samples@.subrange(0, samples@.len() as int) =~= samples@);
    (count, sum)
}

/// Self-consistency voting over sampled `(move, score)` pairs (empty moves
/// do not vote): the move with the highest vote (see `vote_score`); among
/// equal votes, the one sampled first. `None` when no sample has a move.
pub fn vote_best_move(samples: &[(String, i32)]) -> (r: Option<String>)
    requires
        samples@.len() <= u32::MAX,
    ensures
        r is None <==> (forall|i: int| 0 <= i < samples@.len() ==> samples@[i].0@.len() == 0),
        r matches Some(w) ==> is_vote_winner(samples@, w@),
{
    let mut best: Option<String> = None;
    let mut best_score: i64 = 0;
    let mut best_index: usize = 0;
    let mut i: usize = 0;
    while i < samples.len()
        invariant
            i <= samples@.len(),
            samples@.len() <= u32::MAX,
            best is None <==> (forall|k: int| 0 <= k < i ==> samples@[k].0@.len() == 0),
            best matches Some(w) ==> best_index < i && samples@[best_index as int].0@ == w@
                && w@.len() > 0 && best_score == vote_score(samples@, w@) && (forall|j: int|
                0 <= j < i && samples@[j].0@.len() > 0 ==> vote_score(samples@, samples@[j].0@)
                    <= best_score) && (forall|j: int|
                0 <= j < best_index && samples@[j].0@.len() > 0 ==> vote_score(
                    samples@,
                    samples@[j].0@,
                ) < best_score),
        decreases samples.len() - i,
    {
        let m = samples[i].0.as_str();
        if !m.is_empty() {
            let (count, sum) = tally(samples, m);
            proof {
                lemma_vote_positive(samples@, i as int);
                lemma_vote_bounds(samples@, m@);
            }
            let c = count as i64;
            assert(c >= 1);
            let avg: i64 = if sum >= 0 {
                assert(sum / c <= 2147483647) by (nonlinear_arith)
                    requires
                        0 <= sum <= 2147483647 * c,
                        c >= 1,
                ;
                sum / c
            } else {
                let neg: i64 = -sum;
                assert(neg / c <= 2147483648) by (nonlinear_arith)
                    requires
                        0 < neg <= 2147483648 * c,
                        c >= 1,
                ;
                -(neg / c)
            };
            let score: i64 = c * 100 + avg;
            let better = match best {
                Some(_) => score > best_score,
                None => true,
            };
            if better {
                best = Some(samples[i].0.clone());
                best_score = score;
                best_index = i;
            }
        }
        i = i + 1;
    }
    assert(best matches Some(w) ==> winner_at(samples@, w@, best_index as int));
    best
}

/// Only one move wins a vote.
proof fn lemma_vote_winner_unique(samples: Seq<(String, i32)>, a: Seq<char>, b: Seq<char>)
    requires
        is_vote_winner(samples, a),
        is_vote_winner(samples, b),
    ensures
        a == b,
{
    let i = choose|i: int| winner_at(samples, a, i);
    let k = choose|k: int| winner_at(samples, b, k);
    if i < k {
        assert(vote_score(samples, samples[i].0@) < vote_score(samples, b));
        assert(vote_score(samples, samples[k].0@) <= vote_score(samples, a));
    } else if k < i {
        assert(vote_score(samples, samples[k].0@) < vote_score(samples, a));
        assert(vote_score(samples, samples[i].0@) <= vote_score(samples, b));
    }
}

/// No move that wins the vote is coordinate notation for a legal move.
pub open spec fn no_legal_winner(samples: Seq<(String, i32)>, fen: Seq<char>) -> bool {
    forall|w: Seq<char>| #[trigger] is_vote_winner(samples, w) ==> legal_choice(w, fen) is None
}

/// What is played after several samples of a move were drawn.
pub enum SampleChoice {
    /// The vote winner, a legal move, with its text (shown as the pick).
    Voted(ChessMove, String),
    /// No legal vote winner; the first sample's reply names a legal move.
    FirstReply(ChessMove),
    /// Neither: the first reply's failure, which the retries start from.
    Retry(ParseError),
}

/// After several samples: the vote winner is played when it is a legal
/// move; otherwise the move the first sample's reply names, when it is
/// legal; otherwise the retries begin with that reply's failure.
pub fn choose_sampled_move(
    samples: &[(String, i32)],
    content: &str,
    reasoning: &str,
    game: &ChessGame,
) -> (r: SampleChoice)
    requires
        samples@.len() <= u32::MAX,
    ensures
        match r {
            SampleChoice::Voted(mv, w) => is_vote_winner(samples@, w@) && legal_choice(
                w@,
                game.board@,
            ) == Some(mv),
            SampleChoice::FirstReply(mv) => no_legal_winner(samples@, game.board@) && validated(
                reply_text(content@, reasoning@),
                game.board@,
                Ok(mv),
            ),
            SampleChoice::Retry(e) => no_legal_winner(samples@, game.board@) && validated(
                reply_text(content@, reasoning@),
                game.board@,
                Err(e),
            ),
        },
{
    match vote_best_move(samples) {
        Some(w) => {
            match legal_vote(w.as_str(), game) {
                Some(mv) => {
                    return SampleChoice::Voted(mv, w);
                },
                None => {
                    proof {
                        assert forall|x: Seq<char>| #[trigger]
                            is_vote_winner(samples@, x) implies legal_choice(
                            x,
                            game.board@,
                        ) is None by {
                            lemma_vote_winner_unique(samples@, x, w@);
                        }
                    }
                },
            }
        },
        None => {
            proof {
                assert forall|x: Seq<char>| #[trigger]
                    is_vote_winner(samples@, x) implies legal_choice(x, game.board@) is None by {
                    let i = choose|i: int| winner_at(samples@, x, i);
                    assert(samples@[i].0@.len() == 0);
                }
            }
        },
    }
    match parse_reply(content, reasoning, game) {
        Ok(mv) => SampleChoice::FirstReply(mv),
        Err(e) => SampleChoice::Retry(e),
    }
}

// ---------------------------------------------------------------------------
// The saved state
// ---------------------------------------------------------------------------

/// The state to save: the settings, the notes, and the game (as the moves
/// played, with its side, players and status text) if there is one.
pub fn build_save_data(settings: &Settings, last_notes: &str, game: Option<&ChessGame>, status: &str) -> (r:
    SaveData)
    ensures
        r.version == CURRENT_VERSION,
        r.settings.api_key == settings.api_key,
        r.settings.model == settings.model,
        r.settings.thinking == settings.thinking,
        r.settings.pseudo_thinking == settings.pseudo_thinking,
        r.settings.thinking_language == settings.thinking_language,
        r.settings.reasoning_effort == settings.reasoning_effort,
        r.settings.min_thinking_tokens == settings.min_thinking_tokens,
        r.settings.self_consistency_samples == settings.self_consistency_samples,
        r.last_notes@ == last_notes@,
        match game {
            Some(g) => r.has_game && r.player_side@ == color_name(g.player_side) && r.fen@
                == g.board@ && string_views(r.move_history@) == coords_of(g.move_history@)
                && r.status@ == status@ && r.white_player == g.white_player && r.black_player
                == g.black_player,
            None => !r.has_game && r.player_side@ == "white"@ && r.fen@.len() == 0
                && r.move_history@.len() == 0 && r.status@.len() == 0 && r.white_player@
                == "human"@ && r.black_player@ == "deepseek"@,
        },
{
    let settings_save = SettingsSave {
        api_key: settings.api_key.clone(),
        model: settings.model.clone(),
        thinking: settings.thinking,
        pseudo_thinking: settings.pseudo_thinking,
        thinking_language: settings.thinking_language.clone(),
        reasoning_effort: settings.reasoning_effort.clone(),
        min_thinking_tokens: settings.min_thinking_tokens,
        self_consistency_samples: settings.self_consistency_samples,
    };
    match game {
        Some(g) => {
            let n = g.move_history.len();
            let mut history: Vec<String> = Vec::new();
            let mut i: usize = 0;
            while i < n
                invariant
                    i <= n,
                    n == g.move_history@.len(),
                    history@.len() == i,
                    forall|k: int|
                        0 <= k < i ==> #[trigger] history@[k]@ == move_coord(g.move_history@[k]),
                decreases n - i,
            {
                history.push(move_to_coord(&g.move_history[i]));
                i = i + 1;
            }
            assert(string_views(history@) =~= coords_of(g.move_history@));
            SaveData {
                version: CURRENT_VERSION,
                has_game: true,
                player_side: crate::chess_engine::color_to_str(g.player_side),
                fen: g.to_fen(),
                move_history: history,
                status: owned(status),
                settings: settings_save,
                last_notes: owned(last_notes),
                white_player: g.white_player.clone(),
                black_player: g.black_player.clone(),
            }
        },
        None => SaveData {
            version: CURRENT_VERSION,
            has_game: false,
            player_side: owned("white"),
            fen: String::new(),
            move_history: Vec::new(),
            status: String::new(),
            settings: settings_save,
            last_notes: owned(last_notes),
            white_player: owned("human"),
            black_player: owned("deepseek"),
        },
    }
}

/// Votes count first, then scores: every move that a sample chose has at
/// most the winner's vote, where a move's vote is 100 per sample that chose
/// it plus the mean score of those samples, rounded toward zero. So of two
/// moves chosen equally often, the one with the higher mean score is never
/// beaten by the other.
pub proof fn law_vote_counts_then_average(samples: Seq<(String, i32)>, w: Seq<char>, j: int)
    requires
        is_vote_winner(samples, w),
        0 <= j < samples.len(),
        samples[j].0@.len() > 0,
    ensures
        vote_count(samples, samples[j].0@) * 100 + div_toward_zero(
            vote_sum(samples, samples[j].0@),
            vote_count(samples, samples[j].0@) as int,
        ) <= vote_count(samples, w) * 100 + div_toward_zero(
            vote_sum(samples, w),
            vote_count(samples, w) as int,
        ),
{
    let i = choose|i: int| winner_at(samples, w, i);
    assert(vote_score(samples, samples[j].0@) <= vote_score(samples, w));
}

} // verus!
