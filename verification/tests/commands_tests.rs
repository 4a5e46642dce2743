use deepseek_chess::chess_engine::{parse_coord_move, BoardStatus, Color};
use deepseek_chess::commands::{
    apply_settings, build_save_data, choose_sampled_move, client_for, fallback_move, game_status_str, is_game_over,
    legal_vote, loaded_state, new_game_for, next_notes, parse_reply, player_move_step,
    restore_game, restore_settings, restored_client, sample_count, undo_step, vote_best_move,
    RestoredGame, RetryLoop, SampleChoice,
};
use deepseek_chess::game_state::Settings;
use deepseek_chess::move_parser::ParseError;
use deepseek_chess::persistence::{migrate_players, stamp_version, CURRENT_VERSION};

#[test]
fn voting_counts_then_average() {
    let samples = vec![
        ("e2e4".to_string(), 1),
        ("d2d4".to_string(), 9),
        ("e2e4".to_string(), 3),
        ("".to_string(), 50),
    ];
    // e2e4: 2 votes, average 2 -> 202; d2d4: 1 vote, 9 -> 109.
    assert_eq!(vote_best_move(&samples), Some("e2e4".to_string()));
    let tie = vec![("g1f3".to_string(), 2), ("b1c3".to_string(), 2)];
    assert_eq!(vote_best_move(&tie), Some("g1f3".to_string()));
    let negative = vec![("a2a3".to_string(), -3), ("a2a3".to_string(), -2), ("h2h3".to_string(), 90)];
    // a2a3: 200 + (-5 / 2 = -2) = 198; h2h3: 100 + 90 = 190.
    assert_eq!(vote_best_move(&negative), Some("a2a3".to_string()));
    assert_eq!(vote_best_move(&[("".to_string(), 1)]), None);
    assert_eq!(vote_best_move(&[]), None);
}

#[test]
fn settings_are_normalised() {
    let mut s = Settings::default();
    assert_eq!(s.model, "deepseek-v4-flash");
    assert_eq!(s.max_retries, 5);
    apply_settings(&mut s, "key".to_string(), "m".to_string(), true, true, "".to_string(), "low".to_string(), 10, 3);
    assert_eq!(s.thinking_language, "zh");
    assert_eq!(s.reasoning_effort, "high");
    assert_eq!(s.max_retries, 5);
    let c = client_for(&s);
    assert!(!c.thinking, "pseudo-reasoning turns the service's reasoning off");
    assert_eq!(sample_count(&s), 3);
    s.self_consistency_samples = 0;
    assert_eq!(sample_count(&s), 1);
}

#[test]
fn new_games_and_moves() {
    assert_eq!(new_game_for("purple").err(), Some("无效的执方".to_string()));
    let mut game = new_game_for("Black").unwrap();
    assert_eq!(game.player_side, Color::Black);
    assert_eq!(game.white_player, "deepseek");
    assert_eq!(game.black_player, "human");
    assert_eq!(player_move_step(&mut game, "zz").err(), Some("走法格式错误".to_string()));
    assert_eq!(player_move_step(&mut game, "e2e5").err(), Some("非法走法".to_string()));
    let res = player_move_step(&mut game, "e2e4").unwrap();
    assert_eq!(res.move_str, "e2e4");
    assert!(!res.game_over);
    assert_eq!(res.state.status, "playing");
    assert_eq!(res.state.turn, "black");
    assert_eq!(res.state.ply, 1);
    assert_eq!(res.state.move_history, vec!["e2e4".to_string()]);
    assert_eq!(res.state.last_move.as_ref().unwrap().from, "e2");
    let back = undo_step(&mut game).unwrap();
    assert_eq!(back.ply, 0);
    assert!(back.last_move.is_none());
    assert_eq!(undo_step(&mut game).err(), Some("没有可撤销的走法".to_string()));
}

#[test]
fn checkmate_report() {
    let mut game = new_game_for("white").unwrap();
    for m in ["f2f3", "e7e5", "g2g4"] {
        player_move_step(&mut game, m).unwrap();
    }
    let res = player_move_step(&mut game, "d8h4").unwrap();
    assert!(res.game_over);
    assert_eq!(res.state.status, "checkmate");
    assert_eq!(res.state.winner, Some("black".to_string()));
    assert!(res.state.in_check);
    assert_eq!(game_status_str(&game), "checkmate");
    assert!(is_game_over(&game));
    assert_eq!(game.status(), BoardStatus::Checkmate);
    assert_eq!(fallback_move(&game), None);
}

#[test]
fn reading_replies() {
    let game = new_game_for("white").unwrap();
    match parse_reply("  ", "<move>g1f3</move>", &game) {
        Ok(mv) => assert_eq!(deepseek_chess::chess_engine::move_to_coord(&mv), "g1f3"),
        _ => panic!("the reasoning names a legal move"),
    }
    match parse_reply("<move>g1f3</move>", "<move>e2e4</move>", &game) {
        Ok(mv) => assert_eq!(deepseek_chess::chess_engine::move_to_coord(&mv), "g1f3"),
        _ => panic!("the content names a legal move"),
    }
    match parse_reply("<move>aé1x</move>", "", &game) {
        Err(ParseError::InvalidFormat(s)) => assert_eq!(s, "aé1x"),
        _ => panic!("a cut inside a character is not notation"),
    }
    assert_eq!(legal_vote("e2e4", &game), parse_coord_move("e2e4"));
    assert_eq!(legal_vote("e2e5", &game), None);
    let first = fallback_move(&game).unwrap();
    assert_eq!(deepseek_chess::chess_engine::move_to_coord(&first), game.legal_moves_str()[0]);
}

#[test]
fn retry_loop() {
    let mut r = RetryLoop::new(2, Vec::new());
    assert!(r.wants_attempt());
    assert!(!r.resets_display());
    r.record_failure(ParseError::IllegalMove("e2e5".to_string(), Vec::new()));
    assert_eq!(r.failed_moves, vec!["e2e5".to_string()]);
    assert_eq!(r.last_error, "非法走法 e2e5");
    assert!(r.resets_display());
    r.record_failure(ParseError::InvalidFormat("??".to_string()));
    assert_eq!(r.last_error, "无法解析: ??");
    assert!(!r.wants_attempt());
    assert_eq!(r.give_up_message(), "DeepSeek 连续 2 次返回非法走法且无合法走法: 无法解析: ??");
    let after = RetryLoop::after_first_sample(5, ParseError::IllegalMove("a2a5".to_string(), Vec::new()));
    assert_eq!(after.failed_moves, vec!["a2a5".to_string()]);
    assert!(after.resets_display());
    let after2 = RetryLoop::after_first_sample(5, ParseError::InvalidFormat("x".to_string()));
    assert!(after2.failed_moves.is_empty());
    assert_eq!(next_notes("old".to_string(), "".to_string()), "old");
    assert_eq!(next_notes("old".to_string(), "new".to_string()), "new");
}

#[test]
fn saving_and_restoring() {
    let mut settings = Settings::default();
    settings.api_key = "k".to_string();
    let mut game = new_game_for("black").unwrap();
    player_move_step(&mut game, "d2d4").unwrap();
    let save = build_save_data(&settings, "notes", Some(&game), "playing");
    assert_eq!(save.version, CURRENT_VERSION);
    assert!(save.has_game);
    assert_eq!(save.player_side, "black");
    assert_eq!(save.move_history, vec!["d2d4".to_string()]);
    assert_eq!(save.white_player, "deepseek");
    let mut restored_settings = Settings::default();
    restore_settings(&mut restored_settings, &save.settings);
    assert_eq!(restored_settings.api_key, "k");
    assert!(restored_client(&save.settings).is_some());
    match restore_game(stamp_version(save)) {
        RestoredGame::Game(g) => {
            assert_eq!(g.to_fen(), game.to_fen());
            assert_eq!(g.player_side, Color::Black);
            assert_eq!(g.ply_count(), 1);
        }
        _ => panic!("the saved game is restored"),
    }
    let empty = build_save_data(&settings, "", None, "playing");
    assert!(!empty.has_game);
    assert_eq!(empty.player_side, "white");
    assert!(matches!(restore_game(empty), RestoredGame::NoGame));
    let none_client = Settings::default();
    let blank = build_save_data(&none_client, "", None, "");
    assert!(restored_client(&blank.settings).is_none());
}

#[test]
fn old_saves_get_players() {
    let settings = Settings::default();
    let game = new_game_for("white").unwrap();
    let mut save = build_save_data(&settings, "", Some(&game), "playing");
    save.player_side = "black".to_string();
    save.white_player = String::new();
    save.black_player = String::new();
    let m = migrate_players(save);
    assert_eq!(m.white_player, "deepseek");
    assert_eq!(m.black_player, "human");
    let mut save2 = build_save_data(&settings, "", Some(&game), "playing");
    save2.black_player = String::new();
    let m2 = migrate_players(save2);
    assert_eq!(m2.white_player, "human");
    assert_eq!(m2.black_player, "deepseek");
    let mut save3 = build_save_data(&settings, "", Some(&game), "playing");
    save3.player_side = "black".to_string();
    save3.white_player = deepseek_chess::persistence::default_white_player();
    save3.black_player = deepseek_chess::persistence::default_black_player();
    let m3 = migrate_players(save3);
    assert_eq!(m3.white_player, "deepseek");
    assert_eq!(m3.black_player, "human");
}

#[test]
fn start_up_state() {
    let settings = Settings::default();
    let none = loaded_state(&settings, None);
    assert!(none.game.is_none());
    assert_eq!(none.settings.thinking_language, "zh");
    let game = new_game_for("white").unwrap();
    let some = loaded_state(&settings, Some(&game));
    assert_eq!(some.game.unwrap().status, "playing");
}

#[test]
fn settings_default_has_reasoning_off() {
    let s = Settings::default();
    assert!(!s.thinking);
    assert!(!s.pseudo_thinking);
    assert_eq!(s.api_key, "");
    assert_eq!(s.thinking_language, "zh");
    assert_eq!(s.reasoning_effort, "high");
    assert_eq!(s.min_thinking_tokens, 0);
    assert_eq!(s.self_consistency_samples, 1);
}

#[test]
fn sampled_move_prefers_the_vote_winner() {
    let game = new_game_for("white").unwrap();
    // The first reply names e2e4, but the vote goes to d2d4.
    let samples = vec![
        ("e2e4".to_string(), 0),
        ("d2d4".to_string(), 5),
        ("d2d4".to_string(), 1),
    ];
    match choose_sampled_move(&samples, "<move>e2e4</move>", "", &game) {
        SampleChoice::Voted(mv, w) => {
            assert_eq!(w, "d2d4");
            assert_eq!(deepseek_chess::chess_engine::move_to_coord(&mv), "d2d4");
        }
        _ => panic!("the legal vote winner is played"),
    }
    // An illegal winner gives way to the first reply's move.
    let illegal = vec![("e2e5".to_string(), 3), ("e2e5".to_string(), 3), ("g1f3".to_string(), 0)];
    match choose_sampled_move(&illegal, "<move>g1f3</move>", "", &game) {
        SampleChoice::FirstReply(mv) => assert_eq!(deepseek_chess::chess_engine::move_to_coord(&mv), "g1f3"),
        _ => panic!("the first reply's legal move is played"),
    }
    // Neither: the retries start from the first reply's failure.
    match choose_sampled_move(&illegal, "<move>e2e5</move>", "", &game) {
        SampleChoice::Retry(ParseError::IllegalMove(m, _)) => assert_eq!(m, "e2e5"),
        _ => panic!("the retries begin"),
    }
    match choose_sampled_move(&[], "no move here", "", &game) {
        SampleChoice::Retry(ParseError::InvalidFormat(s)) => assert_eq!(s, "no move here"),
        _ => panic!("the retries begin"),
    }
}
