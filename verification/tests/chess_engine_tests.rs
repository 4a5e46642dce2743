use std::str::FromStr;

use deepseek_chess::chess_engine::{
    char_to_piece, color_opposite, color_to_str, move_to_coord, parse_coord_move, parse_square,
    is_sound_position_text, piece_to_char, square_to_str, str_to_color, BoardStatus, ChessGame,
    Color, Piece, Position,
};

fn game_at(fen: &str, side: Color) -> ChessGame {
    let board = chess::Board::from_str(fen).expect("合法的 FEN");
    let mut game = ChessGame::new(side, "human".to_string(), "deepseek".to_string());
    game.board = Position::from_text(&board.to_string()).expect("合法的局面文本");
    game
}

#[test]
fn test_own_hanging_undefended_pawn() {
    let game = game_at(
        "rnbqkbnr/pppp1ppp/8/4p3/4P3/5N2/PPPP1PPP/RNBQKB1R b KQkq - 0 2",
        Color::Black,
    );
    let danger = game.own_hanging();
    assert!(!danger.is_empty(), "黑方e5兵被Nf3攻击无保护应在 own_hanging 中");
    assert!(danger.iter().any(|s| s.contains("e5")), "e5应在 own_hanging: {:?}", danger);
}

#[test]
fn test_own_hanging_defended_piece_not_listed() {
    let game = game_at(
        "r1bqkbnr/pp1ppppp/2n5/8/3NP3/8/PPP2PPP/RNBQKB1R b KQkq - 0 4",
        Color::Black,
    );
    let danger = game.own_hanging();
    assert!(!danger.iter().any(|s| s.contains("c6")), "Nc6有b7保护不应在 own_hanging: {:?}", danger);
}

#[test]
fn test_own_hanging_defended_pawn() {
    let game = game_at(
        "rnb1kbnr/ppp2ppp/8/3q4/8/2N5/PPPPPPPP/R1BQKBNR w KQkq - 0 3",
        Color::White,
    );
    let enemy_hanging = game.enemy_hanging();
    assert!(enemy_hanging.iter().any(|s| s.contains("d5")), "后d5应在 enemy_hanging: {:?}", enemy_hanging);
    let own_danger = game.own_hanging();
    assert!(own_danger.is_empty(), "白方无悬空子: {:?}", own_danger);
}

#[test]
fn test_own_hanging_empty_on_start() {
    let game = ChessGame::new(Color::White, "human".to_string(), "deepseek".to_string());
    assert!(game.own_hanging().is_empty(), "开局不应有己方悬空子");
    assert!(game.enemy_hanging().is_empty(), "开局不应有对方悬空子");
}

#[test]
fn hanging_entries_are_sorted_letters_and_squares() {
    let game = game_at(
        "rnb1kbnr/ppp2ppp/8/3q4/8/2N5/PPPPPPPP/R1BQKBNR w KQkq - 0 3",
        Color::White,
    );
    assert_eq!(game.enemy_hanging(), vec!["qd5".to_string()]);
}

#[test]
fn undo_restores_the_previous_game() {
    let mut game = ChessGame::new(Color::White, "human".to_string(), "deepseek".to_string());
    let start = game.to_fen();
    let mv = parse_coord_move("e2e4").unwrap();
    assert!(game.make_move(mv).is_ok());
    assert_eq!(game.ply_count(), 1);
    assert_ne!(game.to_fen(), start);
    assert!(game.undo());
    assert_eq!(game.to_fen(), start);
    assert_eq!(game.ply_count(), 0);
    assert!(!game.undo());
}

#[test]
fn illegal_move_is_refused() {
    let mut game = ChessGame::new(Color::White, "human".to_string(), "deepseek".to_string());
    let mv = parse_coord_move("e2e5").unwrap();
    assert!(!game.is_legal(&mv));
    assert_eq!(game.make_move(mv), Err("非法走法".to_string()));
    assert_eq!(game.ply_count(), 0);
}

#[test]
fn start_position_facts() {
    let game = ChessGame::new(Color::Black, "deepseek".to_string(), "human".to_string());
    assert_eq!(game.to_fen(), "rnbqkbnr/pppppppp/8/8/8/8/PPPPPPPP/RNBQKBNR w KQkq - 0 1");
    assert_eq!(game.legal_moves().len(), 20);
    assert_eq!(game.legal_moves_str().len(), 20);
    assert!(game.legal_moves_str().contains(&"g1f3".to_string()));
    assert_eq!(game.side_to_move(), Color::White);
    assert_eq!(game.status(), BoardStatus::Ongoing);
    assert!(!game.in_check());
}

#[test]
fn visual_board() {
    let game = ChessGame::new(Color::White, "human".to_string(), "deepseek".to_string());
    let v = game.to_visual_string();
    let lines: Vec<&str> = v.lines().collect();
    assert_eq!(lines.len(), 10);
    assert_eq!(lines[0], "  a b c d e f g h");
    assert_eq!(lines[1], "8 r n b q k b n r 8");
    assert_eq!(lines[3], "6 . . . . . . . . 6");
    assert_eq!(lines[8], "1 R N B Q K B N R 1");
    assert_eq!(lines[9], "  a b c d e f g h");
}

#[test]
fn checkmate_is_seen() {
    let mut game = ChessGame::new(Color::White, "human".to_string(), "deepseek".to_string());
    for m in ["f2f3", "e7e5", "g2g4", "d8h4"] {
        let mv = parse_coord_move(m).unwrap();
        game.make_move(mv).unwrap();
    }
    assert_eq!(game.status(), BoardStatus::Checkmate);
    assert!(game.in_check());
    assert_eq!(game.side_to_move(), Color::White);
}

#[test]
fn coordinate_notation() {
    let mv = parse_coord_move("  e7e8Q ").unwrap();
    assert_eq!(mv.get_promotion(), Some(Piece::Queen));
    assert_eq!(move_to_coord(&mv), "e7e8q");
    assert_eq!(parse_coord_move("e2e4x"), None);
    assert_eq!(parse_coord_move("e2"), None);
    assert_eq!(parse_coord_move("i2e4"), None);
    assert_eq!(parse_coord_move("aé2e"), None);
    assert_eq!(parse_coord_move("e2eé"), None);
    assert_eq!(square_to_str(parse_square("h8").unwrap()), "h8");
    assert_eq!(piece_to_char(Piece::Knight), 'n');
    assert_eq!(char_to_piece('K'), Some(Piece::King));
    assert_eq!(char_to_piece('x'), None);
}

#[test]
fn colour_names() {
    assert_eq!(str_to_color("White"), Some(Color::White));
    assert_eq!(str_to_color("B"), Some(Color::Black));
    assert_eq!(str_to_color("red"), None);
    assert_eq!(color_to_str(Color::Black), "black");
    assert_eq!(color_opposite(Color::Black), Color::White);
}

#[test]
fn rebuilding_from_saved_moves() {
    let moves = vec!["e2e4".to_string(), "e7e5".to_string(), "g1f3".to_string()];
    let game = ChessGame::rebuild_from_history(
        Color::White,
        "human".to_string(),
        "deepseek".to_string(),
        moves,
    )
    .unwrap();
    assert_eq!(game.ply_count(), 3);
    assert_eq!(game.board_history.len(), 3);
    assert_eq!(game.side_to_move(), Color::Black);
    let bad = ChessGame::rebuild_from_history(
        Color::White,
        "human".to_string(),
        "deepseek".to_string(),
        vec!["e2e4".to_string(), "e2e5".to_string()],
    );
    assert_eq!(bad.err(), Some("存档含非法走法: e2e5".to_string()));
    let unparsable = ChessGame::rebuild_from_history(
        Color::White,
        "human".to_string(),
        "deepseek".to_string(),
        vec!["zz".to_string()],
    );
    assert_eq!(unparsable.err(), Some("无法解析走法: zz".to_string()));
    let cut_inside = ChessGame::rebuild_from_history(
        Color::White,
        "human".to_string(),
        "deepseek".to_string(),
        vec!["aé1".to_string()],
    );
    assert_eq!(cut_inside.err(), Some("无法解析走法: aé1".to_string()));
}

#[test]
fn unreadable_position_texts_are_refused() {
    // No king for either side.
    assert!(Position::from_text("8/8/8/8/8/8/8/8 w - - 0 1").is_none());
    // A rank field that runs past the board.
    assert!(!is_sound_position_text("rnbqkbnr/pppppppp/9/8/8/8/PPPPPPPP/RNBQKBNR w KQkq - 0 1"));
    // Seven rank fields.
    assert!(!is_sound_position_text("rnbqkbnr/pppppppp/8/8/8/PPPPPPPP/RNBQKBNR w KQkq - 0 1"));
    // Two white kings.
    assert!(!is_sound_position_text("4k3/8/8/8/8/8/8/3KK3 w - - 0 1"));
    // A king written over by a later piece in the same rank.
    assert!(!is_sound_position_text("4k3/8/8/8/8/8/8/K7Q w - - 0 1"));
    let p = Position::from_text("4k3/8/8/8/8/8/8/4K3 w - - 0 1").unwrap();
    assert_eq!(p.as_str(), "4k3/8/8/8/8/8/8/4K3 w - - 0 1");
    let start = ChessGame::new(Color::White, "human".to_string(), "deepseek".to_string());
    assert!(is_sound_position_text(&start.to_fen()));
}
