use std::str::FromStr;

use deepseek_chess::chess_engine::{parse_coord_move, ChessGame, Color, Position};
use deepseek_chess::prompt::{
    build_messages, system_message, user_message, CHESS_RULES_BRIEF_EN, CHESS_RULES_BRIEF_ZH,
    PSEUDO_FORMAT_EN, PSEUDO_FORMAT_ZH, THINKING_FORMAT_EN, THINKING_FORMAT_ZH,
};

#[test]
fn system_message_language_and_mode() {
    let m = system_message("zh", false, 0);
    assert_eq!(m.role, "system");
    assert_eq!(m.content, format!("{}{}", THINKING_FORMAT_ZH, CHESS_RULES_BRIEF_ZH));
    let e = system_message("en", false, 0);
    assert_eq!(e.content, format!("{}{}", THINKING_FORMAT_EN, CHESS_RULES_BRIEF_EN));
    let other = system_message("fr", false, 0);
    assert_eq!(other.content, e.content);
}

#[test]
fn pseudo_reasoning_asks_for_at_least_800_tokens() {
    let m = system_message("zh", true, 100);
    assert!(m.content.starts_with(
        "[CRITICAL] 思考深度强制要求：你的思考内容必须至少 800 token。不足此数=失败。\n必须输出更多候选走法分析和局面确认，直到达到 800 token 的思考量。\n\n"
    ));
    assert!(m.content.ends_with(&format!("{}{}", PSEUDO_FORMAT_ZH, CHESS_RULES_BRIEF_ZH)));
    let e = system_message("en", true, 2000);
    assert!(e.content.starts_with("[CRITICAL] Thinking depth requirement: your thinking MUST be at least 2000 tokens."));
    assert!(e.content.ends_with(&format!("{}{}", PSEUDO_FORMAT_EN, CHESS_RULES_BRIEF_EN)));
    let n = system_message("en", false, 1500);
    assert!(n.content.contains("until reaching 1500 tokens of thinking.\n\n"));
}

#[test]
fn user_message_at_the_start() {
    let game = ChessGame::new(Color::White, "human".to_string(), "deepseek".to_string());
    let m = user_message(&game, "white", "", &[]);
    assert_eq!(m.role, "user");
    assert!(m.content.starts_with(
        "选最佳走法。\n<state>side:white turn:white fen:rnbqkbnr/pppppppp/8/8/8/8/PPPPPPPP/RNBQKBNR w KQkq - 0 1</state>\n<board>\n  a b c d e f g h\n"
    ));
    assert!(m.content.contains("<hist_block><hist/></hist_block>"));
    assert!(m.content.contains("<hanging/>\n<notes/>\n回复 <move>UCI</move>"));
    assert!(m.content.contains("<legal>a2a3 a2a4 b2b3 b2b4"));
}

#[test]
fn user_message_history_notes_and_exclusions() {
    let mut game = ChessGame::new(Color::White, "human".to_string(), "deepseek".to_string());
    for m in ["e2e4", "e7e5", "g1f3", "b8c6", "f1c4", "g8f6"] {
        game.make_move(parse_coord_move(m).unwrap()).unwrap();
    }
    let excluded = vec!["e1g1".to_string()];
    let m = user_message(&game, "white", "!!note", &excluded);
    assert!(m.content.contains("<hist>e7e5 2.g1f3 b8c6 3.f1c4 g8f6</hist>"));
    assert!(m.content.contains("<notes>!!note</notes>"));
    assert!(!m.content.contains("e1g1"));
    assert!(m.content.contains(" turn:white "));
}

#[test]
fn all_moves_failed_keeps_the_full_list() {
    let game = ChessGame::new(Color::White, "human".to_string(), "deepseek".to_string());
    let all = game.legal_moves_str();
    let m = user_message(&game, "white", "", &all);
    assert!(m.content.contains(&format!("<legal>{}</legal>", all.join(" "))));
}

#[test]
fn free_captures_are_listed() {
    let mut game = ChessGame::new(Color::White, "human".to_string(), "deepseek".to_string());
    let fen = chess::Board::from_str("rnb1kbnr/ppp2ppp/8/3q4/8/2N5/PPPPPPPP/R1BQKBNR w KQkq - 0 3")
        .unwrap()
        .to_string();
    game.board = Position::from_text(&fen).expect("a position the chess crate wrote");
    let m = user_message(&game, "white", "", &[]);
    assert!(m.content.contains("<hanging>qd5</hanging>"));
}

#[test]
fn two_messages() {
    let game = ChessGame::new(Color::Black, "deepseek".to_string(), "human".to_string());
    let msgs = build_messages(&game, "white", "en", "", &[], false, 0);
    assert_eq!(msgs.len(), 2);
    assert_eq!(msgs[0].role, "system");
    assert_eq!(msgs[1].role, "user");
}
