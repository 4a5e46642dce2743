use deepseek_chess::chess_engine::{ChessGame, Color};
use deepseek_chess::move_parser::{
    extract_move_and_score, extract_move_token, extract_score_for_move, extract_score_from_line,
    is_pure_move, parse_and_validate, scan_line_for_first_move, ParseError,
};

#[test]
fn test_move_tag_extraction() {
    assert_eq!(
        extract_move_token("Let me think... <move>e2e4</move>"),
        Some("e2e4".to_string())
    );
    assert_eq!(
        extract_move_token("分析：e2e4 不错，但 <move>d2d4</move> 更好"),
        Some("d2d4".to_string())
    );
    assert_eq!(
        extract_move_token("推理 e2e4，再想 g1f3，最终 <move>g1f3</move>"),
        Some("g1f3".to_string())
    );
}

#[test]
fn test_pure_move() {
    assert_eq!(extract_move_token("e2e4"), Some("e2e4".to_string()));
    assert_eq!(extract_move_token("  e7e8q  "), Some("e7e8q".to_string()));
}

#[test]
fn test_avoid_legal_moves_line() {
    assert_eq!(
        extract_move_token("Legal moves: e2e4 d2d4\n\n<move>c2c4</move>"),
        Some("c2c4".to_string())
    );
}

#[test]
fn test_extract_move_and_score() {
    let (mv, score) = extract_move_and_score(
        "<move>e2e4</move>",
        "@e2e4 因控中心 分:+3\n@d2d4 则争d5 分:+3",
    );
    assert_eq!(mv, "e2e4");
    assert_eq!(score, 3);

    let (mv, score) = extract_move_and_score(
        "<move>d2d4</move>",
        "@e2e4 because center score:+3\n@d2d4 so contest d5 score:+5",
    );
    assert_eq!(mv, "d2d4");
    assert_eq!(score, 5);

    let (mv, score) = extract_move_and_score("<move>a2a3</move>", "@a2a3 因防b4 分:-1");
    assert_eq!(mv, "a2a3");
    assert_eq!(score, -1);

    let (mv, score) = extract_move_and_score("<move>e2e4</move>", "纯文本思考无评分");
    assert_eq!(mv, "e2e4");
    assert_eq!(score, 0);

    let (mv, score) = extract_move_and_score("", "@e2e4 因控中心 分:+3\n<move>e2e4</move>");
    assert_eq!(mv, "e2e4");
    assert_eq!(score, 3);

    let (mv, score) = extract_move_and_score(
        "<move>e2e4</move>",
        "@e2e4 因控中心 分:+3\n@e2e4 则改主意 分:+1",
    );
    assert_eq!(mv, "e2e4");
    assert_eq!(score, 1);

    let (mv, _) = extract_move_and_score("纯文本无走法", "也无走法");
    assert_eq!(mv, "");
}

#[test]
fn last_of_several_tags_wins() {
    assert_eq!(
        extract_move_token("<move>e2e4</move> then <move>d2d4</move>"),
        Some("d2d4".to_string())
    );
}

#[test]
fn blank_tag_is_skipped() {
    assert_eq!(
        extract_move_token("<move>g1f3</move> <move>   </move>"),
        Some("g1f3".to_string())
    );
}

#[test]
fn upper_case_tags_are_found_and_content_kept() {
    assert_eq!(extract_move_token("<MOVE> E2E4 </MOVE>"), Some("E2E4".to_string()));
}

#[test]
fn fenced_bare_move() {
    assert_eq!(extract_move_token("```\nE2E4\n```"), Some("e2e4".to_string()));
    assert_eq!(extract_move_token("```e2e4```"), Some("e2e4".to_string()));
}

#[test]
fn bare_move_shapes() {
    assert!(is_pure_move("e2e4"));
    assert!(is_pure_move("e7e8q"));
    assert!(!is_pure_move("e7e8k"));
    assert!(!is_pure_move("e9e4"));
    assert!(!is_pure_move("E2E4"));
    assert!(!is_pure_move("e2e"));
}

#[test]
fn line_scan_with_separators() {
    assert_eq!(scan_line_for_first_move("I play E2-E4 now"), Some("e2e4".to_string()));
    assert_eq!(scan_line_for_first_move("g7 g8q"), Some("g7g8q".to_string()));
    assert_eq!(scan_line_for_first_move("b1,c3"), Some("b1c3".to_string()));
    assert_eq!(scan_line_for_first_move("nothing here"), None);
}

#[test]
fn last_plain_line_is_used() {
    assert_eq!(
        extract_move_token("first e2e4\nthen d2d4\n"),
        Some("d2d4".to_string())
    );
    assert_eq!(
        extract_move_token("play e2e4\n思路：d2d4"),
        Some("e2e4".to_string())
    );
    assert_eq!(extract_move_token("no move at all"), None);
}

#[test]
fn scores_in_lines() {
    assert_eq!(extract_score_from_line("分:+7"), Some(7));
    assert_eq!(extract_score_from_line("x score:-12 y"), Some(-12));
    assert_eq!(extract_score_from_line("分:abc score:4"), Some(4));
    assert_eq!(extract_score_from_line("score:+"), None);
    assert_eq!(extract_score_from_line("no score"), None);
    assert_eq!(extract_score_for_move("@E2E4 x score:2\n@e2e4 y", "e2e4"), Some(2));
    assert_eq!(extract_score_for_move("@d2d4 分:3", "e2e4"), None);
}

#[test]
fn tags_are_found_by_characters() {
    // KELVIN SIGN lower-cases to the one-byte `k`; the tag's content is
    // still cut out of the text at the tag's own characters.
    assert_eq!(extract_move_and_score("\u{212A}<move>e2e4</move>", ""), ("e2e4".to_string(), 0));
    assert_eq!(extract_move_token("\u{212A}<move>e2e4</move>"), Some("e2e4".to_string()));
    assert_eq!(extract_move_token("İİİİİİİİ<move>x</move>"), Some("x".to_string()));
    assert_eq!(extract_move_token("<Move>g1f3</mOVE> then <move>  </move>"), Some("g1f3".to_string()));
    let r = extract_move_and_score("<move>e2e4</move>", "@e2e4 分:2");
    assert_eq!(r, ("e2e4".to_string(), 2));
}

#[test]
fn validation_against_the_game() {
    let game = ChessGame::new(Color::White, "human".to_string(), "deepseek".to_string());
    match parse_and_validate("<move>e2e4</move>", &game) {
        Ok(mv) => assert_eq!(deepseek_chess::chess_engine::move_to_coord(&mv), "e2e4"),
        Err(_) => panic!("e2e4 is legal at the start"),
    }
    match parse_and_validate("<move>e2e5</move>", &game) {
        Err(ParseError::IllegalMove(m, legal)) => {
            assert_eq!(m, "e2e5");
            assert_eq!(legal.len(), 20);
        }
        _ => panic!("e2e5 is not legal"),
    }
    match parse_and_validate("nothing", &game) {
        Err(ParseError::InvalidFormat(s)) => assert_eq!(s, "nothing"),
        _ => panic!("no move in the reply"),
    }
    match parse_and_validate("<move>zz</move>", &game) {
        Err(ParseError::InvalidFormat(s)) => assert_eq!(s, "zz"),
        _ => panic!("tag content is not notation"),
    }
    match parse_and_validate("<move>aé1</move>", &game) {
        Err(ParseError::InvalidFormat(s)) => assert_eq!(s, "aé1"),
        _ => panic!("a cut inside a character is not notation"),
    }
}
