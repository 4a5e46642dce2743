use deepseek_chess::deepseek::{
    current_pick, extract_at_pick, extract_closed_move_tag, extract_last_legal_move,
    extract_notes, extract_notes_from_text, extract_open_move_tag, find_safe_split, sse_data,
    ChatMessage, DeepSeekClient, SseLine, StreamEmit, StreamState, Usage,
};

#[test]
fn test_extract_at_pick() {
    assert_eq!(extract_at_pick("分析 @e2e4"), Some("e2e4".to_string()));
    assert_eq!(extract_at_pick("@e2e4 不好，@d2d4 更强"), Some("d2d4".to_string()));
    assert_eq!(extract_at_pick("@e7e8q"), Some("e7e8q".to_string()));
    assert_eq!(extract_at_pick("纯文本思考"), None);
    assert_eq!(extract_at_pick("@E2E4"), Some("e2e4".to_string()));
    assert_eq!(extract_at_pick("@center @king"), None);
    assert_eq!(extract_at_pick("@e2e4abc"), None);
    assert_eq!(extract_at_pick("@e2e4 @g1f3"), Some("g1f3".to_string()));
    assert_eq!(extract_at_pick("考虑 @e2e4"), Some("e2e4".to_string()));
}

#[test]
fn test_extract_notes() {
    assert_eq!(
        extract_notes("<move>e2e4</move> !!白优+0.5 黑威胁d5", ""),
        "白优+0.5 黑威胁d5".to_string()
    );
    assert_eq!(extract_notes("!!白优 !!白优+0.5", ""), "白优+0.5".to_string());
    assert_eq!(extract_notes("", "!!黑威胁f7 白攻王翼"), "黑威胁f7 白攻王翼".to_string());
    assert_eq!(extract_notes("e2e4 <move>e2e4</move>", "思考中"), "");
    assert_eq!(extract_notes("!!白优+0.5\n其他", ""), "白优+0.5".to_string());
    assert_eq!(extract_notes("!!白优<move>e2e4</move>", ""), "白优".to_string());
    assert_eq!(extract_notes("!!白优 @e2e4", ""), "白优".to_string());
    assert_eq!(extract_notes("", ""), "");
}

#[test]
fn test_extract_last_legal_move() {
    let legal = vec!["e2e4".to_string(), "d2d4".to_string(), "g1f3".to_string()];
    assert_eq!(
        extract_last_legal_move("考虑 e2e4 然后 d2d4", &legal),
        Some("d2d4".to_string())
    );
    assert_eq!(extract_last_legal_move("G1F3 不错", &legal), Some("g1f3".to_string()));
    assert_eq!(extract_last_legal_move("纯文本无走法", &legal), None);
    let long = format!("{}{}", "e2e4", "x".repeat(210));
    assert_eq!(extract_last_legal_move(&long, &legal), None);
    let long2 = format!("{}{}", "x".repeat(210), "e2e4 然后 g1f3");
    assert_eq!(extract_last_legal_move(&long2, &legal), Some("g1f3".to_string()));
    assert_eq!(extract_last_legal_move("e2e4", &[]), None);
}

#[test]
fn test_extract_open_move_tag() {
    let legal = vec!["e2e4".to_string(), "d2d4".to_string(), "e7e8q".to_string()];
    assert_eq!(
        extract_open_move_tag("分析完毕 <move>e2e4", &legal),
        Some("e2e4".to_string())
    );
    assert_eq!(extract_open_move_tag("<move>e7e8q", &legal), Some("e7e8q".to_string()));
    assert_eq!(extract_open_move_tag("<move>e2e4</move>", &legal), None);
    assert_eq!(extract_open_move_tag("纯文本思考", &legal), None);
    assert_eq!(extract_open_move_tag("<move>xxxx", &legal), None);
    assert_eq!(extract_open_move_tag("<MOVE>E2E4", &legal), Some("e2e4".to_string()));
    assert_eq!(extract_open_move_tag("<move>e2e4", &[]), None);
}

#[test]
fn closed_tags_need_a_legal_move() {
    let legal = vec!["e2e4".to_string(), "d2d4".to_string()];
    assert_eq!(
        extract_closed_move_tag("<move>e2e4</move> <move>zzzz</move>", &legal),
        Some("e2e4".to_string())
    );
    assert_eq!(
        extract_closed_move_tag("<move>e2e4</move><MOVE> D2D4 </MOVE>", &legal),
        Some("d2d4".to_string())
    );
    assert_eq!(extract_closed_move_tag("<move>e2e4", &legal), None);
    assert_eq!(extract_closed_move_tag("<move>e2e4</move>", &[]), None);
}

#[test]
fn notes_last_one_wins_and_blank_ones_do_not() {
    assert_eq!(extract_notes_from_text("!!a !!"), Some("a !!".to_string()));
    assert_eq!(extract_notes_from_text("!!a\n!!  "), Some("a".to_string()));
    assert_eq!(extract_notes_from_text("!!!x"), Some("!x".to_string()));
    assert_eq!(extract_notes_from_text("none"), None);
}

#[test]
fn safe_split_keeps_a_possible_tag_start() {
    let tag = "</LMTHINK>";
    assert_eq!(find_safe_split("abc</LMT", tag), 3);
    assert_eq!(find_safe_split("abc", tag), 3);
    assert_eq!(find_safe_split("x<", tag), 1);
    assert_eq!(find_safe_split("", tag), 0);
    assert_eq!(find_safe_split("思考</", tag), 6);
    assert_eq!(find_safe_split("</LMTHINK", tag), 0);
}

#[test]
fn sse_lines() {
    assert!(matches!(sse_data(""), SseLine::Skip));
    assert!(matches!(sse_data(": keep-alive"), SseLine::Skip));
    assert!(matches!(sse_data("data: [DONE]"), SseLine::Done));
    assert!(matches!(sse_data("data:[DONE]"), SseLine::Done));
    match sse_data("data: {\"a\":1}") {
        SseLine::Data(d) => assert_eq!(d, "{\"a\":1}"),
        _ => panic!("a data line"),
    }
    match sse_data("data:   {}") {
        SseLine::Data(d) => assert_eq!(d, "  {}"),
        _ => panic!("a data line"),
    }
    match sse_data("data:\t{}") {
        SseLine::Data(d) => assert_eq!(d, "{}"),
        _ => panic!("a data line"),
    }
}

fn feed_content(st: &mut StreamState, c: &str) -> Vec<StreamEmit> {
    st.apply_chunk(None, Some((c.to_string(), String::new())))
}

#[test]
fn pseudo_reasoning_across_chunks() {
    let legal = vec!["e2e4".to_string()];
    let mut whole = StreamState::new(legal.clone(), true, true);
    feed_content(&mut whole, "pre<LMTHINK>think hard</LMTHINK><move>e2e4</move>");
    let mut pieces = StreamState::new(legal, true, true);
    for piece in ["pre<LM", "THINK>thi", "nk hard</LMT", "HINK><move>e2", "e4</move>"] {
        feed_content(&mut pieces, piece);
    }
    assert_eq!(whole.full_reasoning, "think hard");
    assert_eq!(pieces.full_reasoning, whole.full_reasoning);
    assert_eq!(pieces.in_lmthink, whole.in_lmthink);
    assert_eq!(pieces.pseudo_buffer, whole.pseudo_buffer);
    assert_eq!(pieces.last_pick, Some("e2e4".to_string()));
}

#[test]
fn stream_reports_reasoning_and_picks_once() {
    let legal = vec!["e2e4".to_string(), "d2d4".to_string()];
    let mut st = StreamState::new(legal, false, false);
    let e1 = st.apply_chunk(None, Some((String::new(), "@e2e4 因控中心".to_string())));
    assert_eq!(e1.len(), 2);
    assert!(matches!(&e1[0], StreamEmit::Thinking(t) if t == "@e2e4 因控中心"));
    assert!(matches!(&e1[1], StreamEmit::Pick(p) if p == "e2e4"));
    let e2 = st.apply_chunk(None, Some((String::new(), " 好".to_string())));
    assert_eq!(e2.len(), 1);
    let usage = Usage { prompt_tokens: 3, completion_tokens: 4, total_tokens: 7, prompt_cache_hit_tokens: 1, prompt_cache_miss_tokens: 2 };
    let e3 = st.apply_chunk(Some(usage), None);
    assert!(e3.is_empty());
    assert_eq!(st.usage.total_tokens, 7);
    let e4 = st.apply_chunk(None, Some(("<move>d2d4</move>".to_string(), String::new())));
    assert_eq!(e4.len(), 1);
    assert!(matches!(&e4[0], StreamEmit::Pick(p) if p == "d2d4"));
    assert_eq!(st.full_content, "<move>d2d4</move>");
}

#[test]
fn stream_lines_from_bytes() {
    let mut st = StreamState::new(Vec::new(), false, false);
    st.feed(b"data: {}\r\n\nda");
    assert_eq!(st.next_line(), Some("data: {}".to_string()));
    assert_eq!(st.next_line(), Some(String::new()));
    assert_eq!(st.next_line(), None);
    st.feed("ta: [DONE]\n".as_bytes());
    let l = st.next_line().unwrap();
    assert!(matches!(sse_data(&l), SseLine::Done));
}

#[test]
fn current_pick_order() {
    let legal = vec!["e2e4".to_string(), "d2d4".to_string()];
    assert_eq!(current_pick("<move>d2d4</move>", "@e2e4", &legal), Some("d2d4".to_string()));
    assert_eq!(current_pick("", "@e2e4 then d2d4", &legal), Some("e2e4".to_string()));
    assert_eq!(current_pick("", "maybe d2d4", &legal), Some("d2d4".to_string()));
    assert_eq!(current_pick("", "", &legal), None);
}

#[test]
fn client_settings() {
    let c = DeepSeekClient::new("k".to_string(), "m".to_string(), true, "max".to_string());
    assert_eq!(c.reasoning_effort, "max");
    let c2 = DeepSeekClient::new("k".to_string(), "m".to_string(), true, "".to_string());
    assert_eq!(c2.reasoning_effort, "high");
    let msgs = vec![ChatMessage { role: "user".to_string(), content: "hi".to_string() }];
    let req = c.build_request(msgs, true, true);
    assert_eq!(req.thinking_type, "enabled");
    assert_eq!(req.reasoning_effort, Some("max".to_string()));
    assert_eq!(req.max_tokens, Some(8192));
    assert!(req.include_usage);
    let c3 = DeepSeekClient::new("k".to_string(), "m".to_string(), false, "max".to_string());
    let req3 = c3.build_request(Vec::new(), false, false);
    assert_eq!(req3.thinking_type, "disabled");
    assert_eq!(req3.reasoning_effort, None);
    assert_eq!(req3.max_tokens, None);
    assert!(!req3.include_usage);
    let u = Usage::default();
    assert_eq!(u.prompt_tokens + u.completion_tokens + u.total_tokens, 0);
}
