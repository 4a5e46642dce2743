use deepseek_chess::persistence::{
    default_black_player, default_effort, default_false, default_lang, default_sc_samples,
    default_version, default_white_player, CURRENT_VERSION,
};

#[test]
fn defaults_of_old_saves() {
    assert_eq!(default_lang(), "zh");
    assert_eq!(default_effort(), "high");
    assert!(!default_false());
    assert_eq!(default_sc_samples(), 1);
    assert_eq!(default_white_player(), "");
    assert_eq!(default_black_player(), "");
    assert_eq!(default_version(), CURRENT_VERSION);
    assert_eq!(CURRENT_VERSION, 1);
}
