use deepseek_chess::text::{
    chars_of, parse_i32_chars, remove_all_chars, same_text, split_chars, split_lines, trim_str,
    u64_to_decimal,
};

fn chars(s: &str) -> Vec<char> {
    s.chars().collect()
}

fn string_of(v: &[char]) -> String {
    v.iter().collect()
}

#[test]
fn lines_like_str_lines() {
    let text = chars("a\r\nb\n\nc\r");
    let lines: Vec<String> = split_lines(&text).iter().map(|l| string_of(l)).collect();
    assert_eq!(lines, vec!["a", "b", "", "c\r"]);
    assert_eq!(split_lines(&chars("x\n")).len(), 1);
    assert!(split_lines(&chars("")).is_empty());
}

#[test]
fn trimming_and_splitting() {
    assert_eq!(trim_str("\u{3000} e2e4 \t\n"), "e2e4");
    let parts: Vec<String> = split_chars(&chars("a/b//c"), '/').iter().map(|p| string_of(p)).collect();
    assert_eq!(parts, vec!["a", "b", "", "c"]);
    assert_eq!(string_of(&remove_all_chars(&chars("```e2e4```"), &chars("```"))), "e2e4");
    assert_eq!(chars_of("héllo").len(), 5);
    assert!(same_text("abc", "abc"));
    assert!(!same_text("abc", "abd"));
}

#[test]
fn integers() {
    assert_eq!(parse_i32_chars(&chars("+3")), Some(3));
    assert_eq!(parse_i32_chars(&chars("-2147483648")), Some(i32::MIN));
    assert_eq!(parse_i32_chars(&chars("2147483648")), None);
    assert_eq!(parse_i32_chars(&chars("-")), None);
    assert_eq!(parse_i32_chars(&chars("1-")), None);
    assert_eq!(string_of(&u64_to_decimal(0)), "0");
    assert_eq!(string_of(&u64_to_decimal(18446744073709551615)), "18446744073709551615");
}
