use pastel::format::{preview_text, rel_time_from_age};

#[test]
fn preview_flattens_and_trims() {
    assert_eq!(preview_text("  hello\nworld\t!  "), "hello¶world !");
    assert_eq!(preview_text("a\r\nb"), "a¶¶b");
    assert_eq!(preview_text("\u{7}bell"), "bell");
    assert_eq!(preview_text("x\u{85}y"), "x y");
    assert_eq!(preview_text(""), "");
    assert_eq!(preview_text(" \u{3000} "), "");
}

#[test]
fn preview_cuts_long_text() {
    let long: String = "é".repeat(250);
    let p = preview_text(&long);
    let expected = format!("{} …", "é".repeat(200));
    assert_eq!(p, expected);
    let exact: String = "a".repeat(200);
    assert_eq!(preview_text(&exact), exact);
}

#[test]
fn preview_is_one_line() {
    let p = preview_text("line one\nline two\rthree\u{1b}[0m");
    assert!(!p.contains('\n') && !p.contains('\r') && !p.chars().any(|c| c.is_control()));
    assert_eq!(p, "line one¶line two¶three [0m");
}

#[test]
fn relative_times() {
    assert_eq!(rel_time_from_age(0), "just now");
    assert_eq!(rel_time_from_age(44), "just now");
    assert_eq!(rel_time_from_age(45), "0m ago");
    assert_eq!(rel_time_from_age(125), "2m ago");
    assert_eq!(rel_time_from_age(3599), "59m ago");
    assert_eq!(rel_time_from_age(3600), "1h ago");
    assert_eq!(rel_time_from_age(86_399), "23h ago");
    assert_eq!(rel_time_from_age(86_400), "1d ago");
    assert_eq!(rel_time_from_age(30 * 86_400 - 1), "29d ago");
    assert_eq!(rel_time_from_age(30 * 86_400), "long ago");
}
