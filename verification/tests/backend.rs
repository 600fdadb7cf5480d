use pastel::backend::{has_text, image_type, is_secret, lines, read_current, ReadRequest};

#[test]
fn text_wins_over_images() {
    assert!(has_text(&["text/plain;charset=utf-8", "image/png"]));
    assert_eq!(image_type(&["text/plain", "image/png"]), None);
    assert_eq!(
        image_type(&["text/html", "image/jpeg", "image/png"]),
        Some("image/png")
    );
    assert_eq!(image_type(&["image/bmp"]), Some("image/bmp"));
    assert_eq!(image_type(&["text/html"]), None);
    assert!(is_secret(&["x-kde-passwordManagerHint", "text/plain"]));
}

#[test]
fn text_types_are_recognised() {
    assert!(has_text(&["UTF8_STRING"]));
    assert!(has_text(&["STRING"]));
    assert!(has_text(&["TEXT"]));
    assert!(has_text(&["text/plain"]));
    assert!(!has_text(&["text/html", "image/png"]));
    assert!(!has_text(&["utf8_string"]));
    let none: [&str; 0] = [];
    assert!(!has_text(&none));
    assert_eq!(image_type(&none), None);
    assert!(!is_secret(&none));
}

#[test]
fn first_image_type_is_taken_without_png() {
    assert_eq!(
        image_type(&["image/jpeg", "image/gif", "text/html"]),
        Some("image/jpeg")
    );
    assert_eq!(image_type(&["image/jpeg", "image/png"]), Some("image/png"));
    assert!(!is_secret(&["text/plain", "image/png"]));
}

#[test]
fn lines_follow_str_lines() {
    assert!(lines("").is_empty());
    assert_eq!(lines("a\nb"), ["a", "b"]);
    assert_eq!(lines("a\r\nb\n"), ["a", "b"]);
    assert_eq!(lines("a\n\nb"), ["a", "", "b"]);
    assert_eq!(lines("\n"), [""]);
    assert_eq!(lines("a\r"), ["a\r"]);
}

#[test]
fn read_current_skips_secrets_and_prefers_text() {
    assert_eq!(
        read_current("text/plain\nx-kde-passwordManagerHint\n"),
        None
    );
    assert_eq!(
        read_current("image/png\ntext/plain;charset=utf-8\n"),
        Some(ReadRequest::Text)
    );
    assert_eq!(
        read_current("image/jpeg\r\nimage/png\r\n"),
        Some(ReadRequest::Image("image/png".to_string()))
    );
    assert_eq!(read_current("application/x-thing\n"), None);
    assert_eq!(read_current(""), None);
}
