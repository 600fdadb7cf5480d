use pastel::gvariant::{format_list, parse_list};

#[test]
fn gvariant_lists_round_trip() {
    assert!(parse_list("@as []").is_empty());
    let items = parse_list("['<Super>v', '<Super>m']");
    assert_eq!(items, ["<Super>v", "<Super>m"]);
    assert_eq!(format_list(&items), "['<Super>v', '<Super>m']");
    assert_eq!(format_list(&[]), "@as []");
}

#[test]
fn parse_takes_every_other_piece() {
    assert_eq!(parse_list("['a']"), ["a"]);
    assert_eq!(parse_list("['', 'b']"), ["", "b"]);
    assert_eq!(parse_list("x'y"), ["y"]);
    assert!(parse_list("").is_empty());
}

#[test]
fn format_then_parse_gives_the_items() {
    let items = vec![
        "/org/a/".to_string(),
        String::new(),
        "with space, and comma".to_string(),
    ];
    let text = format_list(&items);
    assert_eq!(text, "['/org/a/', '', 'with space, and comma']");
    assert_eq!(parse_list(&text), items);
    let one = vec!["x".to_string()];
    assert_eq!(format_list(&one), "['x']");
}
