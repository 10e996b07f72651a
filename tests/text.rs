use api_club_bot::text::{normalize_whitespace, same_text, sanitize};

#[test]
fn sanitize_collapses_and_quotes() {
    assert_eq!(sanitize("  Artist   With   Spaces  "), "\"Artist With Spaces\"");
}

#[test]
fn sanitize_doubles_inner_quotes() {
    assert_eq!(sanitize("He said \"hi\""), "\"He said \"\"hi\"\"\"");
}

#[test]
fn sanitize_empty_and_blank() {
    assert_eq!(sanitize(""), "\"\"");
    assert_eq!(sanitize(" \t\n "), "\"\"");
}

#[test]
fn normalize_handles_unicode_whitespace() {
    assert_eq!(normalize_whitespace("a\u{3000}\u{a0} b\t\r\nc"), "a b c");
}

#[test]
fn normalize_is_idempotent_on_examples() {
    for x in ["  a  b  ", "x\n\ny", "", "one", " \u{2028} lead and trail \u{85}"] {
        let once = normalize_whitespace(x);
        let twice = normalize_whitespace(&once);
        assert_eq!(once, twice);
    }
}

#[test]
fn sanitizing_normalized_content_gives_same_field() {
    let x = "  Daft   Punk ";
    let field = sanitize(x);
    let content = normalize_whitespace(x);
    assert_eq!(sanitize(&content), field);
}

#[test]
fn same_text_compares_characters() {
    assert!(same_text("/cancel", "/cancel"));
    assert!(!same_text("/cancel", "/cancel "));
    assert!(!same_text("", "a"));
}
