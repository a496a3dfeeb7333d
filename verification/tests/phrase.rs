use wherever::phrase::{discovery_code, discovery_words, format_phrase, parse_phrase};

#[test]
fn format_phrase_lowercases_and_drops_separators() {
    assert_eq!(format_phrase("Apple-Banana_cherry Date"), "applebananacherrydate");
    assert_eq!(format_phrase(""), "");
    assert_eq!(format_phrase("ÄB"), "Äb");
}

#[test]
fn format_phrase_is_idempotent() {
    let once = format_phrase("Some-Words_Here ok");
    assert_eq!(format_phrase(&once), once);
}

#[test]
fn separators_do_not_matter() {
    assert_eq!(format_phrase("ab-cd"), format_phrase("abcd"));
    assert_eq!(format_phrase("ab cd"), format_phrase("ab_cd"));
}

#[test]
fn parse_phrase_splits_at_first_dash() {
    assert_eq!(parse_phrase("12-Foo-Bar"), Some(("12", "foobar".to_string())));
    assert_eq!(parse_phrase("abc-"), Some(("abc", String::new())));
    assert_eq!(parse_phrase("-x"), Some(("", "x".to_string())));
    assert_eq!(parse_phrase("nodash"), None);
}

#[test]
fn parse_inverts_code() {
    let words = discovery_words("Alpha", "beta", "Gamma");
    assert_eq!(words, "Alpha-beta-Gamma");
    let code = discovery_code("42", &words);
    assert_eq!(code, "42-Alpha-beta-Gamma");
    assert_eq!(parse_phrase(&code), Some(("42", format_phrase(&words))));
    assert_eq!(parse_phrase(&code).unwrap().1, "alphabetagamma");
}
