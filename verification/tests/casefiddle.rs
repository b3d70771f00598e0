use rune_core::casefiddle::{capitalize, upcase};

#[test]
fn ignore_characters_in_garay_unicode_block() {
    assert_eq!("𐵰", upcase("𐵰"));
    assert_eq!("𐵪", upcase("𐵪"));
}

#[test]
fn garay_block_from_end_to_end() {
    for c in ['\u{10D40}', '\u{10D50}', '\u{10D8F}'] {
        let text = format!("a{}b", c);
        assert_eq!(upcase(&text), format!("A{}B", c));
    }
}

#[test]
fn upcase_of_plain_text() {
    assert_eq!(upcase("hello world"), "HELLO WORLD");
    assert_eq!(upcase(""), "");
    assert_eq!(upcase("Already UP 123"), "ALREADY UP 123");
}

#[test]
fn upcase_of_characters_that_grow() {
    assert_eq!(upcase("straße"), "STRASSE");
    assert_eq!(upcase("ﬁn"), "FIN");
    assert_eq!(upcase("ǆ"), "Ǆ");
}

#[test]
fn upcase_escapes_backslashes_and_quotes() {
    assert_eq!(upcase("a\\b"), "A\\\\B");
    assert_eq!(upcase("say \"hi\""), "SAY \\\"HI\\\"");
    assert_eq!(upcase("\\\""), "\\\\\\\"");
}

#[test]
fn capitalize_hello_world() {
    assert_eq!(capitalize("hello world"), "Hello World");
}

#[test]
fn capitalize_follows_title_case() {
    assert_eq!(
        capitalize("a sample title to capitalize: an example"),
        "A Sample Title to Capitalize: An Example"
    );
    assert_eq!(capitalize(""), "");
    assert_eq!(capitalize("  padded  "), "Padded");
}
