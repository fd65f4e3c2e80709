use toml2lua::validate_string;

#[test]
fn plain_text_is_unchanged() {
    assert_eq!(validate_string(""), "");
    assert_eq!(validate_string("abc 123"), "abc 123");
    assert_eq!(validate_string("{ } [ ] ' , ="), "{ } [ ] ' , =");
}

#[test]
fn each_special_character_gets_its_escape() {
    assert_eq!(validate_string("\n"), "\\n");
    assert_eq!(validate_string("\t"), "\\t");
    assert_eq!(validate_string("\r"), "\\r");
    assert_eq!(validate_string("\\"), "\\\\");
    assert_eq!(validate_string("\""), "\\\"");
}

#[test]
fn escaping_goes_left_to_right() {
    assert_eq!(validate_string("a\nb\tc\rd\\e\"f"), "a\\nb\\tc\\rd\\\\e\\\"f");
    assert_eq!(validate_string("\"\"\n\n"), "\\\"\\\"\\n\\n");
}

#[test]
fn a_backslash_is_doubled_once() {
    assert_eq!(validate_string("\\"), "\\\\");
    assert_eq!(validate_string("\\").len(), 2);
    assert_eq!(validate_string("\\\\"), "\\\\\\\\");
    assert_eq!(validate_string("\\n"), "\\\\n");
    assert_eq!(validate_string("\\\""), "\\\\\\\"");
}

#[test]
fn each_escape_adds_one_character() {
    let text = "a\\b\"c\nd\te\rf";
    let specials = text.chars().filter(|c| "\n\t\r\\\"".contains(*c)).count();
    assert_eq!(specials, 5);
    assert_eq!(validate_string(text).chars().count(), text.chars().count() + specials);
}

#[test]
fn other_control_characters_pass_through() {
    assert_eq!(validate_string("\u{0}\u{7}\u{1b}"), "\u{0}\u{7}\u{1b}");
}

#[test]
fn text_beyond_ascii_is_unchanged() {
    assert_eq!(validate_string("héllo ✓ 日本語"), "héllo ✓ 日本語");
    assert_eq!(validate_string("é\n✓"), "é\\n✓");
}

fn read_back(escaped: &str) -> Option<String> {
    let mut text = String::new();
    let mut chars = escaped.chars();
    while let Some(c) = chars.next() {
        match c {
            '\\' => match chars.next() {
                Some('n') => text.push('\n'),
                Some('t') => text.push('\t'),
                Some('r') => text.push('\r'),
                Some('\\') => text.push('\\'),
                Some('"') => text.push('"'),
                _ => return None,
            },
            '"' | '\n' | '\r' => return None,
            other => text.push(other),
        }
    }
    Some(text)
}

#[test]
fn an_escaped_text_reads_back_as_the_text() {
    let texts = ["", "plain", "\"", "\\", "\n", "\t", "\r", "\\n", "a\"b\\c\nd", "\\\\\"\"", "tab\tend\\"];
    for text in texts {
        let escaped = validate_string(text);
        assert!(!escaped.contains('\n'));
        assert!(!escaped.contains('\r'));
        assert!(!escaped.contains('\t'));
        assert_eq!(read_back(&escaped), Some(text.to_string()));
    }
}

#[test]
fn different_texts_have_different_escapes() {
    assert_ne!(validate_string("\\n"), validate_string("\n"));
    assert_ne!(validate_string("\\\""), validate_string("\""));
    assert_ne!(validate_string("\\\\"), validate_string("\\"));
}
