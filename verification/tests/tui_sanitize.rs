use herdr_hunks::tui::sanitize::sanitize;

#[test]
fn replaces_c0_controls_with_control_pictures() {
    assert_eq!(sanitize("a\x1b[31mb"), "a\u{241b}[31mb");
    assert_eq!(sanitize("x\x00y\x07z"), "x\u{2400}y\u{2407}z");
}

#[test]
fn expands_tabs_to_the_next_multiple_of_eight() {
    assert_eq!(sanitize("\tx"), "        x");
    assert_eq!(sanitize("ab\tx"), "ab      x");
}

#[test]
fn replaces_del_and_c1_with_the_replacement_character() {
    assert_eq!(sanitize("a\x7fb\u{9b}c"), "a\u{fffd}b\u{fffd}c");
}

#[test]
fn strips_a_trailing_newline_only() {
    assert_eq!(sanitize("line\n"), "line");
    assert_eq!(sanitize("a\nb"), "a\u{240a}b");
}

#[test]
fn replaces_bidi_overrides_and_isolates_with_the_replacement_character() {
    for code in (0x202a..=0x202e).chain(0x2066..=0x2069) {
        let control = char::from_u32(code).unwrap();
        assert_eq!(
            sanitize(&format!("a{control}\tx")),
            "a\u{fffd}      x",
            "U+{code:04X} must become a one-cell replacement"
        );
    }
    assert_eq!(
        sanitize("\u{200e}\u{200f}\u{061c}"),
        "\u{200e}\u{200f}\u{061c}"
    );
}

#[test]
fn sanitizing_twice_changes_nothing() {
    for text in ["a\tb\x1b[31m\u{202e}x\r\n", "\t\t\u{7f}\u{85}", "plain", "\r", "cat\u{fe0f}\t!"] {
        let once = sanitize(text);
        assert_eq!(sanitize(&once), once, "{text:?}");
    }
}
