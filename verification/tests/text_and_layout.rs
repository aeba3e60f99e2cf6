use herdr_hunks::text::sanitize;
use herdr_hunks::tui::layout::{clamp_scroll, ensure_visible, reanchor, LineSpan};

#[test]
fn diagnostics_replace_controls_except_tab_and_preserve_printable_unicode() {
    for code in (0..=0x1f).chain(0x7f..=0x9f) {
        let control = char::from_u32(code).unwrap();
        let expected = if control == '\t' { '\t' } else { '\u{fffd}' };
        assert_eq!(sanitize(&format!("a{control}b")), format!("a{expected}b"));
    }
    assert_eq!(sanitize("é 猫\tplain"), "é 猫\tplain");
    assert_eq!(
        sanitize("host\x1b[31m\nerror"),
        "host\u{fffd}[31m\u{fffd}error"
    );
}

#[test]
fn clamp_keeps_the_last_page_reachable_past_u16() {
    assert_eq!(clamp_scroll(150_000, 100_000, 40), 99_960);
    assert_eq!(clamp_scroll(70_000, 100_000, 40), 70_000);
    assert_eq!(clamp_scroll(5, 10, 40), 0);
}

#[test]
fn ensure_visible_scrolls_the_minimum() {
    let span = |start| LineSpan { start, height: 1 };
    assert_eq!(ensure_visible(0, span(90_000), 40, 100_000), 89_961);
    assert_eq!(ensure_visible(89_961, span(89_970), 40, 100_000), 89_961);
    assert_eq!(ensure_visible(89_961, span(10), 40, 100_000), 10);
}

#[test]
fn reanchor_keeps_the_viewport_row() {
    // the cursor sat on viewport row 7 (row 107 with offset 100); it is now row 250
    assert_eq!(reanchor(100, 107, 250, 40, 100_000), 243);
    assert_eq!(reanchor(100, 107, 3, 40, 100_000), 0);
}
