use herdr_hunks::tui::dialog::{render, Panel, Row};
use herdr_hunks::tui::format::width;
use herdr_hunks::tui::style::{Line, Semantic};

fn plain(lines: &[Line]) -> Vec<String> {
    lines
        .iter()
        .map(|l| l.iter().map(|s| s.text.as_str()).collect())
        .collect()
}

fn panel() -> Panel {
    Panel {
        title: "Settings".into(),
        rows: vec![
            Row::Entry {
                label: "sort".into(),
                value: "position".into(),
                enabled: true,
            },
            Row::Entry {
                label: "scope".into(),
                value: "workspace".into(),
                enabled: true,
            },
            Row::Rule,
            Row::Entry {
                label: "interval_ms".into(),
                value: "3000".into(),
                enabled: false,
            },
            Row::Note("needs restart-daemon".into()),
        ],
        footer: "j/k move · ↵ change · esc".into(),
        cursor: Some(1),
        offset: 0,
    }
}

#[test]
fn the_title_and_footer_are_framed() {
    let text = plain(&render(&panel(), 40, 12));
    assert!(
        text[0].starts_with('┌') && text[0].contains("Settings"),
        "{:?}",
        text[0]
    );
    assert!(text.last().unwrap().starts_with('└'), "{:?}", text.last());
    assert!(text.iter().any(|l| l.contains("j/k move")), "{text:?}");
}

#[test]
fn the_cursor_marks_exactly_one_row() {
    for cursor in 0..2 {
        let mut p = panel();
        p.cursor = Some(cursor);
        let marked: Vec<usize> = plain(&render(&p, 40, 12))
            .iter()
            .enumerate()
            .filter(|(_, l)| l.contains('▸'))
            .map(|(i, _)| i)
            .collect();
        assert_eq!(marked.len(), 1, "cursor={cursor}");
    }
}

#[test]
fn values_align_in_a_column() {
    let text = plain(&render(&panel(), 40, 12));
    let column = |needle: &str| {
        text.iter()
            .find_map(|line| line.find(needle).map(|byte| width(&line[..byte])))
            .unwrap_or_else(|| panic!("{needle} missing from {text:?}"))
    };
    assert_eq!(
        column("position"),
        column("workspace"),
        "the value column wandered: {text:?}"
    );
}

#[test]
fn the_value_column_moves_to_fit_the_longest_label() {
    let label = "a label longer than page down";
    let p = Panel {
        title: "Keys".into(),
        rows: vec![
            Row::Entry {
                label: label.into(),
                value: "does a thing".into(),
                enabled: false,
            },
            Row::Entry {
                label: "short".into(),
                value: "also aligned".into(),
                enabled: false,
            },
        ],
        footer: "esc".into(),
        cursor: None,
        offset: 0,
    };
    let text = plain(&render(&p, 60, 8));
    assert!(
        text.iter().any(|line| line.contains(label)),
        "the longest label was truncated: {text:?}"
    );
}

#[test]
fn the_longest_label_keeps_the_minimum_gap() {
    let label = "prune after days";
    let value = "7";
    let p = Panel {
        title: "Settings".into(),
        rows: vec![Row::Entry {
            label: label.into(),
            value: value.into(),
            enabled: true,
        }],
        footer: "esc".into(),
        cursor: None,
        offset: 0,
    };
    let text = plain(&render(&p, 60, 7));
    let line = text
        .iter()
        .find(|line| line.contains(label))
        .unwrap_or_else(|| panic!("the label is missing from {text:?}"));
    let label_start = width(&line[..line.find(label).expect("label")]);
    let value_start = width(&line[..line.find(value).expect("value")]);
    let gap = value_start - label_start - width(label);
    assert!(gap >= 3, "expected at least 3 spaces, got {gap} in {line:?}");
}

#[test]
fn every_line_is_exactly_the_width() {
    for w in [20u16, 33, 40, 60] {
        for line in plain(&render(&panel(), w, 12)) {
            assert_eq!(width(&line), w as usize, "width={w} line={line:?}");
        }
    }
}

#[test]
fn read_only_is_marked_only_where_something_else_is_editable() {
    let mixed = plain(&render(&panel(), 60, 12));
    assert!(
        mixed.iter().any(|l| l.contains("(read-only)")),
        "the daemon interval sits beside editable rows: {mixed:?}"
    );
    let all_locked = Panel {
        title: "Doctor".into(),
        rows: vec![
            Row::Entry {
                label: "✓".into(),
                value: "daemon answering".into(),
                enabled: false,
            },
            Row::Entry {
                label: "✗".into(),
                value: "a script is missing".into(),
                enabled: false,
            },
        ],
        footer: "esc close".into(),
        cursor: Some(0),
        offset: 0,
    };
    let text = plain(&render(&all_locked, 60, 12));
    assert!(
        !text.iter().any(|l| l.contains("(read-only)")),
        "nothing here is editable: {text:?}"
    );
}

#[test]
fn a_long_footer_is_truncated_not_wrapped() {
    let mut p = panel();
    p.footer = "j/k move · ↵ change · s save · r refresh · esc close · q close".into();
    let text = plain(&render(&p, 24, 12));
    assert!(text.iter().all(|l| width(l) == 24), "{text:?}");
}

#[test]
fn a_panel_with_no_cursor_scrolls_and_marks_nothing() {
    let rows: Vec<Row> = (0..30).map(|n| Row::Note(format!("line {n}"))).collect();
    let scrolled = Panel {
        title: "Doctor".into(),
        rows,
        footer: "esc close".into(),
        cursor: None,
        offset: 12,
    };
    let text = plain(&render(&scrolled, 40, 10));
    assert!(text.iter().all(|l| !l.contains('▸')), "nothing to select: {text:?}");
    assert!(text.iter().any(|l| l.contains("line 12")), "starts at the offset: {text:?}");
    assert!(!text.iter().any(|l| l.contains("line 11")), "{text:?}");
}

#[test]
fn a_long_note_wraps_instead_of_being_cut_off() {
    let long = "/Users/winoooops/.local/state/herdr/plugins/herdr-agent-watcher/bin/statusline.sh";
    let p = Panel {
        title: "Doctor".into(),
        rows: vec![Row::Note(long.into())],
        footer: "esc".into(),
        cursor: None,
        offset: 0,
    };
    let text = plain(&render(&p, 40, 12));
    let joined: String = text
        .iter()
        .map(|l| l.trim_matches(['│', ' ']).to_string())
        .collect();
    assert!(joined.contains("statusline.sh"), "the end of the path survived: {text:?}");
    assert!(!joined.contains('…'), "wrapped, not truncated: {text:?}");
}

#[test]
fn the_selected_row_is_reversed_not_only_marked() {
    let lines = render(&panel(), 40, 12);
    let reversed: Vec<_> = lines
        .iter()
        .filter(|line| line.iter().any(|span| span.style.reverse))
        .collect();
    assert_eq!(reversed.len(), 1, "exactly the cursor row");
    let text: String = reversed[0].iter().map(|s| s.text.as_str()).collect();
    assert!(text.contains("scope"), "and it is the row the cursor is on: {text}");
}

#[test]
fn a_warning_is_styled_as_one() {
    let p = Panel {
        title: "Settings".into(),
        rows: vec![Row::Warn("takes effect after restart-daemon".into())],
        footer: "esc".into(),
        cursor: None,
        offset: 0,
    };
    let lines = render(&p, 40, 12);
    assert!(
        lines
            .iter()
            .any(|line| line.iter().any(|span| span.style.semantic == Some(Semantic::Warn))),
        "a warning in body text is a warning said invisibly"
    );
}

#[test]
fn a_short_frame_keeps_the_frame_and_drops_rows() {
    let text = plain(&render(&panel(), 40, 6));
    assert_eq!(text.len(), 6);
    assert!(text[0].starts_with('┌'));
    assert!(text.last().unwrap().starts_with('└'));
}

#[test]
fn every_size_gets_exactly_its_height_and_narrow_panels_are_blank() {
    for height in 0..6u16 {
        let lines = render(&panel(), 30, height);
        assert_eq!(lines.len(), height as usize);
        for line in &lines {
            let w: usize = line.iter().map(|s| width(&s.text)).sum();
            assert_eq!(w, 30);
        }
    }
    let top = plain(&render(&panel(), 30, 1));
    assert!(top[0].starts_with('├'), "{top:?}");
    for w in 0..2u16 {
        let lines = plain(&render(&panel(), w, 4));
        assert_eq!(lines, vec![" ".repeat(w as usize); 4]);
    }
}
