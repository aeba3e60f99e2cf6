use herdr_hunks::tui::shell::{config_notice, problem_log_text, ProblemLog};
use herdr_hunks::tui::style::{term_style, Rgb, Role, Semantic, Style, TermColor, TermStyle};
use herdr_hunks::engine::nav::ViewMode;
use herdr_hunks::engine::Scope;
use herdr_hunks::tui::config::{Config, FilesSetting, ModeSetting};
use herdr_hunks::tui::guard::{mouse_transition, MouseCapture};
use herdr_hunks::tui::shell::initial_state;
use herdr_hunks::tui::state::FilesPanel;

#[test]
fn settings_resolve_at_the_width_thresholds() {
    for (width, mode, files) in [
        (99, ViewMode::Unified, FilesPanel::Hidden),
        (100, ViewMode::Unified, FilesPanel::Pinned),
        (119, ViewMode::Unified, FilesPanel::Pinned),
        (120, ViewMode::Split, FilesPanel::Pinned),
    ] {
        let state = initial_state(&Config::default(), width);
        assert_eq!((state.mode, state.files_panel, state.mouse_requested), (mode, files, true));
    }
    let config = Config {
        mode: ModeSetting::Split,
        files: FilesSetting::Hidden,
        mouse: false,
        ..Config::default()
    };
    let mut state = initial_state(&config, 99);
    assert_eq!(
        (state.mode, state.files_panel, state.mouse_requested),
        (ViewMode::Unified, FilesPanel::Hidden, false)
    );
    assert!(state.notice.as_deref().unwrap().contains("100 columns"));
    assert_eq!(state.requested_mode, ViewMode::Split);
    state.resize(120, 10);
    assert_eq!(state.mode, ViewMode::Split);
    assert_eq!(initial_state(&config, 100).mode, ViewMode::Split);
    let config = Config {
        mode: ModeSetting::Unified,
        files: FilesSetting::Pinned,
        mouse: true,
        ..Config::default()
    };
    assert_eq!(initial_state(&config, 120).mode, ViewMode::Unified);
    assert_eq!(initial_state(&config, 40).files_panel, FilesPanel::Pinned);
}

#[test]
fn the_default_settings_are_auto_with_mouse_in_worktree_scope() {
    let config = Config::default();
    assert_eq!(config.mode, ModeSetting::Auto);
    assert_eq!(config.files, FilesSetting::Auto);
    assert!(config.mouse);
    assert_eq!(config.scope, Scope::Worktree);
    assert_eq!(config.base, None);
}

#[test]
fn the_reconciler_attempts_once_per_requested_change() {
    assert_eq!(mouse_transition(true, None), Some(true));
    assert_eq!(mouse_transition(false, None), Some(false));
    assert_eq!(mouse_transition(true, Some(true)), None);
    assert_eq!(mouse_transition(false, Some(false)), None);
    assert_eq!(mouse_transition(false, Some(true)), Some(false));
    assert_eq!(mouse_transition(true, Some(false)), Some(true));
}

#[test]
fn the_conservative_flag_survives_failures_and_never_short_circuits() {
    let mut capture = MouseCapture::new();
    assert!(!capture.needs_disable_on_exit());
    // A failed enable still marks "may be applied".
    capture.enabling();
    assert!(capture.applied, "flag set before the attempt");
    // A failed disable does not clear it.
    capture.disabled(false);
    assert!(capture.applied, "cleared only after a successful disable");
    assert!(capture.needs_disable_on_exit());
    // A successful disable finally clears it.
    capture.disabled(true);
    assert!(!capture.applied);
    assert!(!capture.needs_disable_on_exit());
}

#[test]
fn config_problems_are_counted_in_the_opening_notice() {
    assert_eq!(config_notice(0, &ProblemLog::Written), None);
    assert_eq!(
        config_notice(2, &ProblemLog::Written).as_deref(),
        Some("config: 2 problem(s), see config-problems.log")
    );
    assert_eq!(
        config_notice(1, &ProblemLog::NoDirectory).as_deref(),
        Some("config: 1 problem(s); no state directory for the log")
    );
    assert_eq!(
        config_notice(12, &ProblemLog::Failed("denied".to_string())).as_deref(),
        Some("config: 12 problem(s); cannot write config-problems.log: denied")
    );
    let problems = vec!["view.mode: x".to_string(), "input.mouse: y".to_string()];
    assert_eq!(problem_log_text(&problems), "view.mode: x\ninput.mouse: y\n");
    assert_eq!(problem_log_text(&Vec::new()), "");
}

#[test]
fn styles_use_named_colours_and_preserve_dim_bold_and_reverse() {
    for (semantic, color) in [
        (Semantic::Good, TermColor::Green),
        (Semantic::Bad, TermColor::Red),
        (Semantic::Accent, TermColor::Cyan),
        (Semantic::Warn, TermColor::Yellow),
    ] {
        let mapped = term_style(&Style {
            role: Role::Emphasis,
            semantic: Some(semantic),
            reverse: true,
            rgb: Some(Rgb { red: 1, green: 2, blue: 3 }),
            ansi: Some(5),
        });
        assert_eq!(mapped.fg, Some(color));
        assert!(mapped.bold && mapped.reversed);
    }
    for role in [Role::Label, Role::Rule] {
        assert!(term_style(&Style::role(role)).dim);
    }
    assert_eq!(
        term_style(&Style::default()),
        TermStyle { fg: None, dim: false, bold: false, reversed: false }
    );
}
