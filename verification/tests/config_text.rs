use herdr_hunks::actions::popup::{popup_sizes_from_text, PopupSize};
use herdr_hunks::engine::Scope;
use herdr_hunks::tui::config::{config_from_text, Config, FilesSetting, ModeSetting};

fn cells(n: i64) -> PopupSize {
    PopupSize::Cells(n)
}

fn percent(s: &str) -> PopupSize {
    PopupSize::Percent(s.to_string())
}

#[test]
fn defaults_when_the_file_is_missing() {
    // A missing file reads as no text at all.
    let (config, problems) = config_from_text("");
    assert_eq!(
        (config.mode, config.files, config.mouse),
        (ModeSetting::Auto, FilesSetting::Auto, true)
    );
    assert!(problems.is_empty());
}

#[test]
fn one_bad_value_costs_one_key() {
    let (config, problems) =
        config_from_text("[view]\nmode = \"sideways\"\nfiles = \"pinned\"\n[input]\nmouse = false\n");
    assert_eq!(
        (config.mode, config.files, config.mouse),
        (ModeSetting::Auto, FilesSetting::Pinned, false)
    );
    assert_eq!(problems.len(), 1);
    assert!(problems[0].contains("view.mode"));
}

#[test]
fn unparseable_toml_falls_back_entirely() {
    let (config, problems) = config_from_text("[view\n");
    assert!(config.mouse && problems.len() == 1);
    assert!(problems[0].starts_with("config.toml:"));
}

#[test]
fn wrong_types_fall_back_per_key_and_read_errors_are_reported() {
    let (config, problems) =
        config_from_text("[view]\nmode = 12\nfiles = false\n[input]\nmouse = 'yes'\n");
    assert_eq!(config, Config::default());
    assert_eq!(problems.len(), 3);
}

#[test]
fn scope_and_base_keys_are_parsed_and_bad_values_cost_only_their_key() {
    let (config, problems) = config_from_text("[view]\nscope = \"branch\"\n[base]\nref = \"origin/main\"\n");
    assert_eq!(
        (config.scope, config.base.as_deref()),
        (Scope::Branch, Some("origin/main"))
    );
    assert!(problems.is_empty());
    let (config, problems) = config_from_text("[view]\nscope = \"both\"\n[base]\nref = \"-x\"\n");
    assert_eq!((config.scope, config.base), (Scope::Worktree, None));
    assert_eq!(problems.len(), 2);
    assert!(
        problems[0].starts_with("view.scope: ") && problems[1].starts_with("base.ref: "),
        "{problems:?}"
    );
    assert_eq!(config_from_text("").0.scope, Scope::Worktree);
}

#[test]
fn a_refused_mode_names_the_value_it_got() {
    let (_, problems) = config_from_text("[view]\nmode = \"sideways\"\n");
    assert_eq!(problems.len(), 1);
    assert!(problems[0].starts_with("view.mode: "), "{problems:?}");
    assert!(problems[0].contains("\"sideways\""), "{problems:?}");
}

#[test]
fn popup_sizes_validate_each_key_and_keep_the_valid_neighbor() {
    for (value, expected, errors) in [
        ("20", cells(20), 0),
        ("2000", cells(2000), 0),
        ("\"20%\"", percent("20%"), 0),
        ("\"100%\"", percent("100%"), 0),
        ("19", percent("80%"), 1),
        ("-1", percent("80%"), 1),
        ("20.0", percent("80%"), 1),
        ("true", percent("80%"), 1),
        ("[]", percent("80%"), 1),
        ("{}", percent("80%"), 1),
        ("\"19%\"", percent("80%"), 1),
        ("\"101%\"", percent("80%"), 1),
        ("65535", cells(65535), 0),
        ("65536", percent("80%"), 1),
        ("\"080%\"", percent("80%"), 1),
        ("\"+50%\"", percent("80%"), 1),
        ("\" 50%\"", percent("80%"), 1),
        ("\"50\"", percent("80%"), 1),
    ] {
        for key in ["width", "height"] {
            let other = if key == "width" { "height" } else { "width" };
            let text = format!("[popup]\n{key}={value}\n{other}=24\n");
            let (sizes, problems) = popup_sizes_from_text(&text);
            let i = usize::from(key == "height");
            assert_eq!(sizes[i], expected, "{key}={value}");
            assert_eq!(sizes[1 - i], cells(24));
            assert_eq!(problems.len(), errors);
            if errors > 0 {
                assert!(problems[0].contains(&format!("popup.{key}")));
            }
        }
    }
}

#[test]
fn popup_missing_keys_default_and_broken_files_report_problems() {
    let defaults = [percent("80%"), percent("80%")];
    for (text, errors) in [("", 0), ("[popup]", 0), ("popup=true", 1), ("[popup", 1)] {
        let (sizes, problems) = popup_sizes_from_text(text);
        assert_eq!(sizes, defaults);
        assert_eq!(problems.len(), errors, "{text}");
    }
}

#[test]
fn a_refused_popup_size_says_what_is_used_instead() {
    let (sizes, problems) = popup_sizes_from_text("[popup]\nwidth = \"5%\"\n");
    assert_eq!(sizes, [percent("80%"), percent("80%")]);
    assert_eq!(
        problems,
        vec!["popup.width: expected an integer 20..=65535 or \"20%\"..\"100%\"; using \"80%\"".to_string()]
    );
    let (_, problems) = popup_sizes_from_text("popup = 3");
    assert_eq!(problems, vec!["popup: expected a table".to_string()]);
}
