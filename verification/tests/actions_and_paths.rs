use herdr_hunks::actions::update::{plan_update, UpdatePlan};
use herdr_hunks::actions::update::check_github_install;
use herdr_hunks::actions::reuse::{key, may_reuse, Record};
use herdr_hunks::actions::update::latest_tag;
use herdr_hunks::filesystem::scope::{ensure_within_home, expand_home_with, join, reject_parent_refs};
use herdr_hunks::herdr::api::PaneInfo;
use herdr_hunks::paths::{config_dir, state_dir};

fn record() -> Record {
    Record {
        viewer_pane_id: "w1:p9".into(),
        repo_cwd: "/repo/sub".into(),
        toplevel: "/repo".into(),
    }
}

fn viewer(label: &str, cwd: &str) -> PaneInfo {
    PaneInfo {
        pane_id: "w1:p9".into(),
        label: Some(label.into()),
        cwd: Some(cwd.into()),
        foreground_cwd: None,
    }
}

#[test]
fn reuse_needs_the_same_toplevel_title_and_cwd() {
    assert!(may_reuse(&record(), "/repo", Some(&viewer("Hunks", "/repo/sub"))));
    assert!(!may_reuse(&record(), "/other", Some(&viewer("Hunks", "/repo/sub"))));
    assert!(!may_reuse(&record(), "/repo", Some(&viewer("zsh", "/repo/sub"))));
    assert!(!may_reuse(&record(), "/repo", Some(&viewer("Hunks", "/elsewhere"))));
    assert!(!may_reuse(&record(), "/repo", None));
}

#[test]
fn keys_are_scoped_by_socket_path() {
    assert_ne!(key("/a/herdr.sock", "w1:p1"), key("/b/herdr.sock", "w1:p1"));
    assert_eq!(key("/a/herdr.sock", "w1:p1"), "/a/herdr.sock\u{1f}w1:p1");
}

#[test]
fn picks_the_highest_semver_tag() {
    let out = "aaa\trefs/tags/v0.2.0\nbbb\trefs/tags/v0.10.0\nccc\trefs/tags/v0.9.3\nddd\trefs/tags/v0.10.0^{}\neee\trefs/tags/nightly\n";
    assert_eq!(latest_tag(out).as_deref(), Some("v0.10.0"));
    assert_eq!(latest_tag("eee\trefs/tags/nightly\n"), None);
}

#[test]
fn tags_need_three_numbers_and_a_v_and_windows_line_ends_are_read() {
    let out = "a\trefs/tags/v1.2\r\nb\trefs/tags/v1.2.3.4\r\nc\trefs/tags/1.9.9\r\nd\trefs/tags/v+1.0.0\r\n";
    assert_eq!(latest_tag(out).as_deref(), Some("v+1.0.0"));
    assert_eq!(latest_tag("x\trefs/tags/v99999999999999999999.0.0\n"), None, "a number out of range");
    assert_eq!(latest_tag(""), None);
    assert_eq!(latest_tag("x\trefs/tags/v2.0.0\ny\trefs/tags/v02.0.0"), Some("v02.0.0".into()), "the later of equal versions");
}

#[test]
fn still_rejects_parent_refs() {
    assert!(reject_parent_refs("/tmp/../etc").is_err());
    assert_eq!(
        reject_parent_refs("~/../etc/evil.txt"),
        Err("access denied: path contains parent traversal segments: ~/../etc/evil.txt".to_string())
    );
    assert_eq!(reject_parent_refs("/tmp/..x/a...b"), Ok(()));
}

#[test]
fn accepts_a_canonical_path_outside_home() {
    assert!(ensure_within_home("/tmp", "/home/user").is_ok());
    assert_eq!(ensure_within_home("tmp", "/home/user"), Err("path is not absolute: tmp".to_string()));
}

#[test]
fn still_expands_tilde() {
    assert_eq!(expand_home_with("~/x", Some("/home/user".into())), "/home/user/x");
    assert_eq!(expand_home_with("~", Some("/home/user".into())), "/home/user");
    assert_eq!(expand_home_with("~x", Some("/home/user".into())), "~x");
    assert_eq!(expand_home_with("~/x", None), "~/x");
    assert_eq!(join("/home/user/", "x"), "/home/user/x");
    assert_eq!(join("/home/user", "/abs"), "/abs");
}

#[test]
fn absent_empty_and_relative_directories_are_unset() {
    for value in [None, Some(""), Some("relative/path")] {
        assert_eq!(config_dir(value, value, value), None);
        assert_eq!(state_dir(value, value, value), None);
    }
    assert_eq!(state_dir(None, Some("relative/state"), None), None);
}

#[test]
fn absolute_directories_follow_plugin_xdg_then_home_precedence() {
    for (plugin, xdg, expected_config, expected_state) in [
        ("/plugin", "/xdg", "/plugin", "/plugin"),
        ("relative", "/xdg", "/xdg/herdr-hunks", "/xdg/herdr-hunks"),
        ("", "relative", "/home/user/.config/herdr-hunks", "/home/user/.local/state/herdr-hunks"),
    ] {
        assert_eq!(config_dir(Some(plugin), Some(xdg), Some("/home/user")), Some(expected_config.to_string()));
        assert_eq!(state_dir(Some(plugin), Some(xdg), Some("/home/user")), Some(expected_state.to_string()));
    }
}

#[test]
fn only_newer_releases_are_installed() {
    let out = "a\trefs/tags/v0.1.0\nb\trefs/tags/v0.2.0\nc\trefs/tags/v0.2.0^{}\n";
    assert_eq!(plan_update(out, "0.1.5"), Ok(UpdatePlan::Install("v0.2.0".to_string())));
    assert_eq!(plan_update(out, "0.2.0"), Ok(UpdatePlan::UpToDate));
    assert_eq!(plan_update(out, "1.0.0"), Ok(UpdatePlan::UpToDate));
    assert_eq!(
        plan_update("a\trefs/tags/latest\n", "0.1.0"),
        Err("no release tags found (expected vMAJOR.MINOR.PATCH)".to_string())
    );
    assert_eq!(plan_update(out, "0.1"), Err("invalid running version".to_string()));
}

#[test]
fn only_a_github_install_is_updated() {
    let list = br#"{"result":{"plugins":[{"plugin_id":"a.hunks","source":{"kind":"linked"}},{"plugin_id":"b.hunks","source":{"kind":"github"}}]}}"#;
    assert_eq!(check_github_install(list, "b.hunks"), Ok(()));
    let refused = Err(
        "update requires a GitHub install; linked or unknown installs must be updated locally".to_string(),
    );
    assert_eq!(check_github_install(list, "a.hunks"), refused);
    assert_eq!(check_github_install(list, "c.hunks"), refused);
    assert!(check_github_install(b"not json", "b.hunks").is_err());
}

#[test]
fn a_split_records_the_toplevel_git_names_or_its_directory() {
    assert_eq!(herdr_hunks::actions::reuse::toplevel_from(Some("/repo\n"), "/repo/sub"), "/repo");
    assert_eq!(herdr_hunks::actions::reuse::toplevel_from(Some(" \n"), "/repo/sub"), "/repo/sub");
    assert_eq!(herdr_hunks::actions::reuse::toplevel_from(None, "/repo/sub"), "/repo/sub");
    let record = herdr_hunks::actions::reuse::opened_record(Some("w1:p2".into()), "/repo/sub", "/repo".into());
    assert_eq!(
        record,
        Some(Record { viewer_pane_id: "w1:p2".into(), repo_cwd: "/repo/sub".into(), toplevel: "/repo".into() })
    );
    assert_eq!(herdr_hunks::actions::reuse::opened_record(None, "/repo", "/repo".into()), None);
}
