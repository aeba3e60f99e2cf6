use herdr_hunks::actions::popup::PopupSize;
use herdr_hunks::actions::{open_directory, open_params, opened_from_viewer, Placement, VIEWER_TITLE};
use herdr_hunks::herdr::api::PaneInfo;
use herdr_hunks::herdr::client::{decode_response, HerdrClientError};

fn env_of<'a>(env: &'a [(String, String)], key: &str) -> Option<&'a str> {
    env.iter().find(|(k, _)| k == key).map(|(_, v)| v.as_str())
}

fn pane(label: Option<&str>, cwd: Option<&str>, foreground_cwd: Option<&str>) -> PaneInfo {
    PaneInfo {
        pane_id: "w1:p1".to_string(),
        label: label.map(str::to_string),
        cwd: cwd.map(str::to_string),
        foreground_cwd: foreground_cwd.map(str::to_string),
    }
}

#[test]
fn overlay_params_carry_no_target_or_direction() {
    let p = open_params("test.hunks", Placement::Overlay, Some("w1:p1"), "/repo");
    assert_eq!(p.placement.name(), "overlay");
    assert!(p.target_pane_id.is_none() && p.direction.is_none());
    assert_eq!(p.cwd, "/repo");
    assert_eq!(env_of(&p.env, "HERDR_HUNKS_OPENER_PANE"), Some("w1:p1"));
    assert_eq!(p.entrypoint, "viewer");
    assert!(p.focus);
    assert_eq!(env_of(&p.env, "HERDR_HUNKS_PLACEMENT"), None);
}

#[test]
fn split_params_target_the_opener_to_the_right() {
    let p = open_params("test.hunks", Placement::Split, Some("w1:p1"), "/repo");
    assert_eq!(
        (p.placement.name(), p.target_pane_id.as_deref(), p.direction.as_deref()),
        ("split", Some("w1:p1"), Some("right"))
    );
    assert_eq!(env_of(&p.env, "HERDR_HUNKS_PLACEMENT"), Some("split"));
}

#[test]
fn popup_params_default_to_eighty_percent_and_name_their_placement() {
    let p = open_params("test.hunks", Placement::Popup, None, "/repo");
    assert_eq!(p.width, Some(PopupSize::Percent("80%".to_string())));
    assert_eq!(p.height, Some(PopupSize::Percent("80%".to_string())));
    assert_eq!(p.env, vec![("HERDR_HUNKS_PLACEMENT".to_string(), "popup".to_string())]);
    assert!(p.target_pane_id.is_none() && p.direction.is_some() == false);
    assert_eq!(p.plugin_id, "test.hunks");
}

#[test]
fn the_viewer_opens_in_the_foreground_directory_first() {
    let p = pane(None, Some("/shell"), Some("/fg"));
    assert_eq!(open_directory(Some(&p), Some("/ctx"), Some("/ws")).as_deref(), Some("/fg"));
    let p = pane(None, Some("/shell"), None);
    assert_eq!(open_directory(Some(&p), Some("/ctx"), Some("/ws")).as_deref(), Some("/shell"));
    let p = pane(None, None, None);
    assert_eq!(open_directory(Some(&p), Some("/ctx"), Some("/ws")).as_deref(), Some("/ctx"));
    assert_eq!(open_directory(None, None, Some("/ws")).as_deref(), Some("/ws"));
    assert_eq!(open_directory(None, None, None), None);
}

#[test]
fn only_a_pane_titled_as_the_viewer_counts_as_the_viewer() {
    assert!(opened_from_viewer(Some(&pane(Some(VIEWER_TITLE), None, None))));
    assert!(!opened_from_viewer(Some(&pane(Some("Hunks2"), None, None))));
    assert!(!opened_from_viewer(Some(&pane(None, None, None))));
    assert!(!opened_from_viewer(None));
}

#[test]
fn decodes_captured_ping_success() {
    let line = "{\"id\":\"probe-1\",\"result\":{\"type\":\"pong\",\"version\":\"0.5.0\"}}\n";
    let value = decode_response(line).expect("ping decodes as success");
    assert_eq!(value["id"], "probe-1");
}

#[test]
fn error_response_maps_to_api_error() {
    let line = r#"{"id":"x","error":{"code":"unknown_method","message":"nope"}}"#;
    match decode_response(line) {
        Err(HerdrClientError::Api(message)) => {
            assert!(message.contains("unknown_method"));
        }
        other => panic!("expected Api error, got {other:?}"),
    }
}

#[test]
fn malformed_lines_are_decode_errors_with_their_message() {
    match decode_response("not json") {
        Err(e @ HerdrClientError::Decode(_)) => {
            assert!(e.message().starts_with("herdr returned malformed json: "));
        }
        other => panic!("expected Decode error, got {other:?}"),
    }
    let e = HerdrClientError::Connect { path: "/s".to_string(), source: "refused".to_string() };
    assert_eq!(e.message(), "herdr socket unavailable at /s: refused");
}
