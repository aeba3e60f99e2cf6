use herdr_hunks::tui::guard::{exit_steps, step_output, terminal_is_gone, ExitStep, MouseCapture};

fn exit_output(capture: &MouseCapture) -> (String, Vec<ExitStep>) {
    let steps = exit_steps(capture);
    let output = steps.iter().map(|s| step_output(*s)).collect::<String>();
    (output, steps)
}

#[test]
fn dropping_the_terminal_guard_leaves_the_screen_and_raw_mode() {
    let (output, steps) = exit_output(&MouseCapture::new());
    assert_eq!(output.as_bytes(), b"\x1b[?1049l", "alternate screen was not left");
    assert!(steps.contains(&ExitStep::DisableRawMode), "raw mode was not disabled");
}

#[test]
fn a_tty_hangup_is_not_readable_input() {
    assert!(terminal_is_gone(libc::POLLHUP));
    assert!(!terminal_is_gone(libc::POLLIN));
    assert!(terminal_is_gone(libc::POLLERR | libc::POLLIN));
    assert!(terminal_is_gone(libc::POLLNVAL));
}

#[test]
fn drop_disables_capture_before_leaving_the_alternate_screen() {
    let mut capture = MouseCapture::new();
    capture.enabling();
    let (bytes, _) = exit_output(&capture);
    let disable = bytes.find("?1000l").expect("disable-capture bytes");
    let leave = bytes.find("?1049l").expect("leave-alternate-screen bytes");
    assert!(disable < leave, "capture off strictly before leave-alt");
}

#[test]
fn drop_without_capture_never_emits_a_disable() {
    let (bytes, _) = exit_output(&MouseCapture::new());
    assert!(!bytes.contains("?1000l"));
    assert!(bytes.contains("?1049l"));
}

#[test]
fn a_failed_disable_still_disables_on_exit() {
    let mut capture = MouseCapture::new();
    capture.enabling();
    capture.disabled(false);
    assert_eq!(
        exit_steps(&capture),
        vec![ExitStep::DisableMouseCapture, ExitStep::LeaveAlternateScreen, ExitStep::DisableRawMode]
    );
    capture.disabled(true);
    assert_eq!(exit_steps(&capture), vec![ExitStep::LeaveAlternateScreen, ExitStep::DisableRawMode]);
}
