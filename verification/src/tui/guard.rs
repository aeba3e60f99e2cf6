//! Mouse capture as the terminal guard tracks it, and what leaving the terminal writes.
use vstd::prelude::*;

use crossterm::Command;

verus! {

/// One attempt per change of the requested value, keyed on the request: never on the
/// guard's conservative flag, which diverges forever after a failed disable and would retry
/// every tick.
pub fn mouse_transition(requested: bool, last_attempted: Option<bool>) -> (r: Option<bool>)
    ensures
        r == if last_attempted == Some(requested) {
            None
        } else {
            Some(requested)
        },
{
    match last_attempted {
        Some(last) if last == requested => None,
        _ => Some(requested),
    }
}

/// Whether mouse capture may be applied to the terminal. Conservative: set before an enable
/// is attempted, cleared only after a disable succeeded, so a failure never hides capture
/// that may have been left on.
#[derive(Debug, Clone, Copy, PartialEq, Eq, Structural)]
pub struct MouseCapture {
    pub applied: bool,
}

impl MouseCapture {
    pub fn new() -> (r: Self)
        ensures
            !r.applied,
    {
        MouseCapture { applied: false }
    }

    /// Before an enable is written: from here on capture may be applied, whatever the write
    /// then reports.
    pub fn enabling(&mut self)
        ensures
            final(self).applied,
    {
        self.applied = true;
    }

    /// After a disable was written: capture is off only if the write succeeded.
    pub fn disabled(&mut self, succeeded: bool)
        ensures
            final(self).applied == (old(self).applied && !succeeded),
    {
        if succeeded {
            self.applied = false;
        }
    }

    /// Whether leaving the terminal must write a disable first: exactly when capture may be
    /// applied.
    pub fn needs_disable_on_exit(&self) -> (r: bool)
        ensures
            r == self.applied,
    {
        self.applied
    }
}

/// What leaving the terminal does, in the order it is done.
#[derive(Debug, Clone, Copy, PartialEq, Eq, Structural)]
pub enum ExitStep {
    DisableMouseCapture,
    LeaveAlternateScreen,
    DisableRawMode,
}

/// The steps of leaving the terminal: capture off strictly first where it may be applied,
/// since leaking capture into the user's shell is the worst failure mouse support can add;
/// then the alternate screen is left and raw mode is turned off.
pub fn exit_steps(capture: &MouseCapture) -> (r: Vec<ExitStep>)
    ensures
        r@ == if capture.applied {
            seq![ExitStep::DisableMouseCapture, ExitStep::LeaveAlternateScreen, ExitStep::DisableRawMode]
        } else {
            seq![ExitStep::LeaveAlternateScreen, ExitStep::DisableRawMode]
        },
{
    let mut steps: Vec<ExitStep> = Vec::new();
    if capture.needs_disable_on_exit() {
        steps.push(ExitStep::DisableMouseCapture);
    }
    steps.push(ExitStep::LeaveAlternateScreen);
    steps.push(ExitStep::DisableRawMode);
    steps
}

pub open spec fn disable_capture_bytes() -> Seq<char> {
    "\x1b[?1006l\x1b[?1015l\x1b[?1003l\x1b[?1002l\x1b[?1000l"@
}

pub open spec fn leave_screen_bytes() -> Seq<char> {
    "\x1b[?1049l"@
}

/// What a step writes to the terminal; turning raw mode off is a call, not a write.
pub open spec fn step_text(step: ExitStep) -> Seq<char> {
    match step {
        ExitStep::DisableMouseCapture => disable_capture_bytes(),
        ExitStep::LeaveAlternateScreen => leave_screen_bytes(),
        ExitStep::DisableRawMode => Seq::<char>::empty(),
    }
}

/// `crossterm::event::DisableMouseCapture` written as ANSI: the five mouse modes that
/// enabling turns on, turned off in reverse order.
#[verifier::external_body]
fn disable_capture_ansi() -> (r: String)
    ensures
        r@ == disable_capture_bytes(),
{
    let mut out = String::new();
    let _ = crossterm::event::DisableMouseCapture.write_ansi(&mut out);
    out
}

/// `crossterm::terminal::LeaveAlternateScreen` written as ANSI: `CSI ?1049l`.
#[verifier::external_body]
fn leave_screen_ansi() -> (r: String)
    ensures
        r@ == leave_screen_bytes(),
{
    let mut out = String::new();
    let _ = crossterm::terminal::LeaveAlternateScreen.write_ansi(&mut out);
    out
}

/// The text that a step of leaving the terminal writes.
pub fn step_output(step: ExitStep) -> (r: String)
    ensures
        r@ == step_text(step),
{
    match step {
        ExitStep::DisableMouseCapture => disable_capture_ansi(),
        ExitStep::LeaveAlternateScreen => leave_screen_ansi(),
        ExitStep::DisableRawMode => String::new(),
    }
}

/// `libc::POLLHUP`: the peer hung up (Linux value).
#[verifier::external_body]
fn poll_hup() -> (r: i16)
    ensures
        r == 0x10,
{
    libc::POLLHUP
}

/// `libc::POLLERR`: an error condition (Linux value).
#[verifier::external_body]
fn poll_err() -> (r: i16)
    ensures
        r == 0x8,
{
    libc::POLLERR
}

/// `libc::POLLNVAL`: the descriptor is not open (Linux value).
#[verifier::external_body]
fn poll_nval() -> (r: i16)
    ensures
        r == 0x20,
{
    libc::POLLNVAL
}

/// Whether the events that `poll` returned for the terminal say it is gone: hung up, in
/// error, or closed. Readable input alone is not.
pub fn terminal_is_gone(revents: i16) -> (r: bool)
    ensures
        r == (revents & (0x10i16 | 0x8i16 | 0x20i16) != 0),
{
    let gone = poll_hup() | poll_err() | poll_nval();
    revents & gone != 0
}

} // verus!
