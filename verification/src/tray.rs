//! Window-close policy: the decisions behind the system tray.
//!
//! The tray icon, the windows and the menus are GUI plumbing in the
//! application layer; what is decided here is only the policy — when a
//! close request confirms, hides to the tray, or quits.

use vstd::prelude::*;

use crate::models::Settings;
use crate::sidecar::SidecarManager;

verus! {

/// What a close request should do.
#[derive(Clone, Copy, PartialEq, Eq, Structural, Debug)]
pub enum CloseAction {
    /// A transcription is running: ask the user before anything ends.
    ConfirmClose,
    /// Nothing is running and the tray is enabled: hide the window.
    MinimizeToTray,
    /// Nothing is running and no tray: quit the application.
    Quit,
}

/// Whether minimizing to the tray is enabled.  Settings that could not
/// be loaded mean the default: disabled.
pub fn is_minimize_to_tray_enabled(settings: Option<Settings>) -> (r: bool)
    ensures
        (match settings {
            Some(s) => r == s.minimize_to_tray,
            None => !r,
        }),
{
    match settings {
        Some(s) => s.minimize_to_tray,
        None => false,
    }
}

/// Whether a transcription job is still running.
pub fn has_active_transcription<H>(manager: &SidecarManager<H>) -> (r: bool)
    ensures
        r == (manager.count() > 0),
{
    manager.active_job_count() > 0
}

/// Whether closing must first be confirmed: exactly when a
/// transcription is still running.
pub fn should_confirm_close<H>(manager: &SidecarManager<H>) -> (r: bool)
    ensures
        r == (manager.count() > 0),
{
    has_active_transcription(manager)
}

/// Decide what a close request does: confirmation wins over the tray,
/// the tray over quitting.
pub fn close_requested_action(has_active_jobs: bool, minimize_to_tray: bool) -> (r: CloseAction)
    ensures
        has_active_jobs ==> r == CloseAction::ConfirmClose,
        !has_active_jobs && minimize_to_tray ==> r == CloseAction::MinimizeToTray,
        !has_active_jobs && !minimize_to_tray ==> r == CloseAction::Quit,
{
    if has_active_jobs {
        CloseAction::ConfirmClose
    } else if minimize_to_tray {
        CloseAction::MinimizeToTray
    } else {
        CloseAction::Quit
    }
}

} // verus!
