//! Which display backend the window uses on Linux.
//!
//! winit picks Wayland whenever it is available, but a Wayland window cannot be
//! hidden or un-minimized, so it could not collapse to the tray; XWayland can.
use vstd::prelude::*;

verus! {

/// What the launcher does about the display backend.
#[derive(Clone, Copy, Debug, PartialEq, Eq)]
pub enum BackendChoice {
    /// Keep the environment as it is.
    Native,
    /// Wayland runs without a usable X server: keep native Wayland, where the
    /// tray works but closing may not hide the window.
    XWaylandUnavailable,
    /// Save the Wayland variables for Discord, then remove them so that the
    /// window uses XWayland.
    UseXWayland,
}

/// The choice: native when the user asked to keep Wayland (`RELAYHOP_WAYLAND`)
/// or no Wayland variable is set; XWayland when `DISPLAY` is set and an X11
/// socket exists; otherwise native, noting that XWayland is missing.
pub open spec fn backend_choice_spec(
    keep_wayland: bool,
    wayland_present: bool,
    display_set: bool,
    x11_socket_present: bool,
) -> BackendChoice {
    if keep_wayland || !wayland_present {
        BackendChoice::Native
    } else if !(display_set && x11_socket_present) {
        BackendChoice::XWaylandUnavailable
    } else {
        BackendChoice::UseXWayland
    }
}

pub fn backend_choice(
    keep_wayland: bool,
    wayland_present: bool,
    display_set: bool,
    x11_socket_present: bool,
) -> (r: BackendChoice)
    ensures
        r == backend_choice_spec(keep_wayland, wayland_present, display_set, x11_socket_present),
{
    if keep_wayland || !wayland_present {
        BackendChoice::Native
    } else if !(display_set && x11_socket_present) {
        BackendChoice::XWaylandUnavailable
    } else {
        BackendChoice::UseXWayland
    }
}

/// The window leaves native Wayland for XWayland exactly when Wayland is
/// present, the user did not ask to keep it, and an X server is reachable
/// (`DISPLAY` set and an X11 socket present); the environment is left alone
/// whenever Wayland is absent or kept.
pub proof fn lemma_backend_choice(keep: bool, wayland: bool, display: bool, socket: bool)
    ensures
        backend_choice_spec(keep, wayland, display, socket) == BackendChoice::UseXWayland <==> (!keep
            && wayland && display && socket),
        keep || !wayland ==> backend_choice_spec(keep, wayland, display, socket)
            == BackendChoice::Native,
        backend_choice_spec(keep, wayland, display, socket) == BackendChoice::XWaylandUnavailable
            <==> (!keep && wayland && !(display && socket)),
{
}

} // verus!
