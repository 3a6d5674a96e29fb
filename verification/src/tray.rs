//! What the tray icon offers, mirrored from the session's phase.
use vstd::prelude::*;

verus! {

/// A request from the tray or from another instance of the program.
#[derive(Clone, Copy, Debug, PartialEq, Eq)]
pub enum Action {
    Show,
    Start,
    Direct,
    Quit,
    /// The tray host went away (StatusNotifier on Linux): keep the window visible.
    Offline,
    /// The tray host is back.
    Online,
}

/// The tray's label and which of its entries are enabled.
#[derive(Clone, Copy, Debug, PartialEq, Eq)]
pub struct State {
    pub label: &'static str,
    pub can_start: bool,
    pub can_direct: bool,
}

/// The label, "start" and "go direct" entries for a session phase: an error
/// first, then the direct route, the warm-up, a session starting, and idle.
pub open spec fn tray_state(active: bool, warming: bool, direct: bool, error: bool) -> (Seq<char>, bool, bool) {
    if error {
        ("Erro — abra o RelayHop"@, true, false)
    } else if direct {
        ("Conexão direta"@, false, false)
    } else if warming {
        ("Pelo Tor — aguarde carregar"@, false, true)
    } else if active {
        ("Conectando…"@, false, false)
    } else {
        ("Pronto"@, true, false)
    }
}

/// The tray state for a session phase.
pub fn state_for(active: bool, warming: bool, direct: bool, error: bool) -> (r: State)
    ensures
        (r.label@, r.can_start, r.can_direct) == tray_state(active, warming, direct, error),
{
    if error {
        State { label: "Erro — abra o RelayHop", can_start: true, can_direct: false }
    } else if direct {
        State { label: "Conexão direta", can_start: false, can_direct: false }
    } else if warming {
        State { label: "Pelo Tor — aguarde carregar", can_start: false, can_direct: true }
    } else if active {
        State { label: "Conectando…", can_start: false, can_direct: false }
    } else {
        State { label: "Pronto", can_start: true, can_direct: false }
    }
}

/// What the tray says and offers, phase by phase: an error is shown first and
/// lets the user start again; then the direct route; the warm-up, the only
/// phase that offers the switch; a starting session, which offers nothing; and
/// idle, which offers a start.
pub proof fn lemma_tray_phases(active: bool, warming: bool, direct: bool, error: bool)
    ensures
        error ==> tray_state(active, warming, direct, error) == ("Erro — abra o RelayHop"@, true, false),
        !error && direct ==> tray_state(active, warming, direct, error) == ("Conexão direta"@, false, false),
        !error && !direct && warming ==> tray_state(active, warming, direct, error) == (
            "Pelo Tor — aguarde carregar"@,
            false,
            true,
        ),
        !error && !direct && !warming && active ==> tray_state(active, warming, direct, error) == (
            "Conectando…"@,
            false,
            false,
        ),
        !error && !direct && !warming && !active ==> tray_state(active, warming, direct, error) == (
            "Pronto"@,
            true,
            false,
        ),
        tray_state(active, warming, direct, error).2 ==> !tray_state(active, warming, direct, error).1,
{
}

} // verus!
