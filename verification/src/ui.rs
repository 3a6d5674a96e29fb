//! What the window shows of a session: the status line and the phase, kept up
//! to date from the session's events.
use vstd::prelude::*;

use crate::session::Event;
use crate::tray::{state_for, Action, State};

verus! {

/// The window's view of a session.
pub struct SessionView {
    pub status: String,
    pub active: bool,
    pub warming: bool,
    pub direct: bool,
    pub deadline: Option<std::time::Instant>,
    pub error: bool,
}

/// The phase shown as steps: 0 ready, 1 Tor, 2 Discord, 3 direct.
pub open spec fn phase_of(active: bool, warming: bool, direct: bool) -> nat {
    if direct {
        3
    } else if warming {
        2
    } else if active {
        1
    } else {
        0
    }
}

impl SessionView {
    /// The view before any session.
    pub fn new() -> (r: SessionView)
        ensures
            r.status@ == "Um salto pelo Tor na abertura. Sua conexão normal depois."@,
            !r.active && !r.warming && !r.direct && !r.error,
            r.deadline is None,
    {
        SessionView {
            status: String::from_str("Um salto pelo Tor na abertura. Sua conexão normal depois."),
            active: false,
            warming: false,
            direct: false,
            deadline: None,
            error: false,
        }
    }

    /// A session starts: active, neither warming nor direct, no error, no deadline.
    pub fn begin(&mut self)
        ensures
            final(self).active && !final(self).warming && !final(self).direct && !final(self).error,
            final(self).deadline is None,
            final(self).status == old(self).status,
    {
        self.active = true;
        self.warming = false;
        self.direct = false;
        self.error = false;
        self.deadline = None;
    }

    /// Takes in one event of the running session.
    pub fn apply(&mut self, event: Event)
        ensures
            match event {
                Event::Status(s) => final(self).status@ == s@ && final(self).active == old(self).active
                    && final(self).warming == old(self).warming && final(self).direct == old(
                    self,
                ).direct && final(self).error == old(self).error && final(self).deadline == old(
                    self,
                ).deadline,
                Event::Warming(d) => final(self).warming && final(self).deadline == d
                    && final(self).status@ == "Discord conectado pelo Tor. Aguarde a tela inicial carregar."@
                    && final(self).active == old(self).active && final(self).direct == old(
                    self,
                ).direct && final(self).error == old(self).error,
                Event::Direct => final(self).direct && !final(self).warming
                    && final(self).status@ == "Conexão direta ativa. O cliente Tor foi encerrado."@
                    && final(self).active == old(self).active && final(self).error == old(
                    self,
                ).error && final(self).deadline == old(self).deadline,
                Event::Finished => !final(self).active && !final(self).warming
                    && final(self).status@ == "Sessão encerrada."@ && final(self).direct == old(
                    self,
                ).direct && final(self).error == old(self).error && final(self).deadline == old(
                    self,
                ).deadline,
                Event::Error(e) => !final(self).active && !final(self).warming && final(self).error
                    && final(self).status@ == e@ && final(self).direct == old(self).direct
                    && final(self).deadline == old(self).deadline,
            },
    {
        match event {
            Event::Status(status) => self.status = status,
            Event::Warming(deadline) => {
                self.warming = true;
                self.deadline = deadline;
                self.status = String::from_str(
                    "Discord conectado pelo Tor. Aguarde a tela inicial carregar.",
                );
            },
            Event::Direct => {
                self.direct = true;
                self.warming = false;
                self.status = String::from_str("Conexão direta ativa. O cliente Tor foi encerrado.");
            },
            Event::Finished => {
                self.active = false;
                self.warming = false;
                self.status = String::from_str("Sessão encerrada.");
            },
            Event::Error(error) => {
                self.active = false;
                self.warming = false;
                self.error = true;
                self.status = error;
            },
        }
    }

    /// The step of the session shown.
    pub fn phase(&self) -> (r: usize)
        ensures
            r == phase_of(self.active, self.warming, self.direct),
    {
        if self.direct {
            3
        } else if self.warming {
            2
        } else if self.active {
            1
        } else {
            0
        }
    }

    /// What the tray offers for this view.
    pub fn tray_state(&self) -> (r: State)
        ensures
            (r.label@, r.can_start, r.can_direct) == crate::tray::tray_state(
                self.active,
                self.warming,
                self.direct,
                self.error,
            ),
    {
        state_for(self.active, self.warming, self.direct, self.error)
    }
}

/// The tray mirrors the phase shown: going direct is offered exactly while
/// Discord warms up on Tor without an error, and starting exactly when idle or
/// after an error.
pub proof fn lemma_tray_mirrors_phase(active: bool, warming: bool, direct: bool, error: bool)
    ensures
        crate::tray::tray_state(active, warming, direct, error).2 <==> (phase_of(active, warming, direct)
            == 2 && !error),
        crate::tray::tray_state(active, warming, direct, error).1 <==> (error || phase_of(
            active,
            warming,
            direct,
        ) == 0),
{
}

/// What the window decides on: whether a session runs, whether a tray icon is
/// shown, and whether the user asked to quit.
#[derive(Clone, Copy, Debug, PartialEq, Eq)]
pub struct WindowState {
    pub active: bool,
    pub tray_available: bool,
    pub quit_requested: bool,
}

/// What the window does on a tray action or a close request.
#[derive(Clone, Copy, Debug, PartialEq, Eq)]
pub enum WindowCommand {
    /// Make the window visible.
    Show,
    /// Give the window the focus.
    Focus,
    /// Restore the window from its minimized state.
    Unminimize,
    /// Start a session.
    StartSession,
    /// Ask the running session to switch to the direct connection.
    RequestDirect,
    /// Stop the running session.
    StopSession,
    /// Close the window, ending the program.
    Close,
    /// Refuse the pending close request.
    CancelClose,
    /// Hide the window.
    Hide,
    /// Minimize the window.
    Minimize,
}

/// Bring the window to the front.
pub open spec fn raise() -> Seq<WindowCommand> {
    seq![WindowCommand::Show, WindowCommand::Unminimize, WindowCommand::Focus]
}

/// The window's next state and commands for a tray action: Show raises the
/// window; Start raises it and starts a session, only when none runs; Direct
/// asks for the direct connection; Quit records the request, stops the session
/// and closes; Offline marks the tray gone and keeps the window visible;
/// Online marks the tray back.
pub open spec fn tray_action_outcome(s: WindowState, a: Action) -> (WindowState, Seq<WindowCommand>) {
    match a {
        Action::Show => (s, raise()),
        Action::Start => if s.active {
            (s, Seq::empty())
        } else {
            (WindowState { active: true, ..s }, raise().push(WindowCommand::StartSession))
        },
        Action::Direct => (s, seq![WindowCommand::RequestDirect]),
        Action::Quit => (
            WindowState { quit_requested: true, ..s },
            seq![WindowCommand::StopSession, WindowCommand::Close],
        ),
        Action::Offline => (
            WindowState { tray_available: false, ..s },
            seq![WindowCommand::Show, WindowCommand::Unminimize],
        ),
        Action::Online => (WindowState { tray_available: true, ..s }, Seq::empty()),
    }
}

/// The answer to a request to close the window: let it through after Quit;
/// otherwise, with a tray, refuse it and hide the window (both hide and
/// minimize, as each window system honors one); without a tray, refuse it and
/// minimize while a session runs, and let it through when none does.
pub open spec fn close_outcome(s: WindowState) -> Seq<WindowCommand> {
    if s.quit_requested {
        Seq::empty()
    } else if s.tray_available {
        seq![WindowCommand::CancelClose, WindowCommand::Hide, WindowCommand::Minimize]
    } else if s.active {
        seq![WindowCommand::CancelClose, WindowCommand::Minimize]
    } else {
        Seq::empty()
    }
}

/// Decides what a tray action does to the window.
pub fn on_tray_action(s: WindowState, a: Action) -> (r: (WindowState, Vec<WindowCommand>))
    ensures
        r.0 == tray_action_outcome(s, a).0,
        r.1@ == tray_action_outcome(s, a).1,
{
    match a {
        Action::Show => {
            (s, vec![WindowCommand::Show, WindowCommand::Unminimize, WindowCommand::Focus])
        },
        Action::Start => {
            if s.active {
                (s, Vec::new())
            } else {
                (
                    WindowState { active: true, ..s },
                    vec![
                        WindowCommand::Show,
                        WindowCommand::Unminimize,
                        WindowCommand::Focus,
                        WindowCommand::StartSession,
                    ],
                )
            }
        },
        Action::Direct => (s, vec![WindowCommand::RequestDirect]),
        Action::Quit => (
            WindowState { quit_requested: true, ..s },
            vec![WindowCommand::StopSession, WindowCommand::Close],
        ),
        Action::Offline => (
            WindowState { tray_available: false, ..s },
            vec![WindowCommand::Show, WindowCommand::Unminimize],
        ),
        Action::Online => (WindowState { tray_available: true, ..s }, Vec::new()),
    }
}

/// Decides the answer to a request to close the window.
pub fn on_close_requested(s: WindowState) -> (r: Vec<WindowCommand>)
    ensures
        r@ == close_outcome(s),
{
    if s.quit_requested {
        Vec::new()
    } else if s.tray_available {
        vec![WindowCommand::CancelClose, WindowCommand::Hide, WindowCommand::Minimize]
    } else if s.active {
        vec![WindowCommand::CancelClose, WindowCommand::Minimize]
    } else {
        Vec::new()
    }
}

/// What the tray's callback does at once for an action, before the window's
/// next frame: whether the quit request is recorded, and the commands queued.
/// Quit records the request, stops the session and queues the window's close
/// after making it visible, since a hidden window may never run the frame that
/// would close it; Show raises the window; other actions wait for the frame.
pub open spec fn dispatch_outcome(a: Action) -> (bool, Seq<WindowCommand>) {
    match a {
        Action::Quit => (
            true,
            seq![
                WindowCommand::StopSession,
                WindowCommand::Show,
                WindowCommand::Unminimize,
                WindowCommand::Close,
            ],
        ),
        Action::Show => (false, raise()),
        _ => (false, Seq::empty()),
    }
}

/// Decides what the tray's callback does at once for an action.
pub fn on_tray_dispatch(a: Action) -> (r: (bool, Vec<WindowCommand>))
    ensures
        r.0 == dispatch_outcome(a).0,
        r.1@ == dispatch_outcome(a).1,
{
    match a {
        Action::Quit => (
            true,
            vec![
                WindowCommand::StopSession,
                WindowCommand::Show,
                WindowCommand::Unminimize,
                WindowCommand::Close,
            ],
        ),
        Action::Show => (
            false,
            vec![WindowCommand::Show, WindowCommand::Unminimize, WindowCommand::Focus],
        ),
        _ => (false, Vec::new()),
    }
}

/// A control of the window while a session runs.
#[derive(Clone, Copy, Debug, PartialEq, Eq)]
pub enum ActiveControl {
    /// "Discord carregou — usar conexão direta": switch to the direct route.
    UseDirect,
    /// A spinner: the hop is being prepared.
    Preparing,
    /// "Recolher": collapse the window to the tray.
    Collapse,
    /// "Cancelar": stop the session.
    Cancel,
    /// "Encerrar RelayHop", behind a warning: stop the session.
    EndSession,
}

/// The controls of a running session, in order: the switch button while
/// Discord warms up on Tor, or a spinner while neither warming nor direct;
/// then, once warming or direct, "collapse" (only with a tray), "cancel" and
/// "end"; before that, "cancel" alone.
pub open spec fn active_controls_spec(warming: bool, direct: bool, tray_available: bool) -> Seq<ActiveControl> {
    let head = if warming {
        seq![ActiveControl::UseDirect]
    } else if !direct {
        seq![ActiveControl::Preparing]
    } else {
        Seq::empty()
    };
    let tail = if direct || warming {
        (if tray_available {
            seq![ActiveControl::Collapse]
        } else {
            Seq::empty()
        }) + seq![ActiveControl::Cancel, ActiveControl::EndSession]
    } else {
        seq![ActiveControl::Cancel]
    };
    head + tail
}

/// What a click on a control does.
pub open spec fn active_control_outcome(c: ActiveControl) -> Seq<WindowCommand> {
    match c {
        ActiveControl::UseDirect => seq![WindowCommand::RequestDirect],
        ActiveControl::Preparing => Seq::empty(),
        ActiveControl::Collapse => seq![WindowCommand::Hide, WindowCommand::Minimize],
        ActiveControl::Cancel => seq![WindowCommand::StopSession],
        ActiveControl::EndSession => seq![WindowCommand::StopSession],
    }
}

/// The controls the window offers while a session runs.
pub fn active_controls(warming: bool, direct: bool, tray_available: bool) -> (r: Vec<ActiveControl>)
    ensures
        r@ == active_controls_spec(warming, direct, tray_available),
{
    let mut r: Vec<ActiveControl> = Vec::new();
    if warming {
        r.push(ActiveControl::UseDirect);
    } else if !direct {
        r.push(ActiveControl::Preparing);
    }
    if direct || warming {
        if tray_available {
            r.push(ActiveControl::Collapse);
        }
        r.push(ActiveControl::Cancel);
        r.push(ActiveControl::EndSession);
    } else {
        r.push(ActiveControl::Cancel);
    }
    assert(r@ =~= active_controls_spec(warming, direct, tray_available));
    r
}

/// Decides what a click on a control does.
pub fn on_active_control(c: ActiveControl) -> (r: Vec<WindowCommand>)
    ensures
        r@ == active_control_outcome(c),
{
    match c {
        ActiveControl::UseDirect => vec![WindowCommand::RequestDirect],
        ActiveControl::Preparing => Vec::new(),
        ActiveControl::Collapse => vec![WindowCommand::Hide, WindowCommand::Minimize],
        ActiveControl::Cancel => vec![WindowCommand::StopSession],
        ActiveControl::EndSession => vec![WindowCommand::StopSession],
    }
}

/// The window offers the switch to the direct route exactly while Discord
/// warms up on Tor, collapsing to the tray only when a tray is shown, and
/// always a way to stop the session.
pub proof fn lemma_active_controls(warming: bool, direct: bool, tray_available: bool)
    ensures
        active_controls_spec(warming, direct, tray_available).contains(ActiveControl::UseDirect)
            <==> warming,
        active_controls_spec(warming, direct, tray_available).contains(ActiveControl::Collapse)
            ==> tray_available,
        active_controls_spec(warming, direct, tray_available).contains(ActiveControl::Cancel),
        active_controls_spec(warming, direct, tray_available).contains(ActiveControl::EndSession)
            <==> (warming || direct),
        active_controls_spec(warming, direct, tray_available).contains(ActiveControl::Preparing)
            <==> (!warming && !direct),
        (warming || direct) && tray_available ==> active_controls_spec(
            warming,
            direct,
            tray_available,
        ).contains(ActiveControl::Collapse),
        active_control_outcome(ActiveControl::UseDirect) == seq![WindowCommand::RequestDirect],
        active_control_outcome(ActiveControl::Collapse) == seq![WindowCommand::Hide, WindowCommand::Minimize],
        active_control_outcome(ActiveControl::Cancel) == seq![WindowCommand::StopSession],
        active_control_outcome(ActiveControl::EndSession) == seq![WindowCommand::StopSession],
        active_control_outcome(ActiveControl::Preparing).len() == 0,
{
    let c = active_controls_spec(warming, direct, tray_available);
    if warming {
        assert(c[0] == ActiveControl::UseDirect);
    }
    assert forall|i: int| 0 <= i < c.len() && c[i] == ActiveControl::Collapse implies tray_available by {}
    assert forall|i: int| 0 <= i < c.len() && c[i] == ActiveControl::UseDirect implies warming by {}
    let k = c.len() - if direct || warming { 2int } else { 1int };
    assert(c[k] == ActiveControl::Cancel);
    if warming || direct {
        assert(c[c.len() - 1] == ActiveControl::EndSession);
        if tray_available {
            assert(c[c.len() - 3] == ActiveControl::Collapse);
        }
    } else {
        assert(c[0] == ActiveControl::Preparing);
    }
    assert forall|i: int| 0 <= i < c.len() && c[i] == ActiveControl::EndSession implies warming || direct by {}
    assert forall|i: int| 0 <= i < c.len() && c[i] == ActiveControl::Preparing implies !warming && !direct by {}
}

/// The tray's Quit ends the program even from a hidden or minimized window:
/// it records the request, stops the session, and makes the window visible
/// and restores it before closing it. Show raises the window; the other
/// actions neither record a quit nor queue anything at once.
pub proof fn lemma_quit_dispatch_restores_before_close(a: Action)
    ensures
        dispatch_outcome(Action::Quit).0,
        dispatch_outcome(Action::Quit).1.contains(WindowCommand::StopSession),
        (exists|i: int, j: int, k: int|
            0 <= i < k < dispatch_outcome(Action::Quit).1.len() && 0 <= j < k
                && dispatch_outcome(Action::Quit).1[i] == WindowCommand::Show
                && dispatch_outcome(Action::Quit).1[j] == WindowCommand::Unminimize
                && dispatch_outcome(Action::Quit).1[k] == WindowCommand::Close),
        dispatch_outcome(Action::Show).1.contains(WindowCommand::Show)
            && dispatch_outcome(Action::Show).1.contains(WindowCommand::Unminimize)
            && dispatch_outcome(Action::Show).1.contains(WindowCommand::Focus),
        a != Action::Quit ==> !dispatch_outcome(a).0 && !dispatch_outcome(a).1.contains(
            WindowCommand::Close,
        ) && !dispatch_outcome(a).1.contains(WindowCommand::StopSession),
        a != Action::Quit && a != Action::Show ==> dispatch_outcome(a).1.len() == 0,
{
    let c = dispatch_outcome(Action::Quit).1;
    assert(c[0] == WindowCommand::StopSession);
    assert(c[1] == WindowCommand::Show && c[2] == WindowCommand::Unminimize && c[3]
        == WindowCommand::Close);
    assert(c[1] == WindowCommand::Show && c[2] == WindowCommand::Unminimize);
    let d = dispatch_outcome(Action::Show).1;
    assert(d[0] == WindowCommand::Show && d[1] == WindowCommand::Unminimize && d[2]
        == WindowCommand::Focus);
    if a != Action::Quit {
        let e = dispatch_outcome(a).1;
        assert forall|i: int| 0 <= i < e.len() implies e[i] != WindowCommand::Close && e[i]
            != WindowCommand::StopSession by {}
    }
}

/// Every tray action that shows the window also restores and focuses it
/// (Show, and Start from an idle window, which also starts exactly one
/// session); Start never starts a second session.
pub proof fn lemma_tray_actions_raise(s: WindowState)
    ensures
        tray_action_outcome(s, Action::Show).1 == seq![
            WindowCommand::Show,
            WindowCommand::Unminimize,
            WindowCommand::Focus,
        ],
        !s.active ==> tray_action_outcome(s, Action::Start).1 == seq![
            WindowCommand::Show,
            WindowCommand::Unminimize,
            WindowCommand::Focus,
            WindowCommand::StartSession,
        ] && tray_action_outcome(s, Action::Start).0.active,
        s.active ==> tray_action_outcome(s, Action::Start) == (s, Seq::<WindowCommand>::empty()),
        tray_action_outcome(s, Action::Quit) == ((WindowState { quit_requested: true, ..s }), seq![
            WindowCommand::StopSession,
            WindowCommand::Close,
        ]),
        tray_action_outcome(s, Action::Direct) == (s, seq![WindowCommand::RequestDirect]),
        tray_action_outcome(s, Action::Offline).0 == (WindowState { tray_available: false, ..s }),
        tray_action_outcome(s, Action::Online) == ((WindowState { tray_available: true, ..s }),
        Seq::<WindowCommand>::empty()),
{
    assert(raise().push(WindowCommand::StartSession) =~= seq![
        WindowCommand::Show,
        WindowCommand::Unminimize,
        WindowCommand::Focus,
        WindowCommand::StartSession,
    ]);
}

/// Closing only hides the window while a tray icon is shown, and Quit really
/// exits: after Quit the close request is let through and the window closes;
/// without Quit, with a tray, the close is refused and the window is hidden.
pub proof fn lemma_quit_exits_close_hides(s: WindowState)
    ensures
        close_outcome(tray_action_outcome(s, Action::Quit).0) == Seq::<WindowCommand>::empty(),
        tray_action_outcome(s, Action::Quit).1.contains(WindowCommand::Close),
        !s.quit_requested && s.tray_available ==> close_outcome(s) == seq![
            WindowCommand::CancelClose,
            WindowCommand::Hide,
            WindowCommand::Minimize,
        ],
{
    assert(tray_action_outcome(s, Action::Quit).1[1] == WindowCommand::Close);
}

/// Only Quit asks for the program's end: no other tray action closes the
/// window or lets a later close through that a tray would have hidden.
pub proof fn lemma_only_quit_closes(s: WindowState, a: Action)
    requires
        a != Action::Quit,
        !s.quit_requested,
    ensures
        !tray_action_outcome(s, a).1.contains(WindowCommand::Close),
        !tray_action_outcome(s, a).0.quit_requested,
{
    let c = tray_action_outcome(s, a).1;
    assert forall|i: int| 0 <= i < c.len() implies c[i] != WindowCommand::Close by {}
}

} // verus!
