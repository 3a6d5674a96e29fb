use relayhop::backend::{backend_choice, BackendChoice};
use relayhop::icon::argb;
use relayhop::session::Event;
use relayhop::tray::{state_for, Action, State};
use relayhop::ui::{active_controls, on_active_control, ActiveControl, on_close_requested, on_tray_action, on_tray_dispatch, SessionView, WindowCommand, WindowState};

#[test]
fn tray_state_mirrors_session_phase() {
    assert_eq!(
        state_for(false, false, false, false),
        State {
            label: "Pronto",
            can_start: true,
            can_direct: false
        }
    );
    assert_eq!(
        state_for(true, false, false, false),
        State {
            label: "Conectando…",
            can_start: false,
            can_direct: false
        }
    );
    assert_eq!(
        state_for(true, true, false, false),
        State {
            label: "Pelo Tor — aguarde carregar",
            can_start: false,
            can_direct: true
        }
    );
    assert_eq!(
        state_for(true, false, true, false),
        State {
            label: "Conexão direta",
            can_start: false,
            can_direct: false
        }
    );
    assert_eq!(
        state_for(false, false, false, true),
        State {
            label: "Erro — abra o RelayHop",
            can_start: true,
            can_direct: false
        }
    );
}

#[test]
fn window_view_follows_session_events() {
    let mut view = SessionView::new();
    assert_eq!(view.phase(), 0);
    assert!(view.tray_state().can_start);
    view.begin();
    assert_eq!(view.phase(), 1);
    view.apply(Event::Status("Conectando".into()));
    assert_eq!(view.status, "Conectando");
    view.apply(Event::Warming(None));
    assert_eq!(view.phase(), 2);
    assert!(view.tray_state().can_direct);
    view.apply(Event::Direct);
    assert_eq!(view.phase(), 3);
    assert_eq!(view.status, "Conexão direta ativa. O cliente Tor foi encerrado.");
    assert!(!view.tray_state().can_direct);
    view.apply(Event::Finished);
    assert!(!view.active);
    assert_eq!(view.status, "Sessão encerrada.");
    view.begin();
    view.apply(Event::Error("falhou".into()));
    assert!(view.error && !view.active);
    assert_eq!(view.tray_state().label, "Erro — abra o RelayHop");
    assert!(view.tray_state().can_start);
}

#[test]
fn tray_pixels_are_argb() {
    assert_eq!(argb(&[1, 2, 3, 4, 5, 6, 7, 8, 9]), vec![4, 1, 2, 3, 8, 5, 6, 7]);
    assert!(argb(&[1, 2, 3]).is_empty());
}

#[test]
fn xwayland_is_used_only_when_available() {
    assert_eq!(backend_choice(true, true, true, true), BackendChoice::Native);
    assert_eq!(backend_choice(false, false, true, true), BackendChoice::Native);
    assert_eq!(backend_choice(false, true, false, true), BackendChoice::XWaylandUnavailable);
    assert_eq!(backend_choice(false, true, true, false), BackendChoice::XWaylandUnavailable);
    assert_eq!(backend_choice(false, true, true, true), BackendChoice::UseXWayland);
}

#[test]
fn unpackaged_build_reports_no_package_and_no_startup_task() {
    assert!(!relayhop::startup::is_packaged());
    assert!(!relayhop::startup::launched_by_startup_task());
}

fn window(active: bool, tray_available: bool, quit_requested: bool) -> WindowState {
    WindowState { active, tray_available, quit_requested }
}

#[test]
fn closing_hides_to_tray_and_quit_exits() {
    let idle = window(false, true, false);
    assert_eq!(
        on_close_requested(idle),
        vec![WindowCommand::CancelClose, WindowCommand::Hide, WindowCommand::Minimize]
    );
    let (after_quit, commands) = on_tray_action(idle, Action::Quit);
    assert_eq!(after_quit, window(false, true, true));
    assert_eq!(commands, vec![WindowCommand::StopSession, WindowCommand::Close]);
    assert_eq!(on_close_requested(after_quit), vec![]);
    assert_eq!(
        on_close_requested(window(true, false, false)),
        vec![WindowCommand::CancelClose, WindowCommand::Minimize]
    );
    assert_eq!(on_close_requested(window(false, false, false)), vec![]);
}

#[test]
fn tray_actions_decide_the_window() {
    let idle = window(false, true, false);
    let (started, commands) = on_tray_action(idle, Action::Start);
    assert_eq!(started, window(true, true, false));
    assert_eq!(
        commands,
        vec![
            WindowCommand::Show,
            WindowCommand::Unminimize,
            WindowCommand::Focus,
            WindowCommand::StartSession
        ]
    );
    assert_eq!(on_tray_action(started, Action::Start), (started, vec![]));
    assert_eq!(
        on_tray_action(started, Action::Show),
        (started, vec![WindowCommand::Show, WindowCommand::Unminimize, WindowCommand::Focus])
    );
    assert_eq!(
        on_tray_action(started, Action::Direct),
        (started, vec![WindowCommand::RequestDirect])
    );
    let (offline, commands) = on_tray_action(started, Action::Offline);
    assert_eq!(offline, window(true, false, false));
    assert_eq!(commands, vec![WindowCommand::Show, WindowCommand::Unminimize]);
    assert_eq!(on_tray_action(offline, Action::Online), (started, vec![]));
}

#[test]
fn quit_dispatch_queues_close_before_the_next_frame() {
    let (quit, commands) = on_tray_dispatch(Action::Quit);
    assert!(quit);
    assert!(commands.contains(&WindowCommand::StopSession));
    let visible = commands.iter().position(|c| *c == WindowCommand::Show).unwrap();
    let close = commands.iter().position(|c| *c == WindowCommand::Close).unwrap();
    assert!(visible < close);
    assert_eq!(
        on_tray_dispatch(Action::Show),
        (false, vec![WindowCommand::Show, WindowCommand::Unminimize, WindowCommand::Focus])
    );
    assert_eq!(on_tray_dispatch(Action::Start), (false, vec![]));
}

#[test]
fn active_window_offers_the_controls_of_its_phase() {
    assert_eq!(active_controls(false, false, true), vec![ActiveControl::Preparing, ActiveControl::Cancel]);
    assert_eq!(active_controls(true, false, true), vec![ActiveControl::UseDirect, ActiveControl::Collapse, ActiveControl::Cancel, ActiveControl::EndSession]);
    assert_eq!(active_controls(true, false, false), vec![ActiveControl::UseDirect, ActiveControl::Cancel, ActiveControl::EndSession]);
    assert_eq!(active_controls(false, true, true), vec![ActiveControl::Collapse, ActiveControl::Cancel, ActiveControl::EndSession]);
    assert_eq!(active_controls(false, true, false), vec![ActiveControl::Cancel, ActiveControl::EndSession]);
    assert_eq!(on_active_control(ActiveControl::UseDirect), vec![WindowCommand::RequestDirect]);
    assert_eq!(on_active_control(ActiveControl::Collapse), vec![WindowCommand::Hide, WindowCommand::Minimize]);
    assert_eq!(on_active_control(ActiveControl::Cancel), vec![WindowCommand::StopSession]);
    assert_eq!(on_active_control(ActiveControl::EndSession), vec![WindowCommand::StopSession]);
    assert_eq!(on_active_control(ActiveControl::Preparing), vec![]);
}
