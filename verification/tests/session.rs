use relayhop::address::{IpAddress, SocketAddress};
use relayhop::discord::{install_version, is_discord_process_name, newest_install, proxy_arguments};
use relayhop::gateway::{check_gateway_response, judge_gateway_url, GatewayBody, GatewayError, MAX_GATEWAY_BODY};
use relayhop::session::{Observation, SessionAction, SessionError, SessionMonitor};

fn sample(now_ms: u64, discord_running: bool) -> Observation {
    Observation { now_ms, discord_running, launcher_failed: false, worker_exited: false }
}

#[test]
fn automatic_switch_after_warmup() {
    let mut m = SessionMonitor::new(false, 60);
    assert_eq!(m.sample(sample(1_000, true)), SessionAction::Continue);
    assert!(!m.accepts_direct_request());
    assert_eq!(m.first_connection(5_000), SessionAction::Warming(Some(65_000)));
    assert!(!m.awaits_first_connection());
    assert_eq!(m.sample(sample(64_999, true)), SessionAction::Continue);
    assert_eq!(m.sample(sample(65_000, true)), SessionAction::SwitchDirect);
    assert!(m.is_direct());
    assert_eq!(m.sample(sample(66_000, true)), SessionAction::Continue);
    assert_eq!(m.direct_requested(), SessionAction::Continue);
}

#[test]
fn manual_mode_switches_on_request_only() {
    let mut m = SessionMonitor::new(true, 60);
    assert_eq!(m.direct_requested(), SessionAction::Continue);
    assert_eq!(m.first_connection(2_000), SessionAction::Warming(None));
    assert_eq!(m.sample(sample(1_000_000, true)), SessionAction::Continue);
    assert_eq!(m.direct_requested(), SessionAction::SwitchDirect);
    assert_eq!(m.direct_requested(), SessionAction::Continue);
}

#[test]
fn session_ends_after_three_absent_samples() {
    let mut m = SessionMonitor::new(false, 60);
    m.first_connection(1_000);
    assert_eq!(m.sample(sample(2_000, true)), SessionAction::Continue);
    assert_eq!(m.sample(sample(3_000, false)), SessionAction::Continue);
    assert_eq!(m.sample(sample(4_000, false)), SessionAction::Continue);
    assert_eq!(m.sample(sample(5_000, true)), SessionAction::Continue);
    assert_eq!(m.sample(sample(6_000, false)), SessionAction::Continue);
    assert_eq!(m.sample(sample(7_000, false)), SessionAction::Continue);
    assert_eq!(m.sample(sample(8_000, false)), SessionAction::Finish);
}

#[test]
fn session_failures() {
    let mut m = SessionMonitor::new(false, 60);
    assert_eq!(m.sample(sample(45_000, false)), SessionAction::Continue);
    assert_eq!(m.sample(sample(45_001, false)), SessionAction::Fail(SessionError::DiscordNotFound));
    let mut m = SessionMonitor::new(false, 60);
    assert_eq!(m.sample(sample(90_001, true)), SessionAction::Fail(SessionError::ProxyNotUsed));
    let mut m = SessionMonitor::new(false, 60);
    let failed = Observation { now_ms: 1_000, discord_running: false, launcher_failed: true, worker_exited: false };
    assert_eq!(m.sample(failed), SessionAction::Fail(SessionError::LauncherFailed));
    let mut m = SessionMonitor::new(false, 60);
    let exited = Observation { now_ms: 1_000, discord_running: true, launcher_failed: true, worker_exited: true };
    assert_eq!(m.sample(exited), SessionAction::Fail(SessionError::WorkerExited));
}

#[test]
fn gateway_answer_must_name_discord_gateway() {
    assert_eq!(check_gateway_response(br#"{"url": "wss://gateway.discord.gg"}"#), Ok(()));
    assert_eq!(check_gateway_response(br#"{"url": "wss://gateway.discord.gg/?v=10"}"#), Ok(()));
    assert_eq!(
        check_gateway_response(br#"{"url": "ws://gateway.discord.gg"}"#),
        Err(GatewayError::UnexpectedGateway)
    );
    assert_eq!(
        check_gateway_response(br#"{"url": "wss://evil.example"}"#),
        Err(GatewayError::UnexpectedGateway)
    );
    assert_eq!(check_gateway_response(br#"{"url": "not a url"}"#), Err(GatewayError::InvalidUrl));
    assert_eq!(check_gateway_response(br#"{"url": 5}"#), Err(GatewayError::MissingUrl));
    assert_eq!(check_gateway_response(br#"["url"]"#), Err(GatewayError::MissingUrl));
    assert_eq!(check_gateway_response(b"url"), Err(GatewayError::InvalidJson));
    assert_eq!(judge_gateway_url(None), Err(GatewayError::InvalidUrl));
    assert_eq!(judge_gateway_url(Some(("wss".into(), None))), Err(GatewayError::UnexpectedGateway));
    assert_eq!(judge_gateway_url(Some(("wss".into(), Some("gateway.discord.gg".into())))), Ok(()));
}

#[test]
fn gateway_body_is_bounded() {
    let mut body = GatewayBody::new();
    assert_eq!(body.push_chunk(br#"{"url": "#), Ok(()));
    assert_eq!(body.push_chunk(br#""wss://gateway.discord.gg"}"#), Ok(()));
    assert_eq!(body.check(), Ok(()));
    let mut body = GatewayBody::new();
    assert_eq!(body.push_chunk(&vec![b' '; MAX_GATEWAY_BODY]), Ok(()));
    assert_eq!(body.push_chunk(b"x"), Err(GatewayError::BodyTooLarge));
}

#[test]
fn discord_launch_flags() {
    assert_eq!(
        proxy_arguments(SocketAddress {
            ip: IpAddress::V4([127, 0, 0, 1]),
            port: 4242,
            flowinfo: 0,
            scope_id: 0,
        }),
        vec![
            "--proxy-server=socks5://127.0.0.1:4242".to_string(),
            "--proxy-bypass-list=discord.media;*.discord.media;cdn.discordapp.com;discordapp.net;*.discordapp.net".to_string(),
        ]
    );
}

#[test]
fn discord_processes_are_recognized() {
    for name in ["Discord", "discord.exe", "DiscordCanary", "discordptb.EXE"] {
        assert!(is_discord_process_name(name), "{name}");
    }
    for name in ["discord-helper", "", "discordd"] {
        assert!(!is_discord_process_name(name), "{name}");
    }
}

#[test]
fn windows_versions_are_compared_numerically() {
    let names = ["app-1.0.9", "app-1.0.10", "app-invalid"];
    let versions: Vec<Vec<u32>> = names.iter().filter_map(|n| install_version(n)).collect();
    assert_eq!(versions, vec![vec![1, 0, 9], vec![1, 0, 10]]);
    assert_eq!(newest_install(&versions), Some(1));
    assert_eq!(install_version("app-+1.2"), Some(vec![1, 2]));
    assert_eq!(install_version("app-1..2"), None);
    assert_eq!(install_version("app-"), None);
    assert_eq!(install_version("app-4294967296"), None);
    assert_eq!(install_version("ap-1"), None);
    assert_eq!(newest_install(&vec![vec![1, 2], vec![1, 2, 0], vec![1, 2, 0], vec![1, 1, 9]]), Some(2));
    assert_eq!(newest_install(&vec![]), None);
}

#[test]
fn warming_is_reported_once() {
    let mut m = SessionMonitor::new(false, 60);
    assert_eq!(m.first_connection(2_000), SessionAction::Warming(Some(62_000)));
    assert_eq!(m.first_connection(3_000), SessionAction::Continue);
    assert_eq!(m.direct_requested(), SessionAction::SwitchDirect);
    assert_eq!(m.first_connection(4_000), SessionAction::Continue);
    assert_eq!(m.direct_requested(), SessionAction::Continue);
}
