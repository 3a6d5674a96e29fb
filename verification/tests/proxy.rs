use relayhop::address::{public_address, Direct, DnsRefusal, IpAddress};
use relayhop::netparse::parse_socket_address;
use relayhop::proxy::{Target, TargetError};
use relayhop::router::{admit_client, ended_by_switch, route_for, Route, MAX_CONNECTIONS};

/// The IP address of a literal, read through the socket address reader.
fn address(text: &str) -> IpAddress {
    let socket = if text.contains(':') { format!("[{text}]:0") } else { format!("{text}:0") };
    parse_socket_address(&socket.chars().collect()).unwrap().ip
}

#[test]
fn domain_boundary_and_port_policy() {
    for name in ["discord.com", "Gateway.Discord.GG.", "cdn.discordapp.com"] {
        assert!(Target::new(name, 443).is_ok());
    }
    for name in [
        "evil-discord.com",
        "discord.com.evil.test",
        "127.0.0.1",
        "localhost",
        "x..discord.com",
        "x/discord.com",
        "x\n.discord.com",
        "-x.discord.com",
        "discord.com..",
    ] {
        assert!(Target::new(name, 443).is_err(), "{name}");
    }
    assert!(Target::new("discord.com", 80).is_err());
}

#[test]
fn dns_cannot_redirect_to_local_network() {
    for ip in [
        "127.0.0.1",
        "10.0.0.1",
        "169.254.169.254",
        "100.64.0.1",
        "192.168.1.1",
        "198.18.0.1",
        "224.0.0.1",
        "::1",
        "::ffff:127.0.0.1",
        "fd00::1",
        "2001:db8::1",
    ] {
        assert!(!public_address(address(ip)), "{ip}");
    }
    assert!(public_address(address("1.1.1.1")));
    assert!(public_address(address("2606:4700:4700::1111")));
}

#[test]
fn accepted_target_is_normalized() {
    let target = Target::new("Gateway.Discord.GG.", 443).unwrap();
    assert_eq!(target.host, "gateway.discord.gg");
    assert_eq!(target.port, 443);
    let again = Target::new(&target.host, target.port).unwrap();
    assert_eq!(again.host, target.host);
}

#[test]
fn each_refusal_has_its_reason() {
    assert_eq!(Target::new("discord.com", 80).unwrap_err(), TargetError::PortNotAllowed);
    assert_eq!(Target::new("x..discord.com", 443).unwrap_err(), TargetError::InvalidHostname);
    assert_eq!(Target::new("", 443).unwrap_err(), TargetError::InvalidHostname);
    assert_eq!(Target::new("discord.com.evil.test", 443).unwrap_err(), TargetError::NotDiscordDomain);
    assert_eq!(Target::new("evil-discord.com", 443).unwrap_err(), TargetError::NotDiscordDomain);
    assert_eq!(Target::new("a-.discord.com", 443).unwrap_err(), TargetError::InvalidHostname);
    assert_eq!(Target::new("dïscord.com", 443).unwrap_err(), TargetError::InvalidHostname);
}

#[test]
fn label_and_name_length_limits() {
    let label63 = "a".repeat(63);
    let label64 = "a".repeat(64);
    assert!(Target::new(&format!("{label63}.discord.com"), 443).is_ok());
    assert_eq!(
        Target::new(&format!("{label64}.discord.com"), 443).unwrap_err(),
        TargetError::InvalidHostname
    );
    // 4 labels of 60 + "discord.com" = 4 * 61 + 11 = 255 characters
    let long = format!("{0}.{0}.{0}.{0}.discord.com", "b".repeat(60));
    assert_eq!(Target::new(&long, 443).unwrap_err(), TargetError::InvalidHostname);
    let fits = format!("{0}.{0}.{0}.{1}.discord.com", "b".repeat(60), "b".repeat(58));
    assert_eq!(fits.len(), 253);
    assert!(Target::new(&fits, 443).is_ok());
}

#[test]
fn every_discord_domain_is_served() {
    for name in [
        "discord.com",
        "discord.gg",
        "discordapp.com",
        "discordapp.net",
        "discord.media",
        "discordcdn.com",
        "discordstatus.com",
        "a.b.discordstatus.com",
    ] {
        assert!(Target::new(name, 443).is_ok(), "{name}");
    }
}

#[test]
fn dns_answers_are_judged_whole() {
    assert_eq!(Direct::accept_answer(&vec![]), Err(DnsRefusal::NoAddresses));
    assert_eq!(Direct::accept_answer(&vec![address("1.1.1.1"), address("2606:4700:4700::1111")]), Ok(()));
    assert_eq!(
        Direct::accept_answer(&vec![address("1.1.1.1"), address("192.168.1.1")]),
        Err(DnsRefusal::NonPublicAddress)
    );
    for ip in ["0.1.2.3", "255.255.255.255", "192.0.2.1", "198.51.100.7", "203.0.113.9", "192.0.0.8", "172.16.0.1", "172.31.255.255", "2002::1", "2001:100::1", "3fff::1"] {
        assert!(!public_address(address(ip)), "{ip}");
    }
    for ip in ["172.32.0.1", "100.128.0.1", "198.20.0.1", "2001:200::1", "3fff:1000::1"] {
        assert!(public_address(address(ip)), "{ip}");
    }
}

#[test]
fn switch_routes_new_connections_directly_and_ends_tor_tunnels() {
    assert_eq!(route_for(false), Route::Tor);
    assert_eq!(route_for(true), Route::Direct);
    assert!(ended_by_switch(Route::Tor));
    assert!(!ended_by_switch(Route::Direct));
}

#[test]
fn only_loopback_clients_within_the_limit_are_served() {
    let local = IpAddress::V4([127, 0, 0, 1]);
    assert!(admit_client(local, 0));
    assert!(admit_client(local, MAX_CONNECTIONS - 1));
    assert!(!admit_client(local, MAX_CONNECTIONS));
    assert!(admit_client(IpAddress::V6([0, 0, 0, 0, 0, 0, 0, 1]), 5));
    assert!(!admit_client(IpAddress::V4([192, 168, 1, 2]), 0));
    assert_eq!(MAX_CONNECTIONS, 128);
}
