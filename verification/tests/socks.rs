use relayhop::proxy::{Target, TargetError};
use relayhop::socks::{
    check_greeting_answer, check_reply_header, client_greeting, connect_request, negotiate, reply,
    Negotiation, ReplyAddress, SocksClientError, SocksRefusal,
};

/// Runs the server side the way the forwarder does: read what it asks for,
/// send the replies owed so far.
fn serve(input: &[u8]) -> (Vec<u8>, Negotiation, usize) {
    let mut received: Vec<u8> = Vec::new();
    let mut sent: Vec<u8> = Vec::new();
    let mut offset = 0;
    loop {
        let (replies, state) = negotiate(&received);
        assert!(replies.starts_with(&sent));
        sent = replies;
        match state {
            Negotiation::NeedMore(n) => {
                if offset + n > input.len() {
                    return (sent, Negotiation::NeedMore(n), offset);
                }
                received.extend_from_slice(&input[offset..offset + n]);
                offset += n;
            }
            other => return (sent, other, offset),
        }
    }
}

#[test]
fn client_request_is_accepted_by_the_forwarder() {
    let target = Target::new("discord.com", 443).unwrap();
    let mut input = client_greeting();
    input.extend(connect_request(&target));
    input.extend_from_slice(b"opaque TLS bytes");
    let (replies, state, consumed) = serve(&input);
    assert_eq!(replies, vec![5, 0]);
    match state {
        Negotiation::Accepted(t) => {
            assert_eq!(t.host, "discord.com");
            assert_eq!(t.port, 443);
        }
        other => panic!("{other:?}"),
    }
    assert_eq!(&input[consumed..], b"opaque TLS bytes");
}

#[test]
fn request_bytes_are_the_socks_layout() {
    let target = Target::new("discord.gg", 443).unwrap();
    let mut expected = vec![5, 1, 0, 3, 10];
    expected.extend_from_slice(b"discord.gg");
    expected.extend_from_slice(&[1, 187]);
    assert_eq!(connect_request(&target), expected);
    assert_eq!(client_greeting(), vec![5, 1, 0]);
}

#[test]
fn malformed_or_unsupported_requests_get_their_reply_code() {
    for (header, expected, refusal) in [
        ([5u8, 3, 0, 3], 7u8, SocksRefusal::CommandNotSupported),
        ([5, 1, 0, 1], 8, SocksRefusal::HostnameRequired),
        ([5, 1, 1, 3], 1, SocksRefusal::MalformedRequest),
    ] {
        let mut input = vec![5, 1, 0];
        input.extend_from_slice(&header);
        let (replies, state, _) = serve(&input);
        assert_eq!(replies.len(), 12);
        assert_eq!(&replies[..2], &[5, 0]);
        assert_eq!(replies[3], expected);
        assert_eq!(&replies[2..], reply(expected).as_slice());
        match state {
            Negotiation::Rejected(r) => assert_eq!(r, refusal),
            other => panic!("{other:?}"),
        }
    }
}

#[test]
fn only_username_password_offered_is_refused() {
    let (replies, state, _) = serve(&[5, 1, 2]);
    assert_eq!(replies, vec![5, 255]);
    assert!(matches!(state, Negotiation::Rejected(SocksRefusal::NoAcceptableMethod)));
}

#[test]
fn wrong_version_gets_no_reply() {
    let (replies, state, consumed) = serve(&[4, 1, 0]);
    assert!(replies.is_empty());
    assert_eq!(consumed, 1);
    assert!(matches!(state, Negotiation::Rejected(SocksRefusal::UnsupportedVersion)));
}

#[test]
fn forbidden_destination_gets_refused_with_code_two() {
    let target = Target { host: "attacker.example".into(), port: 443 };
    let mut input = client_greeting();
    input.extend(connect_request(&target));
    let (replies, state, _) = serve(&input);
    assert_eq!(replies[..2], [5, 0]);
    assert_eq!(replies[3], 2);
    assert!(matches!(
        state,
        Negotiation::Rejected(SocksRefusal::TargetRefused(TargetError::NotDiscordDomain))
    ));
    let mut bad_utf8 = vec![5, 1, 0, 5, 1, 0, 3, 2, 0xff, 0xfe, 1, 187];
    let (_, state, _) = serve(&bad_utf8);
    assert!(matches!(
        state,
        Negotiation::Rejected(SocksRefusal::TargetRefused(TargetError::InvalidHostname))
    ));
    bad_utf8[10] = 0;
    bad_utf8[11] = 80;
    let (_, state, _) = serve(&bad_utf8);
    assert!(matches!(
        state,
        Negotiation::Rejected(SocksRefusal::TargetRefused(TargetError::InvalidHostname))
    ));
}

#[test]
fn partial_input_asks_for_exactly_what_is_missing() {
    assert!(matches!(negotiate(&[]).1, Negotiation::NeedMore(1)));
    assert!(matches!(negotiate(&[5]).1, Negotiation::NeedMore(1)));
    assert!(matches!(negotiate(&[5, 3]).1, Negotiation::NeedMore(3)));
    assert!(matches!(negotiate(&[5, 3, 2]).1, Negotiation::NeedMore(2)));
    let (replies, state) = negotiate(&[5, 1, 0]);
    assert_eq!(replies, vec![5, 0]);
    assert!(matches!(state, Negotiation::NeedMore(4)));
    assert!(matches!(negotiate(&[5, 1, 0, 5, 1, 0, 3]).1, Negotiation::NeedMore(1)));
    assert!(matches!(negotiate(&[5, 1, 0, 5, 1, 0, 3, 4]).1, Negotiation::NeedMore(6)));
}

#[test]
fn client_reads_greeting_and_reply_header() {
    assert_eq!(check_greeting_answer([5, 0]), Ok(()));
    assert_eq!(check_greeting_answer([5, 255]), Err(SocksClientError::AuthenticationRejected));
    assert_eq!(check_greeting_answer([4, 0]), Err(SocksClientError::AuthenticationRejected));
    assert_eq!(check_reply_header([5, 0, 0, 1]), Ok(ReplyAddress::Fixed(4)));
    assert_eq!(check_reply_header([5, 0, 0, 4]), Ok(ReplyAddress::Fixed(16)));
    assert_eq!(check_reply_header([5, 0, 0, 3]), Ok(ReplyAddress::Domain));
    assert_eq!(check_reply_header([5, 0, 0, 9]), Err(SocksClientError::InvalidReply));
    assert_eq!(check_reply_header([5, 4, 0, 1]), Err(SocksClientError::ConnectionRejected(4)));
    assert_eq!(check_reply_header([5, 0, 1, 1]), Err(SocksClientError::ConnectionRejected(0)));
    let success = reply(0);
    assert_eq!(success.len(), 10);
    assert_eq!(check_reply_header([success[0], success[1], success[2], success[3]]), Ok(ReplyAddress::Fixed(4)));
}
