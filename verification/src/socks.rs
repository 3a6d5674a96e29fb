//! The SOCKS5 CONNECT exchange, on both ends: the forwarder that accepts
//! Discord's requests, and the client that asks the Tor worker for a tunnel.
//!
//! The server side is a function of the bytes received so far: it answers
//! which replies are owed, and whether the request is decided or how many more
//! bytes must be read before the next decision.
use vstd::prelude::*;

use crate::proxy::{Target, TargetError};
use vstd::utf8::*;

verus! {

broadcast use vstd::utf8::group_utf8_lib;

/// The protocol version byte.
pub const SOCKS_VERSION: u8 = 5;

/// The "no authentication" method.
pub const METHOD_NO_AUTH: u8 = 0;

/// The answer to a greeting that offers no acceptable method.
pub const METHOD_NONE_ACCEPTABLE: u8 = 255;

/// The CONNECT command.
pub const COMMAND_CONNECT: u8 = 1;

/// Address types of requests and replies.
pub const ADDRESS_IPV4: u8 = 1;
pub const ADDRESS_DOMAIN: u8 = 3;
pub const ADDRESS_IPV6: u8 = 4;

/// Reply codes.
pub const REPLY_SUCCEEDED: u8 = 0;
pub const REPLY_GENERAL_FAILURE: u8 = 1;
pub const REPLY_NOT_ALLOWED: u8 = 2;
pub const REPLY_HOST_UNREACHABLE: u8 = 4;
pub const REPLY_COMMAND_NOT_SUPPORTED: u8 = 7;
pub const REPLY_ADDRESS_NOT_SUPPORTED: u8 = 8;

/// Why the forwarder refuses a request.
#[derive(Clone, Copy, Debug, PartialEq, Eq)]
pub enum SocksRefusal {
    /// The greeting is not SOCKS version 5.
    UnsupportedVersion,
    /// The client does not offer "no authentication".
    NoAcceptableMethod,
    /// The request header has a wrong version or reserved byte.
    MalformedRequest,
    /// The command is not CONNECT.
    CommandNotSupported,
    /// The destination is not given as a host name.
    HostnameRequired,
    /// The destination is refused by the policy.
    TargetRefused(TargetError),
}

/// Where the server stands after the bytes received so far.
#[derive(Debug)]
pub enum Negotiation {
    /// Read exactly this many more bytes, then ask again.
    NeedMore(usize),
    /// The request is complete and its destination is allowed.
    Accepted(Target),
    /// The request is refused; the connection ends after the owed replies.
    Rejected(SocksRefusal),
}

/// The mathematical value of a `Negotiation`.
pub enum NegotiationView {
    NeedMore(nat),
    Accepted(Seq<char>, u16),
    Rejected(SocksRefusal),
}

impl View for Negotiation {
    type V = NegotiationView;

    open spec fn view(&self) -> NegotiationView {
        match self {
            Negotiation::NeedMore(k) => NegotiationView::NeedMore(*k as nat),
            Negotiation::Accepted(t) => NegotiationView::Accepted(t.host@, t.port),
            Negotiation::Rejected(r) => NegotiationView::Rejected(*r),
        }
    }
}

/// The ten bytes of a reply with the given code and an empty IPv4 address.
pub open spec fn reply_spec(code: u8) -> Seq<u8> {
    seq![SOCKS_VERSION, code, 0u8, ADDRESS_IPV4, 0u8, 0u8, 0u8, 0u8, 0u8, 0u8]
}

/// The answer to a greeting that offers "no authentication".
pub open spec fn method_accepted() -> Seq<u8> {
    seq![SOCKS_VERSION, METHOD_NO_AUTH]
}

/// The destination named by the bytes of a request: refused as a host name
/// when they are not UTF-8, otherwise judged as `Target::new` judges it.
pub open spec fn name_outcome(name: Seq<u8>, port: u16) -> Result<(Seq<char>, u16), TargetError> {
    if !valid_utf8(name) {
        Err(TargetError::InvalidHostname)
    } else {
        crate::proxy::target_outcome(decode_utf8(name), port)
    }
}

/// The big-endian port of two bytes.
pub open spec fn port_of(hi: u8, lo: u8) -> u16 {
    (hi as int * 256 + lo as int) as u16
}

/// The replies the server owes after receiving `s`, and where it stands.
///
/// The exchange is: version 5, a count `m` and `m` methods, of which 0 ("no
/// authentication") must be one; then a header `5, 1 (CONNECT), 0, 3 (host
/// name)`, a length `l`, `l` bytes of host name and a big-endian port.
pub open spec fn negotiation(s: Seq<u8>) -> (Seq<u8>, NegotiationView) {
    let none = Seq::<u8>::empty();
    if s.len() < 1 {
        (none, NegotiationView::NeedMore(1))
    } else if s[0] != SOCKS_VERSION {
        (none, NegotiationView::Rejected(SocksRefusal::UnsupportedVersion))
    } else if s.len() < 2 {
        (none, NegotiationView::NeedMore(1))
    } else if s.len() < 2 + s[1] {
        (none, NegotiationView::NeedMore((2 + s[1] - s.len()) as nat))
    } else if !s.subrange(2, 2 + s[1]).contains(METHOD_NO_AUTH) {
        (
            seq![SOCKS_VERSION, METHOD_NONE_ACCEPTABLE],
            NegotiationView::Rejected(SocksRefusal::NoAcceptableMethod),
        )
    } else {
        let h = 2 + s[1];
        let ok = method_accepted();
        if s.len() < h + 4 {
            (ok, NegotiationView::NeedMore((h + 4 - s.len()) as nat))
        } else if s[h] != SOCKS_VERSION || s[h + 2] != 0 {
            (
                ok + reply_spec(REPLY_GENERAL_FAILURE),
                NegotiationView::Rejected(SocksRefusal::MalformedRequest),
            )
        } else if s[h + 1] != COMMAND_CONNECT {
            (
                ok + reply_spec(REPLY_COMMAND_NOT_SUPPORTED),
                NegotiationView::Rejected(SocksRefusal::CommandNotSupported),
            )
        } else if s[h + 3] != ADDRESS_DOMAIN {
            (
                ok + reply_spec(REPLY_ADDRESS_NOT_SUPPORTED),
                NegotiationView::Rejected(SocksRefusal::HostnameRequired),
            )
        } else if s.len() < h + 5 {
            (ok, NegotiationView::NeedMore(1))
        } else {
            let e = h + 5 + s[h + 4];
            if s.len() < e + 2 {
                (ok, NegotiationView::NeedMore((e + 2 - s.len()) as nat))
            } else {
                match name_outcome(s.subrange(h + 5, e), port_of(s[e], s[e + 1])) {
                    Ok(v) => (ok, NegotiationView::Accepted(v.0, v.1)),
                    Err(err) => (
                        ok + reply_spec(REPLY_NOT_ALLOWED),
                        NegotiationView::Rejected(SocksRefusal::TargetRefused(err)),
                    ),
                }
            }
        }
    }
}

/// `core::str::from_utf8` succeeds exactly on UTF-8 input and then decodes it.
pub assume_specification<'a>[ core::str::from_utf8 ](v: &'a [u8]) -> (r: Result<
    &'a str,
    core::str::Utf8Error,
>)
    ensures
        r is Ok <==> valid_utf8(v@),
        r matches Ok(s) ==> s@ == decode_utf8(v@),
;

#[verifier::external_type_specification]
#[verifier::external_body]
pub struct ExUtf8Error(core::str::Utf8Error);

/// The ten bytes of a reply with the given code.
pub fn reply(code: u8) -> (r: Vec<u8>)
    ensures
        r@ == reply_spec(code),
{
    let r = vec![SOCKS_VERSION, code, 0u8, ADDRESS_IPV4, 0u8, 0u8, 0u8, 0u8, 0u8, 0u8];
    assert(r@ =~= reply_spec(code));
    r
}

fn append(out: &mut Vec<u8>, more: Vec<u8>)
    ensures
        final(out)@ == old(out)@ + more@,
{
    let mut more = more;
    out.append(&mut more);
}

/// Judges a host name given as bytes, as the forwarder does.
fn name_target(input: &[u8], from: usize, to: usize, port: u16) -> (r: Result<Target, TargetError>)
    requires
        from <= to <= input@.len(),
    ensures
        match r {
            Ok(t) => name_outcome(input@.subrange(from as int, to as int), port) == Ok::<
                (Seq<char>, u16),
                TargetError,
            >(t@),
            Err(e) => name_outcome(input@.subrange(from as int, to as int), port) == Err::<
                (Seq<char>, u16),
                TargetError,
            >(e),
        },
{
    let mut name: Vec<u8> = Vec::new();
    let mut i = from;
    while i < to
        invariant
            from <= i <= to <= input@.len(),
            name@ == input@.subrange(from as int, i as int),
        decreases to - i,
    {
        name.push(input[i]);
        i = i + 1;
    }
    match core::str::from_utf8(name.as_slice()) {
        Ok(text) => Target::new(text, port),
        Err(_) => Err(TargetError::InvalidHostname),
    }
}

/// Where the server stands after receiving `input`, with every reply it owes so
/// far. Replies already sent for a shorter input are a prefix of these.
pub fn negotiate(input: &[u8]) -> (r: (Vec<u8>, Negotiation))
    ensures
        (r.0@, r.1@) == negotiation(input@),
{
    let len = input.len();
    if len < 1 {
        return (Vec::new(), Negotiation::NeedMore(1));
    }
    if input[0] != SOCKS_VERSION {
        return (Vec::new(), Negotiation::Rejected(SocksRefusal::UnsupportedVersion));
    }
    if len < 2 {
        return (Vec::new(), Negotiation::NeedMore(1));
    }
    let count = input[1] as usize;
    if len < 2 + count {
        return (Vec::new(), Negotiation::NeedMore(2 + count - len));
    }
    let mut found = false;
    let mut i: usize = 2;
    while i < 2 + count
        invariant
            2 + count <= len == input@.len(),
            count == input@[1],
            2 <= i <= 2 + count,
            found <==> exists|j: int| 2 <= j < i && input@[j] == METHOD_NO_AUTH,
        decreases 2 + count - i,
    {
        if input[i] == METHOD_NO_AUTH {
            found = true;
        }
        i = i + 1;
    }
    let ghost methods = input@.subrange(2, 2 + count as int);
    proof {
        if found {
            let j = choose|j: int| 2 <= j < 2 + count && input@[j] == METHOD_NO_AUTH;
            assert(methods[j - 2] == METHOD_NO_AUTH);
        }
        if methods.contains(METHOD_NO_AUTH) {
            let j = choose|j: int| 0 <= j < methods.len() && methods[j] == METHOD_NO_AUTH;
            assert(input@[j + 2] == METHOD_NO_AUTH);
        }
    }
    if !found {
        let r = vec![SOCKS_VERSION, METHOD_NONE_ACCEPTABLE];
        assert(r@ =~= seq![SOCKS_VERSION, METHOD_NONE_ACCEPTABLE]);
        return (r, Negotiation::Rejected(SocksRefusal::NoAcceptableMethod));
    }
    let h = 2 + count;
    let mut out = vec![SOCKS_VERSION, METHOD_NO_AUTH];
    assert(out@ =~= method_accepted());
    if len < h + 4 {
        return (out, Negotiation::NeedMore(h + 4 - len));
    }
    if input[h] != SOCKS_VERSION || input[h + 2] != 0 {
        append(&mut out, reply(REPLY_GENERAL_FAILURE));
        return (out, Negotiation::Rejected(SocksRefusal::MalformedRequest));
    }
    if input[h + 1] != COMMAND_CONNECT {
        append(&mut out, reply(REPLY_COMMAND_NOT_SUPPORTED));
        return (out, Negotiation::Rejected(SocksRefusal::CommandNotSupported));
    }
    if input[h + 3] != ADDRESS_DOMAIN {
        append(&mut out, reply(REPLY_ADDRESS_NOT_SUPPORTED));
        return (out, Negotiation::Rejected(SocksRefusal::HostnameRequired));
    }
    if len < h + 5 {
        return (out, Negotiation::NeedMore(1));
    }
    let e = h + 5 + input[h + 4] as usize;
    if len < e + 2 {
        return (out, Negotiation::NeedMore(e + 2 - len));
    }
    let port = (input[e] as u16) * 256 + input[e + 1] as u16;
    assert(port == port_of(input@[e as int], input@[e + 1]));
    match name_target(input, h + 5, e, port) {
        Ok(t) => (out, Negotiation::Accepted(t)),
        Err(err) => {
            append(&mut out, reply(REPLY_NOT_ALLOWED));
            (out, Negotiation::Rejected(SocksRefusal::TargetRefused(err)))
        },
    }
}

// The client side, towards the Tor worker.

/// What the client sends first: version 5, one method, "no authentication".
pub open spec fn greeting_spec() -> Seq<u8> {
    seq![SOCKS_VERSION, 1u8, METHOD_NO_AUTH]
}

/// A CONNECT request for `host:port`: the header, the length of the UTF-8 name
/// (as one byte, so modulo 256), the name, and the big-endian port.
pub open spec fn request_spec(host: Seq<char>, port: u16) -> Seq<u8> {
    let b = encode_utf8(host);
    seq![SOCKS_VERSION, COMMAND_CONNECT, 0u8, ADDRESS_DOMAIN, (b.len() % 256) as u8] + b + seq![
        (port / 256) as u8,
        (port % 256) as u8,
    ]
}

pub fn client_greeting() -> (r: Vec<u8>)
    ensures
        r@ == greeting_spec(),
{
    let r = vec![SOCKS_VERSION, 1u8, METHOD_NO_AUTH];
    assert(r@ =~= greeting_spec());
    r
}

/// The CONNECT request that asks for `target`.
pub fn connect_request(target: &Target) -> (r: Vec<u8>)
    ensures
        r@ == request_spec(target.host@, target.port),
{
    let name = target.host.as_str().as_bytes();
    let mut r = vec![
        SOCKS_VERSION,
        COMMAND_CONNECT,
        0u8,
        ADDRESS_DOMAIN,
        (name.len() % 256) as u8,
    ];
    let ghost head = r@;
    let mut i: usize = 0;
    while i < name.len()
        invariant
            i <= name@.len(),
            name@ == encode_utf8(target.host@),
            r@ == head + name@.subrange(0, i as int),
        decreases name.len() - i,
    {
        r.push(name[i]);
        i = i + 1;
    }
    r.push((target.port / 256) as u8);
    r.push((target.port % 256) as u8);
    assert(r@ =~= request_spec(target.host@, target.port));
    r
}

/// Why the worker's SOCKS server did not open a tunnel.
#[derive(Clone, Copy, Debug, PartialEq, Eq)]
pub enum SocksClientError {
    /// The greeting answer is not "version 5, no authentication".
    AuthenticationRejected,
    /// The reply has a wrong version, a failure code (kept here) or a reserved byte set.
    ConnectionRejected(u8),
    /// The reply names an unknown address type.
    InvalidReply,
}

/// How the address of a successful reply is laid out.
#[derive(Clone, Copy, Debug, PartialEq, Eq)]
pub enum ReplyAddress {
    /// That many address bytes, then two port bytes.
    Fixed(usize),
    /// One length byte, that many name bytes, then two port bytes.
    Domain,
}

pub open spec fn greeting_answer_ok(answer: Seq<u8>) -> bool {
    answer == method_accepted()
}

/// What the client makes of the first four bytes of a reply.
pub open spec fn reply_header_outcome(h: Seq<u8>) -> Result<ReplyAddress, SocksClientError> {
    if !(h[0] == SOCKS_VERSION && h[1] == REPLY_SUCCEEDED && h[2] == 0) {
        Err(SocksClientError::ConnectionRejected(h[1]))
    } else if h[3] == ADDRESS_IPV4 {
        Ok(ReplyAddress::Fixed(4))
    } else if h[3] == ADDRESS_IPV6 {
        Ok(ReplyAddress::Fixed(16))
    } else if h[3] == ADDRESS_DOMAIN {
        Ok(ReplyAddress::Domain)
    } else {
        Err(SocksClientError::InvalidReply)
    }
}

/// The greeting answer must be "version 5, no authentication".
pub fn check_greeting_answer(answer: [u8; 2]) -> (r: Result<(), SocksClientError>)
    ensures
        r is Ok <==> greeting_answer_ok(answer@),
        r is Err ==> r == Err::<(), SocksClientError>(SocksClientError::AuthenticationRejected),
{
    if answer[0] == SOCKS_VERSION && answer[1] == METHOD_NO_AUTH {
        assert(answer@ =~= method_accepted());
        Ok(())
    } else {
        assert(answer@[0] != SOCKS_VERSION || answer@[1] != METHOD_NO_AUTH);
        Err(SocksClientError::AuthenticationRejected)
    }
}

/// Reads the header of the reply to a CONNECT request.
pub fn check_reply_header(header: [u8; 4]) -> (r: Result<ReplyAddress, SocksClientError>)
    ensures
        r == reply_header_outcome(header@),
{
    if !(header[0] == SOCKS_VERSION && header[1] == REPLY_SUCCEEDED && header[2] == 0) {
        return Err(SocksClientError::ConnectionRejected(header[1]));
    }
    if header[3] == ADDRESS_IPV4 {
        Ok(ReplyAddress::Fixed(4))
    } else if header[3] == ADDRESS_IPV6 {
        Ok(ReplyAddress::Fixed(16))
    } else if header[3] == ADDRESS_DOMAIN {
        Ok(ReplyAddress::Domain)
    } else {
        Err(SocksClientError::InvalidReply)
    }
}

// Laws of the exchange.

/// Once the server has decided, more bytes change nothing: neither the replies
/// nor the outcome.
pub proof fn lemma_decision_is_final(s: Seq<u8>, t: Seq<u8>)
    requires
        !(negotiation(s).1 is NeedMore),
    ensures
        negotiation(s + t) == negotiation(s),
{
    let u = s + t;
    assert forall|i: int| 0 <= i < s.len() implies u[i] == s[i] by {}
    if s.len() >= 2 && s[0] == SOCKS_VERSION && s.len() >= 2 + s[1] {
        assert(u.subrange(2, 2 + s[1]) =~= s.subrange(2, 2 + s[1]));
        let h = 2 + s[1];
        if s.len() >= h + 5 {
            let e = h + 5 + s[h + 4];
            if s.len() >= e + 2 {
                assert(u.subrange(h + 5, e) =~= s.subrange(h + 5, e));
            }
        }
    }
}

/// The replies owed never shrink nor change as bytes arrive: what was sent
/// for a shorter input is a prefix of what is owed for a longer one.
pub proof fn lemma_replies_grow(s: Seq<u8>, t: Seq<u8>)
    ensures
        negotiation(s).0.len() <= negotiation(s + t).0.len(),
        negotiation(s + t).0.subrange(0, negotiation(s).0.len() as int) == negotiation(s).0,
{
    let u = s + t;
    assert forall|i: int| 0 <= i < s.len() implies u[i] == s[i] by {}
    if !(negotiation(s).1 is NeedMore) {
        lemma_decision_is_final(s, t);
        assert(negotiation(u).0.subrange(0, negotiation(s).0.len() as int) =~= negotiation(s).0);
    } else if s.len() >= 2 && s[0] == SOCKS_VERSION && s.len() >= 2 + s[1] {
        assert(u.subrange(2, 2 + s[1]) =~= s.subrange(2, 2 + s[1]));
        assert(negotiation(s).0 == method_accepted());
        let r = negotiation(u).0;
        assert(r.subrange(0, 2) =~= method_accepted());
    }
}

/// The server asks for at least one byte, and for exactly as many as it needs
/// before its next decision: fewer leave it waiting for the rest.
pub proof fn lemma_need_is_exact(s: Seq<u8>, t: Seq<u8>)
    requires
        negotiation(s).1 is NeedMore,
    ensures
        negotiation(s).1->NeedMore_0 >= 1,
        t.len() < negotiation(s).1->NeedMore_0 ==> negotiation(s + t).1 == NegotiationView::NeedMore(
            (negotiation(s).1->NeedMore_0 - t.len()) as nat,
        ),
{
    let u = s + t;
    assert forall|i: int| 0 <= i < s.len() implies u[i] == s[i] by {}
    if s.len() >= 2 && s[0] == SOCKS_VERSION && s.len() >= 2 + s[1] {
        assert(u.subrange(2, 2 + s[1]) =~= s.subrange(2, 2 + s[1]));
    }
}

/// Every accepted request names port 443 and a valid host name within a
/// Discord domain: nothing else ever reaches an upstream connector.
pub proof fn lemma_accepted_obeys_policy(s: Seq<u8>)
    requires
        negotiation(s).1 is Accepted,
    ensures
        negotiation(s).1->Accepted_1 == crate::proxy::HTTPS_PORT,
        crate::proxy::valid_hostname(negotiation(s).1->Accepted_0),
        crate::proxy::is_discord_host(negotiation(s).1->Accepted_0),
{
}

/// A valid host name is ASCII.
pub proof fn lemma_valid_hostname_is_ascii(n: Seq<char>)
    requires
        crate::proxy::valid_hostname(n),
    ensures
        is_ascii_chars(n),
{
    assert forall|i: int| 0 <= i < n.len() implies '\0' <= #[trigger] n[i] <= '\u{7f}' by {
        assert(crate::proxy::host_position_ok(n, i));
    }
}

/// The forwarder accepts what the client asks for: a greeting followed by the
/// CONNECT request for an accepted target is accepted, for that same target,
/// after the one "no authentication" answer.
pub proof fn lemma_client_request_accepted(host: Seq<char>, port: u16)
    requires
        crate::proxy::target_outcome(host, port) == Ok::<(Seq<char>, u16), TargetError>(
            (host, port),
        ),
    ensures
        negotiation(greeting_spec() + request_spec(host, port)) == (
            method_accepted(),
            NegotiationView::Accepted(host, port),
        ),
{
    lemma_valid_hostname_is_ascii(host);
    is_ascii_chars_encode_utf8(host);
    let b = encode_utf8(host);
    assert(b.len() == host.len());
    assert(b.len() <= 253);
    let s = greeting_spec() + request_spec(host, port);
    let e: int = 8 + b.len() as int;
    assert(s.len() == e + 2);
    assert(s[1] == 1);
    assert(s.subrange(2, 3) =~= seq![METHOD_NO_AUTH]);
    assert(s.subrange(2, 3)[0] == METHOD_NO_AUTH);
    assert(s[7] == b.len());
    assert(s.subrange(8, e) =~= b);
    assert(port_of(s[e], s[e + 1]) == port);
}

/// A greeting is answered "no authentication" exactly when that method (0) is
/// among the methods offered, at any position: the server then waits for the
/// four bytes of the request header. Otherwise it answers that no method is
/// acceptable and refuses.
pub proof fn lemma_greeting_answer(methods: Seq<u8>)
    requires
        1 <= methods.len() <= 255,
    ensures
        methods.contains(0u8) ==> negotiation(seq![5u8, methods.len() as u8] + methods) == (
            seq![5u8, 0u8],
            NegotiationView::NeedMore(4),
        ),
        !methods.contains(0u8) ==> negotiation(seq![5u8, methods.len() as u8] + methods) == (
            seq![5u8, 255u8],
            NegotiationView::Rejected(SocksRefusal::NoAcceptableMethod),
        ),
{
    let s = seq![5u8, methods.len() as u8] + methods;
    assert(s[0] == 5u8);
    assert(s[1] == methods.len());
    assert(s.subrange(2, 2 + s[1]) =~= methods);
    assert(method_accepted() =~= seq![5u8, 0u8]);
}

/// A greeting that is not version 5 is refused at once, with no reply.
pub proof fn lemma_wrong_version_refused(s: Seq<u8>)
    requires
        s.len() >= 1,
        s[0] != 5,
    ensures
        negotiation(s) == (Seq::<u8>::empty(), NegotiationView::Rejected(SocksRefusal::UnsupportedVersion)),
{
}

/// After an accepted greeting, the request header decides: a wrong version or
/// reserved byte is answered with the general failure reply (code 1), a command
/// other than CONNECT with code 7, an address that is not a host name with code
/// 8; each reply is version 5, the code, 0, IPv4 and six zero bytes.
pub proof fn lemma_request_header_refusals(methods: Seq<u8>, header: Seq<u8>)
    requires
        1 <= methods.len() <= 255,
        methods.contains(0u8),
        header.len() == 4,
    ensures
        ({
            let out = negotiation(seq![5u8, methods.len() as u8] + methods + header);
            let ok = seq![5u8, 0u8];
            &&& (header[0] != 5 || header[2] != 0) ==> out == (
                ok + seq![5u8, 1u8, 0u8, 1u8, 0u8, 0u8, 0u8, 0u8, 0u8, 0u8],
                NegotiationView::Rejected(SocksRefusal::MalformedRequest),
            )
            &&& (header[0] == 5 && header[2] == 0 && header[1] != 1) ==> out == (
                ok + seq![5u8, 7u8, 0u8, 1u8, 0u8, 0u8, 0u8, 0u8, 0u8, 0u8],
                NegotiationView::Rejected(SocksRefusal::CommandNotSupported),
            )
            &&& (header[0] == 5 && header[2] == 0 && header[1] == 1 && header[3] != 3) ==> out == (
                ok + seq![5u8, 8u8, 0u8, 1u8, 0u8, 0u8, 0u8, 0u8, 0u8, 0u8],
                NegotiationView::Rejected(SocksRefusal::HostnameRequired),
            )
            &&& (header[0] == 5 && header[2] == 0 && header[1] == 1 && header[3] == 3) ==> out == (
                ok,
                NegotiationView::NeedMore(1),
            )
        }),
{
    let g = seq![5u8, methods.len() as u8] + methods;
    let s = g + header;
    let h: int = 2 + methods.len() as int;
    assert(s[0] == 5u8);
    assert(s[1] == methods.len());
    assert(s.subrange(2, 2 + s[1]) =~= methods);
    assert(s[h] == header[0]);
    assert(s[h + 1] == header[1]);
    assert(s[h + 2] == header[2]);
    assert(s[h + 3] == header[3]);
    assert(method_accepted() =~= seq![5u8, 0u8]);
    assert(reply_spec(REPLY_GENERAL_FAILURE) =~= seq![5u8, 1u8, 0u8, 1u8, 0u8, 0u8, 0u8, 0u8, 0u8, 0u8]);
    assert(reply_spec(REPLY_COMMAND_NOT_SUPPORTED) =~= seq![5u8, 7u8, 0u8, 1u8, 0u8, 0u8, 0u8, 0u8, 0u8, 0u8]);
    assert(reply_spec(REPLY_ADDRESS_NOT_SUPPORTED) =~= seq![5u8, 8u8, 0u8, 1u8, 0u8, 0u8, 0u8, 0u8, 0u8, 0u8]);
}

/// The client reads the forwarder's replies as meant: success opens a tunnel
/// whose reply has a four-byte address and a port, which is exactly the rest of
/// the ten bytes; any other code is reported as a rejection with that code.
pub proof fn lemma_client_reads_replies(code: u8)
    ensures
        reply_spec(code).len() == 4 + 4 + 2,
        code == REPLY_SUCCEEDED ==> reply_header_outcome(reply_spec(code).take(4)) == Ok::<
            ReplyAddress,
            SocksClientError,
        >(ReplyAddress::Fixed(4)),
        code != REPLY_SUCCEEDED ==> reply_header_outcome(reply_spec(code).take(4)) == Err::<
            ReplyAddress,
            SocksClientError,
        >(SocksClientError::ConnectionRejected(code)),
{
}

} // verus!
