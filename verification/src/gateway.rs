//! The check that Discord's API answers through a route: the gateway endpoint
//! must name Discord's secure WebSocket gateway.
use vstd::prelude::*;

use crate::text::str_equal;

verus! {

/// The largest answer read from the gateway endpoint, in bytes.
pub const MAX_GATEWAY_BODY: usize = 16_384;

/// Why an answer of the gateway endpoint is not accepted.
#[derive(Clone, Copy, Debug, PartialEq, Eq)]
pub enum GatewayError {
    /// The answer is longer than `MAX_GATEWAY_BODY`.
    BodyTooLarge,
    /// The answer is not a JSON document.
    InvalidJson,
    /// The document has no string member `url`.
    MissingUrl,
    /// The member `url` is not a URL.
    InvalidUrl,
    /// The URL is not `wss://gateway.discord.gg...`.
    UnexpectedGateway,
}

/// The text of the string member `key` of the JSON document `body`: nothing
/// when `body` is not JSON, `Some(None)` when the member is missing or not a
/// string.
pub uninterp spec fn json_text_member(body: Seq<u8>, key: Seq<char>) -> Option<Option<Seq<char>>>;

/// The scheme and host of the URL `text`, when `text` is a URL.
pub uninterp spec fn url_scheme_and_host(text: Seq<char>) -> Option<(Seq<char>, Option<Seq<char>>)>;

/// Parses `body` with `serde_json::from_slice::<serde_json::Value>`, indexes the
/// value with `key` (`Index<&str> for Value`, which gives `Null` for a missing
/// member or a non-object) and reads it with `Value::as_str`. Claims only that
/// the result is a function of `body` and `key`.
#[verifier::external_body]
fn json_member_text(body: &[u8], key: &str) -> (r: Option<Option<String>>)
    ensures
        match r {
            None => json_text_member(body@, key@) is None,
            Some(None) => json_text_member(body@, key@) == Some(None::<Seq<char>>),
            Some(Some(t)) => json_text_member(body@, key@) == Some(Some(t@)),
        },
{
    match serde_json::from_slice::<serde_json::Value>(body) {
        Ok(value) => match value[key].as_str() {
            Some(text) => Some(Some(text.to_string())),
            None => Some(None),
        },
        Err(_) => None,
    }
}

/// Parses `text` with `reqwest::Url::parse` (the `url` crate) and reads the
/// URL's `scheme()` and `host_str()`. Claims only that the result is a
/// function of `text`.
#[verifier::external_body]
fn url_parts(text: &str) -> (r: Option<(String, Option<String>)>)
    ensures
        match r {
            None => url_scheme_and_host(text@) is None,
            Some((scheme, None)) => url_scheme_and_host(text@) == Some((scheme@, None::<Seq<char>>)),
            Some((scheme, Some(host))) => url_scheme_and_host(text@) == Some((scheme@, Some(host@))),
        },
{
    match reqwest::Url::parse(text) {
        Ok(url) => match url.host_str() {
            Some(host) => Some((url.scheme().to_string(), Some(host.to_string()))),
            None => Some((url.scheme().to_string(), None)),
        },
        Err(_) => None,
    }
}

/// The verdict on a gateway URL given its scheme and host.
pub open spec fn url_verdict(parts: Option<(Seq<char>, Option<Seq<char>>)>) -> Result<(), GatewayError> {
    match parts {
        None => Err(GatewayError::InvalidUrl),
        Some((scheme, host)) => if scheme == "wss"@ && host == Some("gateway.discord.gg"@) {
            Ok(())
        } else {
            Err(GatewayError::UnexpectedGateway)
        },
    }
}

/// The verdict on an answer of the gateway endpoint.
pub open spec fn gateway_verdict(body: Seq<u8>) -> Result<(), GatewayError> {
    match json_text_member(body, "url"@) {
        None => Err(GatewayError::InvalidJson),
        Some(None) => Err(GatewayError::MissingUrl),
        Some(Some(url)) => url_verdict(url_scheme_and_host(url)),
    }
}

/// Accepts a URL only with the scheme `wss` and the host `gateway.discord.gg`.
pub fn judge_gateway_url(parts: Option<(String, Option<String>)>) -> (r: Result<(), GatewayError>)
    ensures
        r == url_verdict(
            match parts {
                None => None,
                Some((s, None)) => Some((s@, None)),
                Some((s, Some(h))) => Some((s@, Some(h@))),
            },
        ),
{
    match parts {
        None => Err(GatewayError::InvalidUrl),
        Some((scheme, host)) => {
            let secure = str_equal(scheme.as_str(), "wss");
            let discord = match &host {
                Some(h) => str_equal(h.as_str(), "gateway.discord.gg"),
                None => false,
            };
            if secure && discord {
                Ok(())
            } else {
                Err(GatewayError::UnexpectedGateway)
            }
        },
    }
}

/// Checks an answer of the gateway endpoint: a JSON document whose string
/// member `url` is a `wss` URL on `gateway.discord.gg`.
pub fn check_gateway_response(body: &[u8]) -> (r: Result<(), GatewayError>)
    ensures
        r == gateway_verdict(body@),
{
    match json_member_text(body, "url") {
        None => Err(GatewayError::InvalidJson),
        Some(None) => Err(GatewayError::MissingUrl),
        Some(Some(url)) => judge_gateway_url(url_parts(url.as_str())),
    }
}

/// The answer of the gateway endpoint, read chunk by chunk, never longer than
/// `MAX_GATEWAY_BODY`.
pub struct GatewayBody {
    bytes: Vec<u8>,
}

impl View for GatewayBody {
    type V = Seq<u8>;

    closed spec fn view(&self) -> Seq<u8> {
        self.bytes@
    }
}

impl GatewayBody {
    #[verifier::type_invariant]
    spec fn bounded(self) -> bool {
        self.bytes@.len() <= MAX_GATEWAY_BODY
    }

    pub fn new() -> (r: GatewayBody)
        ensures
            r@ == Seq::<u8>::empty(),
    {
        GatewayBody { bytes: Vec::new() }
    }

    /// Appends a chunk, or refuses it, keeping the body, when the body would
    /// grow past `MAX_GATEWAY_BODY`.
    pub fn push_chunk(&mut self, chunk: &[u8]) -> (r: Result<(), GatewayError>)
        ensures
            old(self)@.len() + chunk@.len() > MAX_GATEWAY_BODY ==> r == Err::<(), GatewayError>(
                GatewayError::BodyTooLarge,
            ) && final(self)@ == old(self)@,
            old(self)@.len() + chunk@.len() <= MAX_GATEWAY_BODY ==> r is Ok && final(self)@ == old(
                self,
            )@ + chunk@,
            final(self)@.len() <= MAX_GATEWAY_BODY,
            final(self)@.len() <= 16_384,
            old(self)@.len() + chunk@.len() <= 16_384 ==> r is Ok,
    {
        proof {
            use_type_invariant(&*self);
        }
        if chunk.len() > MAX_GATEWAY_BODY - self.bytes.len() {
            return Err(GatewayError::BodyTooLarge);
        }
        let mut bytes = Vec::new();
        let mut i: usize = 0;
        while i < self.bytes.len()
            invariant
                i <= self.bytes@.len(),
                bytes@ == self.bytes@.subrange(0, i as int),
            decreases self.bytes.len() - i,
        {
            bytes.push(self.bytes[i]);
            i = i + 1;
        }
        let mut j: usize = 0;
        while j < chunk.len()
            invariant
                j <= chunk@.len(),
                bytes@ == self.bytes@ + chunk@.subrange(0, j as int),
            decreases chunk.len() - j,
        {
            bytes.push(chunk[j]);
            j = j + 1;
        }
        assert(bytes@ =~= old(self)@ + chunk@);
        self.bytes = bytes;
        Ok(())
    }

    /// The verdict on the answer read.
    pub fn check(&self) -> (r: Result<(), GatewayError>)
        ensures
            r == gateway_verdict(self@),
    {
        check_gateway_response(self.bytes.as_slice())
    }
}

/// Only a secure WebSocket URL on Discord's gateway host is accepted: the
/// scheme must be exactly `wss` and the host exactly `gateway.discord.gg`;
/// anything that is not a URL is an invalid URL.
pub proof fn lemma_gateway_url_rule(parts: Option<(Seq<char>, Option<Seq<char>>)>)
    ensures
        url_verdict(parts) is Ok <==> parts == Some(("wss"@, Some("gateway.discord.gg"@))),
        parts is None ==> url_verdict(parts) == Err::<(), GatewayError>(GatewayError::InvalidUrl),
{
}

} // verus!
