//! The destination policy of the local SOCKS5 forwarder: only HTTPS to the
//! Discord domains, by name.
use vstd::prelude::*;

use crate::text::{chars_equal_at, chars_of, is_ascii_alnum_char, string_of};

verus! {

/// The only destination port the forwarder serves.
pub const HTTPS_PORT: u16 = 443;

/// The longest host name accepted, in characters (all of them ASCII).
pub const MAX_HOST_LEN: usize = 253;

/// The longest label of a host name.
pub const MAX_LABEL_LEN: usize = 63;

/// A destination that a client of the forwarder asked for.
#[derive(Clone, Debug)]
pub struct Target {
    pub host: String,
    pub port: u16,
}

/// Why a destination is refused.
#[derive(Clone, Copy, Debug, PartialEq, Eq)]
pub enum TargetError {
    /// Only port 443 is served.
    PortNotAllowed,
    /// The name is empty, too long, or not made of valid labels.
    InvalidHostname,
    /// The name is neither a Discord domain nor one of its subdomains.
    NotDiscordDomain,
}

impl View for Target {
    type V = (Seq<char>, u16);

    open spec fn view(&self) -> (Seq<char>, u16) {
        (self.host@, self.port)
    }
}

/// The name without one trailing dot (the root of the DNS tree).
pub open spec fn strip_root_dot(h: Seq<char>) -> Seq<char> {
    if h.len() > 0 && h.last() == '.' {
        h.drop_last()
    } else {
        h
    }
}

/// The name as the forwarder stores it: without a trailing dot, in ASCII lower case.
pub open spec fn normalize_host(h: Seq<char>) -> Seq<char> {
    crate::text::lower_all(strip_root_dot(h))
}

/// How many characters of the current label precede position `i` of `n`.
pub open spec fn label_offset(n: Seq<char>, i: int) -> nat
    decreases i,
{
    if i <= 0 || n[i - 1] == '.' {
        0
    } else {
        label_offset(n, i - 1) + 1
    }
}

/// Position `i` of `n` respects the label rules: a dot closes a non-empty
/// label; any other character is an ASCII letter, digit or hyphen, lies within
/// the first 63 characters of its label, and a hyphen neither starts nor ends
/// its label.
pub open spec fn host_position_ok(n: Seq<char>, i: int) -> bool {
    let c = n[i];
    if c == '.' {
        label_offset(n, i) > 0
    } else {
        &&& crate::text::is_ascii_alnum(c) || c == '-'
        &&& label_offset(n, i) < MAX_LABEL_LEN
        &&& c == '-' ==> label_offset(n, i) > 0 && i + 1 < n.len() && n[i + 1] != '.'
    }
}

/// `n` is a host name: 1 to 253 characters, split by dots into labels of 1 to
/// 63 ASCII letters, digits and hyphens, none starting or ending with a hyphen.
pub open spec fn valid_hostname(n: Seq<char>) -> bool {
    &&& 0 < n.len() <= MAX_HOST_LEN
    &&& forall|i: int| 0 <= i < n.len() ==> #[trigger] host_position_ok(n, i)
    &&& label_offset(n, n.len() as int) > 0
}

/// `n` is the domain `d` or one of its subdomains (a dot boundary before `d`).
pub open spec fn within_domain(n: Seq<char>, d: Seq<char>) -> bool {
    ||| n == d
    ||| n.len() > d.len() && n[n.len() - d.len() - 1] == '.' && n.subrange(
        n.len() - d.len(),
        n.len() as int,
    ) == d
}

/// The Discord domains the forwarder serves.
pub open spec fn discord_domains() -> Seq<Seq<char>> {
    seq![
        "discord.com"@,
        "discord.gg"@,
        "discordapp.com"@,
        "discordapp.net"@,
        "discord.media"@,
        "discordcdn.com"@,
        "discordstatus.com"@,
    ]
}

pub open spec fn is_discord_host(n: Seq<char>) -> bool {
    exists|k: int| 0 <= k < discord_domains().len() && within_domain(n, #[trigger] discord_domains()[k])
}

/// What `Target::new` gives for a host name and a port.
pub open spec fn target_outcome(host: Seq<char>, port: u16) -> Result<(Seq<char>, u16), TargetError> {
    let n = normalize_host(host);
    if port != HTTPS_PORT {
        Err(TargetError::PortNotAllowed)
    } else if !valid_hostname(n) {
        Err(TargetError::InvalidHostname)
    } else if !is_discord_host(n) {
        Err(TargetError::NotDiscordDomain)
    } else {
        Ok((n, port))
    }
}

/// The Discord domains, as the executable code reads them.
fn discord_domain_names() -> (v: Vec<&'static str>)
    ensures
        v@.len() == discord_domains().len(),
        forall|k: int| 0 <= k < v@.len() ==> (#[trigger] v@[k])@ == discord_domains()[k],
{
    let v = vec![
        "discord.com",
        "discord.gg",
        "discordapp.com",
        "discordapp.net",
        "discord.media",
        "discordcdn.com",
        "discordstatus.com",
    ];
    v
}

/// `chars[..len]` is `domain` or one of its subdomains.
fn within_domain_exec(chars: &Vec<char>, len: usize, domain: &Vec<char>) -> (r: bool)
    requires
        len <= chars.len(),
    ensures
        r == within_domain(chars@.subrange(0, len as int), domain@),
{
    let ghost n = chars@.subrange(0, len as int);
    if len == domain.len() {
        let same = chars_equal_at(chars, 0, domain);
        assert(same ==> n =~= domain@);
        assert(n == domain@ ==> chars@.subrange(0, domain.len() as int) =~= domain@);
        same
    } else if len > domain.len() {
        let start = len - domain.len();
        if chars[start - 1] != '.' {
            return false;
        }
        let same = chars_equal_at(chars, start, domain);
        assert(chars@.subrange(start as int, start + domain.len()) =~= n.subrange(
            start as int,
            len as int,
        ));
        same
    } else {
        false
    }
}

impl Target {
    /// Accepts `host:port` when the port is 443 and the name, without one
    /// trailing dot and in lower case, is a valid host name within a Discord
    /// domain; the target then holds that normalized name.
    pub fn new(host: &str, port: u16) -> (r: Result<Target, TargetError>)
        ensures
            match r {
                Ok(t) => target_outcome(host@, port) == Ok::<(Seq<char>, u16), TargetError>(t@),
                Err(e) => target_outcome(host@, port) == Err::<(Seq<char>, u16), TargetError>(e),
            },
    {
        let lowered = crate::text::lowercase_ascii(host);
        let chars = chars_of(lowered.as_str());
        let len = if chars.len() > 0 && chars[chars.len() - 1] == '.' {
            chars.len() - 1
        } else {
            chars.len()
        };
        let ghost n = chars@.subrange(0, len as int);
        proof {
            assert(n =~= normalize_host(host@));
        }
        if port != HTTPS_PORT {
            return Err(TargetError::PortNotAllowed);
        }
        if !valid_prefix(&chars, len) {
            return Err(TargetError::InvalidHostname);
        }
        let domains = discord_domain_names();
        let mut k: usize = 0;
        while k < domains.len()
            invariant
                k <= domains@.len(),
                domains@.len() == discord_domains().len(),
                forall|j: int| 0 <= j < domains@.len() ==> (#[trigger] domains@[j])@ == discord_domains()[j],
                len <= chars.len(),
                n == chars@.subrange(0, len as int),
                n == normalize_host(host@),
                valid_hostname(n),
                port == HTTPS_PORT,
                forall|j: int| 0 <= j < k ==> !within_domain(n, #[trigger] discord_domains()[j]),
            decreases domains.len() - k,
        {
            let domain = chars_of(domains[k]);
            if within_domain_exec(&chars, len, &domain) {
                let name = string_of(&chars, 0, len);
                assert(within_domain(n, discord_domains()[k as int]));
                return Ok(Target { host: name, port });
            }
            k = k + 1;
        }
        Err(TargetError::NotDiscordDomain)
    }
}

/// Whether `chars[..len]` is a valid host name.
fn valid_prefix(chars: &Vec<char>, len: usize) -> (r: bool)
    requires
        len <= chars.len(),
    ensures
        r == valid_hostname(chars@.subrange(0, len as int)),
{
    let ghost n = chars@.subrange(0, len as int);
    if len == 0 || len > MAX_HOST_LEN {
        return false;
    }
    let mut offset: usize = 0;
    let mut i: usize = 0;
    while i < len
        invariant
            0 < len <= MAX_HOST_LEN,
            len <= chars.len(),
            n == chars@.subrange(0, len as int),
            i <= len,
            offset == label_offset(n, i as int),
            forall|j: int| 0 <= j < i ==> #[trigger] host_position_ok(n, j),
        decreases len - i,
    {
        let c = chars[i];
        assert(n[i as int] == c);
        if c == '.' {
            if offset == 0 {
                assert(!host_position_ok(n, i as int));
                return false;
            }
            offset = 0;
        } else {
            let is_hyphen = c == '-';
            if !(is_ascii_alnum_char(c) || is_hyphen) || offset >= MAX_LABEL_LEN {
                assert(!host_position_ok(n, i as int));
                return false;
            }
            if is_hyphen && (offset == 0 || i + 1 >= len || chars[i + 1] == '.') {
                assert(!host_position_ok(n, i as int));
                return false;
            }
            offset = offset + 1;
        }
        assert(host_position_ok(n, i as int));
        i = i + 1;
    }
    if offset == 0 {
        return false;
    }
    true
}

/// The host-name rules, stated character by character: 1 to 253 ASCII
/// letters, digits, hyphens and dots; no dot first, last or after another dot;
/// a hyphen neither first in a label nor last; no run of 64 characters
/// without a dot (a label has at most 63).
pub open spec fn hostname_rules(n: Seq<char>) -> bool {
    &&& 1 <= n.len() <= 253
    &&& forall|i: int|
        0 <= i < n.len() ==> crate::text::is_ascii_alnum(#[trigger] n[i]) || n[i] == '-' || n[i] == '.'
    &&& forall|i: int| 0 <= i < n.len() && #[trigger] n[i] == '.' ==> i > 0 && n[i - 1] != '.'
    &&& n.last() != '.'
    &&& forall|i: int|
        0 <= i < n.len() && #[trigger] n[i] == '-' ==> i > 0 && n[i - 1] != '.' && i + 1 < n.len()
            && n[i + 1] != '.'
    &&& forall|i: int| 0 <= i && i + 64 <= n.len() ==> #[trigger] dot_among_64(n, i)
}

/// One of the 64 characters from position `i` of `n` is a dot.
pub open spec fn dot_among_64(n: Seq<char>, i: int) -> bool {
    exists|k: int| i <= k < i + 64 && #[trigger] n[k] == '.'
}

proof fn lemma_offset_means_no_dot(n: Seq<char>, i: int, j: int)
    requires
        0 <= i <= n.len(),
        i - label_offset(n, i) <= j < i,
    ensures
        n[j] != '.',
        i - label_offset(n, i) >= 0,
    decreases i,
{
    if i > 0 && n[i - 1] != '.' && j < i - 1 {
        lemma_offset_means_no_dot(n, i - 1, j);
    }
    if i > 0 && n[i - 1] != '.' {
        lemma_offset_nonneg_start(n, i - 1);
    }
}

proof fn lemma_offset_nonneg_start(n: Seq<char>, i: int)
    requires
        0 <= i <= n.len(),
    ensures
        label_offset(n, i) <= i,
    decreases i,
{
    if i > 0 && n[i - 1] != '.' {
        lemma_offset_nonneg_start(n, i - 1);
    }
}

proof fn lemma_no_dot_means_offset(n: Seq<char>, i: int, k: int)
    requires
        0 <= k <= i <= n.len(),
        forall|j: int| i - k <= j < i ==> n[j] != '.',
    ensures
        label_offset(n, i) >= k,
    decreases k,
{
    if k > 0 {
        lemma_no_dot_means_offset(n, i - 1, k - 1);
    }
}

/// `valid_hostname` says exactly what the host-name rules say.
pub proof fn lemma_hostname_rules(n: Seq<char>)
    ensures
        valid_hostname(n) <==> hostname_rules(n),
{
    if valid_hostname(n) {
        assert forall|i: int| 0 <= i < n.len() implies crate::text::is_ascii_alnum(#[trigger] n[i])
            || n[i] == '-' || n[i] == '.' by {
            assert(host_position_ok(n, i));
        }
        assert forall|i: int| 0 <= i < n.len() && #[trigger] n[i] == '.' implies i > 0 && n[i - 1] != '.' by {
            assert(host_position_ok(n, i));
        }
        assert forall|i: int| 0 <= i < n.len() && #[trigger] n[i] == '-' implies i > 0 && n[i - 1]
            != '.' && i + 1 < n.len() && n[i + 1] != '.' by {
            assert(host_position_ok(n, i));
        }
        assert forall|i: int| 0 <= i && i + 64 <= n.len() implies #[trigger] dot_among_64(n, i) by {
            if forall|k: int| i <= k < i + 64 ==> n[k] != '.' {
                lemma_no_dot_means_offset(n, i + 63, 63);
                assert(host_position_ok(n, i + 63));
            }
        }
    }
    if hostname_rules(n) {
        assert forall|i: int| 0 <= i < n.len() implies #[trigger] host_position_ok(n, i) by {
            if n[i] != '.' {
                if label_offset(n, i) >= 63 {
                    lemma_offset_nonneg_start(n, i);
                    assert forall|j: int| i - 63 <= j < i + 1 implies n[j] != '.' by {
                        if j < i {
                            lemma_offset_means_no_dot(n, i, j);
                        }
                    }
                    assert(dot_among_64(n, i - 63));
                    let k = choose|k: int| i - 63 <= k < i + 1 && #[trigger] n[k] == '.';
                    assert(false);
                }
            }
        }
    }
}

/// `n` is `d` or a name under `d`: it ends with a dot followed by `d`.
pub open spec fn named_under(n: Seq<char>, d: Seq<char>) -> bool {
    n == d || (n.len() > d.len() && n.subrange(n.len() - d.len() - 1, n.len() as int) == seq!['.'] + d)
}

/// `n` is one of Discord's seven domains or a name under one of them.
pub open spec fn served_discord_name(n: Seq<char>) -> bool {
    ||| named_under(n, "discord.com"@)
    ||| named_under(n, "discord.gg"@)
    ||| named_under(n, "discordapp.com"@)
    ||| named_under(n, "discordapp.net"@)
    ||| named_under(n, "discord.media"@)
    ||| named_under(n, "discordcdn.com"@)
    ||| named_under(n, "discordstatus.com"@)
}

proof fn lemma_within_is_named_under(n: Seq<char>, d: Seq<char>)
    ensures
        within_domain(n, d) <==> named_under(n, d),
{
    if n.len() > d.len() {
        let a = n.subrange(n.len() - d.len() - 1, n.len() as int);
        if n[n.len() - d.len() - 1] == '.' && n.subrange(n.len() - d.len(), n.len() as int) == d {
            assert(a =~= seq!['.'] + d);
        }
        if a == seq!['.'] + d {
            assert(a[0] == n[n.len() - d.len() - 1]);
            assert(n.subrange(n.len() - d.len(), n.len() as int) =~= a.drop_first());
            assert((seq!['.'] + d).drop_first() =~= d);
        }
    }
}

/// The forwarder's policy, stated on its inputs: only port 443 is served; an
/// accepted name is the requested one without one trailing dot, in ASCII
/// lower case, 1 to 253 characters of letters, digits, hyphens and dots,
/// neither starting nor ending with a dot and not starting with a hyphen, and
/// it is one of Discord's seven domains or a name under one; every valid name
/// under those domains is accepted on port 443; an invalid name is refused as
/// such, and a valid one outside those domains as not Discord's.
pub proof fn lemma_target_policy(host: Seq<char>, port: u16)
    ensures
        port != 443 ==> target_outcome(host, port) == Err::<(Seq<char>, u16), TargetError>(
            TargetError::PortNotAllowed,
        ),
        target_outcome(host, port) matches Ok((n, p)) ==> {
            &&& p == 443
            &&& n == normalize_host(host)
            &&& 1 <= n.len() <= 253
            &&& n[0] != '.' && n[0] != '-' && n.last() != '.'
            &&& forall|i: int|
                0 <= i < n.len() ==> ('a' <= #[trigger] n[i] <= 'z') || ('0' <= n[i] <= '9') || n[i]
                    == '-' || n[i] == '.'
            &&& served_discord_name(n)
        },
        target_outcome(host, port) matches Ok((n, p)) ==> hostname_rules(n),
        target_outcome(host, port) matches Ok((n, p)) ==> (if host.len() > 0 && host.last() == '.' {
            n.len() + 1 == host.len()
        } else {
            n.len() == host.len()
        }) && forall|i: int|
            0 <= i < n.len() ==> if 'A' <= host[i] <= 'Z' {
                #[trigger] n[i] as int == host[i] as int + 32
            } else {
                n[i] == host[i]
            },
        port == 443 && hostname_rules(normalize_host(host)) && served_discord_name(
            normalize_host(host),
        ) ==> target_outcome(host, port) == Ok::<(Seq<char>, u16), TargetError>(
            (normalize_host(host), 443),
        ),
        port == 443 && !hostname_rules(normalize_host(host)) ==> target_outcome(host, port)
            == Err::<(Seq<char>, u16), TargetError>(TargetError::InvalidHostname),
        port == 443 && hostname_rules(normalize_host(host)) && !served_discord_name(
            normalize_host(host),
        ) ==> target_outcome(host, port) == Err::<(Seq<char>, u16), TargetError>(
            TargetError::NotDiscordDomain,
        ),
{
    let n = normalize_host(host);
    lemma_hostname_rules(n);
    assert forall|i: int| 0 <= i < n.len() implies if 'A' <= host[i] <= 'Z' {
        #[trigger] n[i] as int == host[i] as int + 32
    } else {
        n[i] == host[i]
    } by {
        let st = strip_root_dot(host);
        assert(st[i] == host[i]);
        assert(n[i] == crate::text::ascii_lower(st[i]));
    }
    let ds = discord_domains();
    assert(ds[0] == "discord.com"@);
    assert(ds[1] == "discord.gg"@);
    assert(ds[2] == "discordapp.com"@);
    assert(ds[3] == "discordapp.net"@);
    assert(ds[4] == "discord.media"@);
    assert(ds[5] == "discordcdn.com"@);
    assert(ds[6] == "discordstatus.com"@);
    assert forall|k: int| 0 <= k < 7 implies within_domain(n, #[trigger] ds[k]) == named_under(n, ds[k]) by {
        lemma_within_is_named_under(n, ds[k]);
    }
    if is_discord_host(n) {
        let k = choose|k: int| 0 <= k < ds.len() && within_domain(n, #[trigger] ds[k]);
        assert(0 <= k < 7);
    }
    if served_discord_name(n) {
        if named_under(n, ds[0]) { assert(within_domain(n, ds[0])); }
        else if named_under(n, ds[1]) { assert(within_domain(n, ds[1])); }
        else if named_under(n, ds[2]) { assert(within_domain(n, ds[2])); }
        else if named_under(n, ds[3]) { assert(within_domain(n, ds[3])); }
        else if named_under(n, ds[4]) { assert(within_domain(n, ds[4])); }
        else if named_under(n, ds[5]) { assert(within_domain(n, ds[5])); }
        else { assert(within_domain(n, ds[6])); }
    }
    if valid_hostname(n) {
        assert(host_position_ok(n, 0));
        assert(host_position_ok(n, n.len() - 1));
        assert forall|i: int| 0 <= i < n.len() implies ('a' <= #[trigger] n[i] <= 'z') || ('0' <= n[i]
            <= '9') || n[i] == '-' || n[i] == '.' by {
            assert(host_position_ok(n, i));
            let s = strip_root_dot(host);
            assert(n[i] == crate::text::ascii_lower(s[i]));
        }
    }
}

/// Accepting a target is idempotent: the accepted name is accepted again, unchanged.
pub proof fn lemma_target_normal_form(host: Seq<char>, port: u16)
    requires
        target_outcome(host, port) is Ok,
    ensures
        target_outcome(target_outcome(host, port)->Ok_0.0, port) == target_outcome(host, port),
{
    let n = normalize_host(host);
    assert(label_offset(n, n.len() as int) > 0);
    assert(n.last() != '.');
    assert(strip_root_dot(n) == n);
    assert forall|i: int| 0 <= i < n.len() implies crate::text::ascii_lower(n[i]) == n[i] by {
        let s = strip_root_dot(host);
        assert(n[i] == crate::text::ascii_lower(s[i]));
    }
    assert(crate::text::lower_all(n) =~= n);
}

} // verus!
