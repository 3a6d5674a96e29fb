//! What the launcher decides about Discord itself: the command-line flags that
//! route it through the forwarder, which processes are Discord, and which of
//! several Windows installations is the newest.
use vstd::prelude::*;

use crate::address::SocketAddress;
use crate::text::{chars_equal_at, chars_of, string_of};

verus! {

/// The flag that sends Chromium's connections to the forwarder.
pub open spec fn proxy_flag(proxy: Seq<char>) -> Seq<char> {
    "--proxy-server=socks5://"@ + proxy
}

/// The hosts that bypass the forwarder: native voice over UDP is not handled by
/// Chromium's SOCKS proxy, and these media/CDN hosts need not use it.
pub open spec fn bypass_flag() -> Seq<char> {
    "--proxy-bypass-list=discord.media;*.discord.media;cdn.discordapp.com;discordapp.net;*.discordapp.net"@
}

/// The flags that make Discord use the forwarder at `proxy`, written as std
/// displays a socket address.
pub fn proxy_arguments(proxy: SocketAddress) -> (r: Vec<String>)
    ensures
        r@.len() == 2,
        r@[0]@ == proxy_flag(crate::netparse::socket_address_text(proxy)),
        r@[1]@ == bypass_flag(),
{
    let mut flag = String::from_str("--proxy-server=socks5://");
    let address = crate::netparse::write_socket_address(proxy);
    flag.append(address.as_str());
    let bypass = String::from_str(
        "--proxy-bypass-list=discord.media;*.discord.media;cdn.discordapp.com;discordapp.net;*.discordapp.net",
    );
    vec![flag, bypass]
}

/// The process names of Discord's stable, Canary and PTB builds.
pub open spec fn discord_process_names() -> Seq<Seq<char>> {
    seq![
        "discord"@,
        "discord.exe"@,
        "discordcanary"@,
        "discordcanary.exe"@,
        "discordptb"@,
        "discordptb.exe"@,
    ]
}

/// Whether a process, by its name in any ASCII case, is Discord.
pub open spec fn is_discord_process(name: Seq<char>) -> bool {
    discord_process_names().contains(crate::text::lower_all(name))
}

/// The names recognized as Discord are exactly `discord`, `discordcanary` and
/// `discordptb`, each with or without `.exe`, in any ASCII case.
pub proof fn lemma_discord_process_names(name: Seq<char>)
    ensures
        is_discord_process(name) <==> {
            let n = crate::text::lower_all(name);
            ||| n == "discord"@
            ||| n == "discord.exe"@
            ||| n == "discordcanary"@
            ||| n == "discordcanary.exe"@
            ||| n == "discordptb"@
            ||| n == "discordptb.exe"@
        },
{
    let n = crate::text::lower_all(name);
    let names = discord_process_names();
    assert(names[0] == "discord"@);
    assert(names[1] == "discord.exe"@);
    assert(names[2] == "discordcanary"@);
    assert(names[3] == "discordcanary.exe"@);
    assert(names[4] == "discordptb"@);
    assert(names[5] == "discordptb.exe"@);
    if names.contains(n) {
        let k = choose|k: int| 0 <= k < names.len() && names[k] == n;
        assert(0 <= k < 6);
    }
}

/// Discord's process names as Windows and Linux report them, in their usual
/// capitalizations, are recognized.
pub proof fn lemma_discord_names_in_any_case()
    ensures
        is_discord_process("Discord"@),
        is_discord_process("Discord.exe"@),
        is_discord_process("DiscordCanary"@),
        is_discord_process("DiscordCanary.exe"@),
        is_discord_process("DiscordPTB"@),
        is_discord_process("DiscordPTB.exe"@),
        !is_discord_process("Discord Helper"@),
{
    reveal_strlit("Discord");
    reveal_strlit("Discord.exe");
    reveal_strlit("DiscordCanary");
    reveal_strlit("DiscordCanary.exe");
    reveal_strlit("DiscordPTB");
    reveal_strlit("DiscordPTB.exe");
    reveal_strlit("Discord Helper");
    reveal_strlit("discord");
    reveal_strlit("discord.exe");
    reveal_strlit("discordcanary");
    reveal_strlit("discordcanary.exe");
    reveal_strlit("discordptb");
    reveal_strlit("discordptb.exe");
    lemma_discord_process_names("Discord"@);
    lemma_discord_process_names("Discord.exe"@);
    lemma_discord_process_names("DiscordCanary"@);
    lemma_discord_process_names("DiscordCanary.exe"@);
    lemma_discord_process_names("DiscordPTB"@);
    lemma_discord_process_names("DiscordPTB.exe"@);
    lemma_discord_process_names("Discord Helper"@);
    assert(crate::text::lower_all("Discord"@) =~= "discord"@);
    assert(crate::text::lower_all("Discord.exe"@) =~= "discord.exe"@);
    assert(crate::text::lower_all("DiscordCanary"@) =~= "discordcanary"@);
    assert(crate::text::lower_all("DiscordCanary.exe"@) =~= "discordcanary.exe"@);
    assert(crate::text::lower_all("DiscordPTB"@) =~= "discordptb"@);
    assert(crate::text::lower_all("DiscordPTB.exe"@) =~= "discordptb.exe"@);
    assert(crate::text::lower_all("Discord Helper"@)[7] == ' ');
}

pub fn is_discord_process_name(name: &str) -> (r: bool)
    ensures
        r == is_discord_process(name@),
{
    let lowered = crate::text::lowercase_ascii(name);
    let chars = chars_of(lowered.as_str());
    let names = vec![
        "discord",
        "discord.exe",
        "discordcanary",
        "discordcanary.exe",
        "discordptb",
        "discordptb.exe",
    ];
    let mut k: usize = 0;
    while k < names.len()
        invariant
            names@.len() == discord_process_names().len(),
            forall|j: int| 0 <= j < names@.len() ==> (#[trigger] names@[j])@ == discord_process_names()[j],
            chars@ == crate::text::lower_all(name@),
            k <= names@.len(),
            forall|j: int| 0 <= j < k ==> discord_process_names()[j] != chars@,
        decreases names.len() - k,
    {
        let candidate = chars_of(names[k]);
        if candidate.len() == chars.len() && chars_equal_at(&chars, 0, &candidate) {
            assert(chars@ =~= candidate@);
            assert(discord_process_names()[k as int] == chars@);
            return true;
        }
        assert(discord_process_names()[k as int] != chars@) by {
            if candidate.len() == chars.len() {
                assert(chars@.subrange(0, candidate@.len() as int) =~= chars@);
            }
        }
        k = k + 1;
    }
    assert(!discord_process_names().contains(chars@));
    false
}

/// The value of a run of decimal digits.
pub open spec fn decimal_value(d: Seq<char>) -> int
    decreases d.len(),
{
    if d.len() == 0 {
        0
    } else {
        decimal_value(d.drop_last()) * 10 + (d.last() as int - '0' as int)
    }
}

pub open spec fn all_decimal(d: Seq<char>) -> bool {
    forall|i: int| 0 <= i < d.len() ==> '0' <= #[trigger] d[i] && d[i] <= '9'
}

/// `str::parse::<u32>`: an optional `+`, then at least one decimal digit, for
/// a value of at most `u32::MAX`.
pub open spec fn u32_from_text(t: Seq<char>) -> Option<u32> {
    let d = if t.len() > 0 && t[0] == '+' {
        t.drop_first()
    } else {
        t
    };
    if d.len() > 0 && all_decimal(d) && decimal_value(d) <= u32::MAX {
        Some(decimal_value(d) as u32)
    } else {
        None
    }
}

/// The dot-separated parts of `t`.
pub open spec fn dot_parts(t: Seq<char>) -> Seq<Seq<char>>
    decreases t.len(),
{
    if t.len() == 0 {
        seq![Seq::empty()]
    } else {
        let p = dot_parts(t.drop_last());
        if t.last() == '.' {
            p.push(Seq::empty())
        } else {
            p.update(p.len() - 1, p.last().push(t.last()))
        }
    }
}

/// The version of a Windows installation directory named `app-<version>`: its
/// dot-separated numbers, when every part is a `u32`.
pub open spec fn install_version_spec(name: Seq<char>) -> Option<Seq<u32>> {
    if name.len() >= 4 && name.subrange(0, 4) == "app-"@ {
        let parts = dot_parts(name.subrange(4, name.len() as int));
        if forall|i: int| 0 <= i < parts.len() ==> #[trigger] u32_from_text(parts[i]) is Some {
            Some(Seq::new(parts.len(), |i: int| u32_from_text(parts[i])->0))
        } else {
            None
        }
    } else {
        None
    }
}

proof fn lemma_dot_parts_nonempty(t: Seq<char>)
    ensures
        dot_parts(t).len() >= 1,
    decreases t.len(),
{
    if t.len() > 0 {
        lemma_dot_parts_nonempty(t.drop_last());
    }
}

/// Reads `chars[from..to]` as `str::parse::<u32>` does.
fn parse_u32(chars: &Vec<char>, from: usize, to: usize) -> (r: Option<u32>)
    requires
        from <= to <= chars.len(),
    ensures
        r == u32_from_text(chars@.subrange(from as int, to as int)),
{
    let ghost t = chars@.subrange(from as int, to as int);
    let start = if from < to && chars[from] == '+' {
        from + 1
    } else {
        from
    };
    let ghost d = chars@.subrange(start as int, to as int);
    assert(d =~= if t.len() > 0 && t[0] == '+' {
        t.drop_first()
    } else {
        t
    });
    if start == to {
        return None;
    }
    let mut value: u64 = 0;
    let mut i = start;
    while i < to
        invariant
            start <= i <= to <= chars.len(),
            d == chars@.subrange(start as int, to as int),
            d.len() > 0,
            u32_from_text(chars@.subrange(from as int, to as int)) == (if all_decimal(d)
                && decimal_value(d) <= u32::MAX {
                Some(decimal_value(d) as u32)
            } else {
                None
            }),
            all_decimal(chars@.subrange(start as int, i as int)),
            value as int == decimal_value(chars@.subrange(start as int, i as int)),
            value <= u32::MAX,
        decreases to - i,
    {
        let c = chars[i];
        assert(chars@.subrange(start as int, i + 1).drop_last() =~= chars@.subrange(start as int, i as int));
        if !('0' <= c && c <= '9') {
            assert(d[i - start] == c);
            assert(!all_decimal(d));
            return None;
        }
        let digit = (c as u32 - '0' as u32) as u64;
        let next = value * 10 + digit;
        if next > u32::MAX as u64 {
            proof {
                assert(d.subrange(0, i - start + 1) =~= chars@.subrange(start as int, i + 1));
                if all_decimal(d) {
                    lemma_decimal_prefix_bound(d, i - start + 1);
                }
            }
            return None;
        }
        value = next;
        i = i + 1;
    }
    assert(chars@.subrange(start as int, to as int) =~= d);
    Some(value as u32)
}

/// A longer run of digits is worth at least as much as its prefix.
proof fn lemma_decimal_prefix_bound(d: Seq<char>, n: int)
    requires
        0 <= n <= d.len(),
        all_decimal(d),
    ensures
        decimal_value(d.subrange(0, n)) <= decimal_value(d),
    decreases d.len(),
{
    if n < d.len() {
        lemma_decimal_nonneg(d.drop_last());
        assert(d.drop_last().subrange(0, n) =~= d.subrange(0, n));
        lemma_decimal_prefix_bound(d.drop_last(), n);
    } else {
        assert(d.subrange(0, n) =~= d);
    }
}

proof fn lemma_decimal_nonneg(d: Seq<char>)
    requires
        all_decimal(d),
    ensures
        decimal_value(d) >= 0,
    decreases d.len(),
{
    if d.len() > 0 {
        lemma_decimal_nonneg(d.drop_last());
    }
}

/// The version of a Windows installation directory `app-<version>`, e.g.
/// `app-1.0.9023` gives `[1, 0, 9023]`.
pub fn install_version(name: &str) -> (r: Option<Vec<u32>>)
    ensures
        match r {
            None => install_version_spec(name@) is None,
            Some(v) => install_version_spec(name@) == Some(v@),
        },
{
    let chars = chars_of(name);
    let prefix = chars_of("app-");
    proof {
        reveal_strlit("app-");
    }
    if chars.len() < 4 || !chars_equal_at(&chars, 0, &prefix) {
        return None;
    }
    let len = chars.len();
    let ghost r = chars@.subrange(4, len as int);
    // The dot-separated parts, as ranges of `chars`.
    let mut ranges: Vec<(usize, usize)> = Vec::new();
    let ghost mut done: Seq<Seq<char>> = Seq::empty();
    let mut part_start: usize = 4;
    let mut i: usize = 4;
    assert(chars@.subrange(4, 4) =~= Seq::<char>::empty());
    while i < len
        invariant
            4 <= part_start <= i <= len == chars@.len(),
            chars@ == name@,
            r == chars@.subrange(4, len as int),
            dot_parts(chars@.subrange(4, i as int)) == done.push(chars@.subrange(part_start as int, i as int)),
            ranges@.len() == done.len(),
            forall|k: int|
                0 <= k < done.len() ==> (#[trigger] ranges@[k]).0 <= ranges@[k].1 <= len
                    && done[k] == chars@.subrange(ranges@[k].0 as int, ranges@[k].1 as int),
        decreases len - i,
    {
        let ghost before = chars@.subrange(4, i as int);
        assert(chars@.subrange(4, i + 1).drop_last() =~= before);
        if chars[i] == '.' {
            proof {
                done = done.push(chars@.subrange(part_start as int, i as int));
            }
            ranges.push((part_start, i));
            part_start = i + 1;
            assert(chars@.subrange(part_start as int, i + 1) =~= Seq::<char>::empty());
        } else {
            assert(chars@.subrange(part_start as int, i + 1) =~= chars@.subrange(part_start as int, i as int).push(chars@[i as int]));
        }
        i = i + 1;
        assert(dot_parts(chars@.subrange(4, i as int)) =~= done.push(chars@.subrange(part_start as int, i as int)));
    }
    proof {
        done = done.push(chars@.subrange(part_start as int, len as int));
    }
    ranges.push((part_start, len));
    assert(dot_parts(r) == done);
    let mut values: Vec<u32> = Vec::new();
    let mut k: usize = 0;
    while k < ranges.len()
        invariant
            4 <= len == chars@.len(),
            r == chars@.subrange(4, len as int),
            chars@ == name@,
            name@.len() >= 4 && name@.subrange(0, 4) == "app-"@,
            dot_parts(r) == done,
            ranges@.len() == done.len(),
            forall|j: int|
                0 <= j < done.len() ==> (#[trigger] ranges@[j]).0 <= ranges@[j].1 <= chars@.len()
                    && done[j] == chars@.subrange(ranges@[j].0 as int, ranges@[j].1 as int),
            k <= ranges@.len(),
            values@.len() == k,
            forall|j: int| 0 <= j < k ==> u32_from_text(done[j]) == Some(#[trigger] values@[j]),
        decreases ranges.len() - k,
    {
        let (a, b) = ranges[k];
        match parse_u32(&chars, a, b) {
            Some(v) => values.push(v),
            None => {
                assert(u32_from_text(done[k as int]) is None);
                assert(name@.subrange(4, name@.len() as int) == r);
                assert(!(forall|i: int| 0 <= i < dot_parts(r).len() ==> #[trigger] u32_from_text(dot_parts(r)[i]) is Some));
                return None;
            },
        }
        k = k + 1;
    }
    assert(values@ =~= Seq::new(done.len(), |j: int| u32_from_text(done[j])->0));
    assert(name@.subrange(4, name@.len() as int) == r);
    assert forall|i: int| 0 <= i < dot_parts(r).len() implies #[trigger] u32_from_text(dot_parts(r)[i]) is Some by {
        assert(u32_from_text(done[i]) == Some(values@[i]));
    }
    assert(install_version_spec(name@) == Some(Seq::new(done.len(), |j: int| u32_from_text(done[j])->0)));
    Some(values)
}

/// `a` comes before `b` in the lexicographic order of `Vec<u32>`: at the first
/// difference `a` is smaller, or `a` is a proper prefix of `b`.
pub open spec fn version_less(a: Seq<u32>, b: Seq<u32>) -> bool
    decreases a.len(),
{
    if a.len() == 0 {
        b.len() > 0
    } else if b.len() == 0 {
        false
    } else if a[0] != b[0] {
        a[0] < b[0]
    } else {
        version_less(a.drop_first(), b.drop_first())
    }
}

proof fn lemma_less_irreflexive(a: Seq<u32>)
    ensures
        !version_less(a, a),
    decreases a.len(),
{
    if a.len() > 0 {
        lemma_less_irreflexive(a.drop_first());
    }
}

proof fn lemma_less_asymmetric(a: Seq<u32>, b: Seq<u32>)
    ensures
        !(version_less(a, b) && version_less(b, a)),
    decreases a.len(),
{
    if a.len() > 0 && b.len() > 0 && a[0] == b[0] {
        lemma_less_asymmetric(a.drop_first(), b.drop_first());
    }
}

/// Not being smaller is transitive.
proof fn lemma_not_less_transitive(a: Seq<u32>, b: Seq<u32>, c: Seq<u32>)
    requires
        !version_less(a, b),
        !version_less(b, c),
    ensures
        !version_less(a, c),
    decreases a.len(),
{
    if a.len() > 0 && b.len() > 0 && c.len() > 0 && a[0] == b[0] && b[0] == c[0] {
        lemma_not_less_transitive(a.drop_first(), b.drop_first(), c.drop_first());
    }
}

proof fn lemma_less_transitive(a: Seq<u32>, b: Seq<u32>, c: Seq<u32>)
    requires
        version_less(a, b),
        version_less(b, c),
    ensures
        version_less(a, c),
    decreases a.len(),
{
    if a.len() > 0 && b.len() > 0 && c.len() > 0 && a[0] == b[0] && b[0] == c[0] {
        lemma_less_transitive(a.drop_first(), b.drop_first(), c.drop_first());
    }
}

/// Versions compare number by number, not as text: the first differing
/// number decides, and a version comes before its own extensions.
pub proof fn lemma_version_order(a: Seq<u32>, b: Seq<u32>, k: int)
    requires
        0 <= k <= a.len(),
        k <= b.len(),
        a.take(k) == b.take(k),
    ensures
        k < a.len() && k < b.len() && a[k] < b[k] ==> version_less(a, b) && !version_less(b, a),
        k == a.len() && k < b.len() ==> version_less(a, b) && !version_less(b, a),
        k == a.len() && k == b.len() ==> a == b && !version_less(a, b),
    decreases k,
{
    if k > 0 {
        assert(a.drop_first().take(k - 1) =~= a.take(k).drop_first());
        assert(b.drop_first().take(k - 1) =~= b.take(k).drop_first());
        assert(a[0] == a.take(k)[0] && b[0] == b.take(k)[0]);
        lemma_version_order(a.drop_first(), b.drop_first(), k - 1);
        if k == a.len() && k == b.len() {
            assert(a =~= seq![a[0]] + a.drop_first());
            assert(b =~= seq![b[0]] + b.drop_first());
        }
    } else {
        if a.len() == 0 && b.len() == 0 {
            assert(a =~= b);
        }
    }
}

/// Versions are totally ordered: of two different versions exactly one comes
/// first, and the order is transitive.
pub proof fn lemma_version_total(a: Seq<u32>, b: Seq<u32>, c: Seq<u32>)
    ensures
        a != b ==> (version_less(a, b) <==> !version_less(b, a)),
        !version_less(a, a),
        version_less(a, b) && version_less(b, c) ==> version_less(a, c),
    decreases a.len(),
{
    lemma_less_irreflexive(a);
    lemma_less_asymmetric(a, b);
    if version_less(a, b) && version_less(b, c) {
        lemma_less_transitive(a, b, c);
    }
    lemma_less_total(a, b);
}

proof fn lemma_less_total(a: Seq<u32>, b: Seq<u32>)
    ensures
        a != b ==> version_less(a, b) || version_less(b, a),
    decreases a.len(),
{
    if a.len() > 0 && b.len() > 0 && a[0] == b[0] {
        lemma_less_total(a.drop_first(), b.drop_first());
        if a.drop_first() == b.drop_first() {
            assert(a =~= seq![a[0]] + a.drop_first());
            assert(b =~= seq![b[0]] + b.drop_first());
        }
    } else if a.len() == 0 && b.len() == 0 {
        assert(a =~= b);
    }
}

fn version_less_exec(a: &Vec<u32>, b: &Vec<u32>) -> (r: bool)
    ensures
        r == version_less(a@, b@),
{
    let mut i: usize = 0;
    assert(a@.skip(0) =~= a@);
    assert(b@.skip(0) =~= b@);
    while i < a.len() && i < b.len() && a[i] == b[i]
        invariant
            i <= a@.len(),
            i <= b@.len(),
            version_less(a@, b@) == version_less(a@.skip(i as int), b@.skip(i as int)),
        decreases a.len() - i,
    {
        assert(a@.skip(i as int).drop_first() =~= a@.skip(i + 1));
        assert(b@.skip(i as int).drop_first() =~= b@.skip(i + 1));
        i = i + 1;
    }
    if i == a.len() {
        i < b.len()
    } else if i == b.len() {
        false
    } else {
        a[i] < b[i]
    }
}

/// `m` is where `Iterator::max_by` with the lexicographic order stops on
/// `versions`: a greatest version, the last of the greatest.
pub open spec fn is_newest(versions: Seq<Seq<u32>>, m: int) -> bool {
    &&& 0 <= m < versions.len()
    &&& forall|j: int| 0 <= j < versions.len() ==> !version_less(versions[m], #[trigger] versions[j])
    &&& forall|j: int| m < j < versions.len() ==> version_less(#[trigger] versions[j], versions[m])
}

/// The newest installation is unique: it is not older than any other, and
/// among installations of the same version the last one listed is taken.
pub proof fn lemma_newest_is_last_greatest(versions: Seq<Seq<u32>>, m: int, k: int)
    requires
        is_newest(versions, m),
        is_newest(versions, k),
    ensures
        m == k,
        forall|j: int| 0 <= j < versions.len() && versions[j] == versions[m] ==> j <= m,
        forall|j: int| 0 <= j < versions.len() ==> !version_less(versions[m], #[trigger] versions[j]),
{
    lemma_less_irreflexive(versions[m]);
    assert forall|j: int| 0 <= j < versions.len() && versions[j] == versions[m] implies j <= m by {
        if j > m {
            assert(version_less(versions[j], versions[m]));
        }
    }
    if m < k {
        assert(version_less(versions[k], versions[m]));
        assert(!version_less(versions[k], versions[m]));
    } else if k < m {
        assert(version_less(versions[m], versions[k]));
    }
}

/// The flag that routes Discord through the forwarder names a SOCKS5 proxy at
/// the forwarder's address, and the bypass list names exactly Discord's media
/// and CDN hosts.
pub proof fn lemma_proxy_flags(address: Seq<char>)
    ensures
        proxy_flag(address) == "--proxy-server=socks5://"@ + address,
        bypass_flag()
            == "--proxy-bypass-list=discord.media;*.discord.media;cdn.discordapp.com;discordapp.net;*.discordapp.net"@,
{
}

/// The newest of several installation versions: the position of the greatest,
/// the last one among equals; nothing for no versions.
pub fn newest_install(versions: &Vec<Vec<u32>>) -> (r: Option<usize>)
    ensures
        versions@.len() == 0 ==> r is None,
        versions@.len() > 0 ==> (r matches Some(m) && is_newest(versions.deep_view(), m as int)),
{
    if versions.len() == 0 {
        return None;
    }
    let ghost v = versions.deep_view();
    let mut best: usize = 0;
    let mut j: usize = 1;
    proof {
        lemma_less_irreflexive(v[0]);
    }
    while j < versions.len()
        invariant
            v == versions.deep_view(),
            v.len() == versions@.len(),
            0 <= best < j <= versions@.len(),
            forall|k: int| 0 <= k < j ==> !version_less(v[best as int], #[trigger] v[k]),
            forall|k: int| best < k < j ==> version_less(#[trigger] v[k], v[best as int]),
        decreases versions.len() - j,
    {
        assert(v[j as int] == versions@[j as int]@);
        assert(v[best as int] == versions@[best as int]@);
        if !version_less_exec(&versions[j], &versions[best]) {
            assert forall|k: int| 0 <= k < j + 1 implies !version_less(v[j as int], #[trigger] v[k]) by {
                if k < j as int {
                    lemma_not_less_transitive(v[j as int], v[best as int], v[k]);
                } else {
                    lemma_less_irreflexive(v[j as int]);
                }
            }
            best = j;
        } else {
            proof {
                lemma_less_asymmetric(v[j as int], v[best as int]);
            }
        }
        j = j + 1;
    }
    Some(best)
}

} // verus!
