//! What the environment sets: ports, the parent's address, the region.

use vstd::prelude::*;

use crate::text;

verus! {

/// The port on which the parent's egress courier listens.
pub const EGRESS_PROXY_PORT: u16 = 5006;

/// The port on which the enclave listens.
pub const LISTEN_PORT: u32 = 5005;

/// The port of the local proxy, unless the environment sets another.
pub const DEFAULT_PROXY_PORT: u16 = 5107;

/// The parent instance's VSOCK address, unless the environment sets another.
pub const DEFAULT_PARENT_CID: u32 = 3;

/// The number that a setting gives, or a default where it is not there or is no
/// number up to `max`.
pub open spec fn number_or(setting: Option<Seq<char>>, max: nat, default: nat) -> nat {
    match setting {
        Some(s) => match text::number(s, 10, max) {
            Some(n) => n,
            None => default,
        },
        None => default,
    }
}

fn read_number(setting: &Option<String>, max: u64, default: u64) -> (n: u64)
    requires
        default <= max,
    ensures
        n == number_or(text::optional_text(*setting), max as nat, default as nat),
        n <= max,
{
    match setting {
        Some(s) => match text::parse_number(s.as_str(), 10, max) {
            Some(n) => n,
            None => default,
        },
        None => default,
    }
}

/// The parent instance's VSOCK address, from `TEEIFY_PARENT_VSOCK_CID`.
pub fn parent_vsock_cid(setting: &Option<String>) -> (cid: u32)
    ensures
        cid == number_or(text::optional_text(*setting), u32::MAX as nat, 3),
        cid == cid_of(text::optional_text(*setting)),
{
    read_number(setting, u32::MAX as u64, DEFAULT_PARENT_CID as u64) as u32
}

/// The port of the local proxy, from `TEEIFY_KMS_HTTPS_PROXY_PORT`.
pub fn proxy_port(setting: &Option<String>) -> (port: u16)
    ensures
        port == number_or(text::optional_text(*setting), u16::MAX as nat, 5107),
        port == port_of(text::optional_text(*setting)),
{
    read_number(setting, u16::MAX as u64, DEFAULT_PROXY_PORT as u64) as u16
}

/// The port that a setting gives the local proxy.
pub open spec fn port_of(setting: Option<Seq<char>>) -> u16 {
    number_or(setting, u16::MAX as nat, DEFAULT_PROXY_PORT as nat) as u16
}

/// What to do where the local proxy is wanted: take the one that runs, or bind one.
#[derive(Clone, Copy, PartialEq, Eq, Structural)]
pub enum ProxyStart {
    Reuse(u16),
    Bind(u16),
}

/// What to do where the local proxy is wanted, given the port of the one that runs,
/// if one does: once one runs, the setting does not matter any more.
pub open spec fn proxy_started(started: Option<u16>, setting: Option<Seq<char>>) -> ProxyStart {
    match started {
        Some(port) => ProxyStart::Reuse(port),
        None => ProxyStart::Bind(port_of(setting)),
    }
}

/// What to do where the local proxy is wanted, given the port of the one that runs.
pub fn proxy_start(started: Option<u16>, setting: &Option<String>) -> (r: ProxyStart)
    ensures
        r == proxy_started(started, text::optional_text(*setting)),
{
    match started {
        Some(port) => ProxyStart::Reuse(port),
        None => ProxyStart::Bind(proxy_port(setting)),
    }
}

impl ProxyStart {
    /// The port of the proxy that runs after that.
    pub open spec fn spec_port(self) -> u16 {
        match self {
            ProxyStart::Reuse(port) => port,
            ProxyStart::Bind(port) => port,
        }
    }

    /// The port of the proxy that runs after that.
    pub fn port(self) -> (port: u16)
        ensures
            port == self.spec_port(),
    {
        match self {
            ProxyStart::Reuse(port) => port,
            ProxyStart::Bind(port) => port,
        }
    }
}

/// The port of the proxy that runs after it was wanted a number of times, under the
/// setting that there was each time.
pub open spec fn port_after(settings: Seq<Option<Seq<char>>>) -> Option<u16>
    decreases settings.len(),
{
    if settings.len() == 0 {
        None
    } else {
        Some(
            proxy_started(port_after(settings.drop_last()), settings.last()).spec_port(),
        )
    }
}

/// The local proxy is bound once, under the first setting: every later time that it
/// is wanted, whatever the setting is by then, it is the one that runs.
pub proof fn law_proxy_starts_once(settings: Seq<Option<Seq<char>>>, later: Option<Seq<char>>)
    ensures
        settings.len() == 0 ==> proxy_started(port_after(settings), later) == ProxyStart::Bind(
            port_of(later),
        ),
        settings.len() > 0 ==> {
            &&& port_after(settings) == Some(port_of(settings[0]))
            &&& proxy_started(port_after(settings), later) == ProxyStart::Reuse(
                port_of(settings[0]),
            )
        },
    decreases settings.len(),
{
    if settings.len() > 0 {
        law_proxy_starts_once(settings.drop_last(), settings.last());
    }
}

/// The address that the local proxy binds.
pub fn proxy_address(port: u16) -> (r: String)
    ensures
        r@ == "127.0.0.1:"@ + text::decimal(port as nat),
        r@ == address_of(port),
{
    text::prefixed("127.0.0.1:", text::to_decimal(port as u64).as_str())
}

/// The URL under which the key service's client finds the local proxy.
pub fn proxy_url(port: u16) -> (r: String)
    ensures
        r@ == "http://127.0.0.1:"@ + text::decimal(port as nat),
        r@ == "http://"@ + address_of(port),
{
    proof {
        reveal_strlit("http://");
        reveal_strlit("127.0.0.1:");
        reveal_strlit("http://127.0.0.1:");
        assert("http://"@ + address_of(port) =~= "http://127.0.0.1:"@ + text::decimal(
            port as nat,
        ));
    }
    text::prefixed("http://127.0.0.1:", text::to_decimal(port as u64).as_str())
}

/// The region of the key service: `AWS_DEFAULT_REGION`, or else `AWS_REGION`, or
/// else `eu-central-1`.
pub fn aws_region(default_region: Option<String>, region: Option<String>) -> (r: String)
    ensures
        r@ == (match (text::optional_text(default_region), text::optional_text(region)) {
            (Some(d), _) => d,
            (None, Some(g)) => g,
            (None, None) => "eu-central-1"@,
        }),
        r@ == region_of(text::optional_text(default_region), text::optional_text(region)),
{
    match (default_region, region) {
        (Some(d), _) => d,
        (None, Some(g)) => g,
        (None, None) => "eu-central-1".to_string(),
    }
}

/// A setting in decimal notation, with or without a plus sign, is the number, unless it
/// is over the limit; then, and where there is none or one with anything but digits in
/// it, the default holds.
pub proof fn law_setting_is_read(n: nat, s: Seq<char>, i: int, max: nat, default: nat)
    requires
        0 <= i < s.len(),
        !('0' <= s[i] <= '9'),
        i == 0 ==> s[0] != '+',
    ensures
        number_or(Some(text::decimal(n)), max, default) == (if n <= max {
            n
        } else {
            default
        }),
        number_or(Some(seq!['+'] + text::decimal(n)), max, default) == number_or(
            Some(text::decimal(n)),
            max,
            default,
        ),
        number_or(Some(s), max, default) == default,
        number_or(Some(seq![]), max, default) == default,
        number_or(None, max, default) == default,
{
    text::law_decimal_reads_back(n, max);
    text::law_decimal(n);
    assert('0' <= text::decimal(n)[0] <= '9');
    let signed = seq!['+'] + text::decimal(n);
    assert(signed.drop_first() =~= text::decimal(n));
    if s[0] == '+' {
        assert(s.drop_first()[i - 1] == s[i]);
        lemma_no_digits(s.drop_first(), i - 1);
    } else {
        lemma_no_digits(s, i);
    }
}

proof fn lemma_no_digits(s: Seq<char>, i: int)
    requires
        0 <= i < s.len(),
        !('0' <= s[i] <= '9'),
    ensures
        text::digits_value(s, 10) is None,
    decreases s.len(),
{
    if i < s.len() - 1 {
        assert(s.drop_last()[i] == s[i]);
        lemma_no_digits(s.drop_last(), i);
    } else {
        assert(s.last() == s[i]);
    }
}

/// The local proxy gets the port that is set, up to 65535, and 5107 otherwise.
pub proof fn law_proxy_port(n: nat)
    ensures
        n <= 65535 ==> port_of(Some(text::decimal(n))) == n,
        n > 65535 ==> port_of(Some(text::decimal(n))) == 5107,
        port_of(None) == 5107,
{
    text::law_decimal_reads_back(n, 65535);
}

/// The region of the key service, from `AWS_DEFAULT_REGION` and `AWS_REGION`.
pub open spec fn region_of(default_region: Option<Seq<char>>, region: Option<Seq<char>>) -> Seq<
    char,
> {
    match (default_region, region) {
        (Some(d), _) => d,
        (None, Some(g)) => g,
        (None, None) => "eu-central-1"@,
    }
}

/// `AWS_DEFAULT_REGION` is the region where it is set, as it is; else `AWS_REGION` is.
pub proof fn law_region(d: Seq<char>, g: Seq<char>, other: Option<Seq<char>>)
    ensures
        region_of(Some(d), other) == d,
        region_of(None, Some(g)) == g,
        region_of(None, None) == "eu-central-1"@,
{
}

/// The parent's address that a setting gives.
pub open spec fn cid_of(setting: Option<Seq<char>>) -> u32 {
    number_or(setting, u32::MAX as nat, DEFAULT_PARENT_CID as nat) as u32
}

/// The parent has the address that is set, up to 4294967295, and 3 otherwise.
pub proof fn law_parent_cid(n: nat)
    ensures
        n <= 4294967295 ==> cid_of(Some(text::decimal(n))) == n,
        n > 4294967295 ==> cid_of(Some(text::decimal(n))) == 3,
        cid_of(None) == 3,
{
    text::law_decimal_reads_back(n, 4294967295);
}

/// Where the local proxy listens.
pub open spec fn address_of(port: u16) -> Seq<char> {
    "127.0.0.1:"@ + text::decimal(port as nat)
}

/// The local proxy listens on the loopback address, on its port in decimal notation.
pub proof fn law_address_tells_the_port(port: u16, digits: Seq<char>)
    requires
        digits.len() > 0,
        digits.len() > 1 ==> digits[0] != '0',
        text::digits_value(digits, 10) == Some(port as nat),
    ensures
        address_of(port) == "127.0.0.1:"@ + digits,
        "http://"@ + address_of(port) == "http://127.0.0.1:"@ + digits,
{
    text::law_decimal_is_unique(digits, port as nat);
    reveal_strlit("http://");
    reveal_strlit("127.0.0.1:");
    reveal_strlit("http://127.0.0.1:");
    assert("http://"@ + address_of(port) =~= "http://127.0.0.1:"@ + digits);
}

} // verus!
