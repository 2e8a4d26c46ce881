//! The local proxy through which the key service's client reaches the network:
//! each HTTP `CONNECT` becomes a tunnel to its target.

use vstd::prelude::*;

use crate::fetch;
use crate::http;
use crate::text;
use crate::weburl;
use crate::weburl::UrlParts;

verus! {

/// What is to be done on a proxied connection, as plain values.
pub ghost enum CommandView {
    ReadLine,
    Bridge(Seq<char>),
    Relay { reply: Seq<char>, forward: Option<Seq<u8>> },
    Close,
}

/// What is to be done on a proxied connection: read a line; open a tunnel and send
/// it the line with the target; send the reply, forward what has been read already,
/// and then relay both ways; close.
pub enum ProxyCommand {
    ReadLine,
    Bridge(String),
    Relay { reply: String, forward: Option<Vec<u8>> },
    Close,
}

impl View for ProxyCommand {
    type V = CommandView;

    open spec fn view(&self) -> CommandView {
        match self {
            ProxyCommand::ReadLine => CommandView::ReadLine,
            ProxyCommand::Bridge(line) => CommandView::Bridge(line@),
            ProxyCommand::Relay { reply, forward } => CommandView::Relay {
                reply: reply@,
                forward: text::optional_bytes(*forward),
            },
            ProxyCommand::Close => CommandView::Close,
        }
    }
}

/// What happened on a proxied connection, as plain values.
pub ghost enum HappenedView {
    Line(Seq<char>),
    Bridged(Seq<u8>),
    NotBridged,
}

/// What happened on a proxied connection: a line was read, which is empty at the
/// end; the tunnel is open, and these bytes were read ahead; there is no tunnel.
pub enum ProxyHappened {
    Line(String),
    Bridged(Vec<u8>),
    NotBridged,
}

impl View for ProxyHappened {
    type V = HappenedView;

    open spec fn view(&self) -> HappenedView {
        match self {
            ProxyHappened::Line(l) => HappenedView::Line(l@),
            ProxyHappened::Bridged(b) => HappenedView::Bridged(b@),
            ProxyHappened::NotBridged => HappenedView::NotBridged,
        }
    }
}

/// How far a proxied connection has come, as plain values.
pub ghost enum ProxyView {
    First,
    Headers(Seq<char>),
    Bridging,
    Over,
}

/// How far a proxied connection has come.
enum Stage {
    First,
    Headers(String),
    Bridging,
    Over,
}

/// A proxied connection.
pub struct ProxySession {
    stage: Stage,
}

impl View for ProxySession {
    type V = ProxyView;

    closed spec fn view(&self) -> ProxyView {
        match self.stage {
            Stage::First => ProxyView::First,
            Stage::Headers(a) => ProxyView::Headers(a@),
            Stage::Bridging => ProxyView::Bridging,
            Stage::Over => ProxyView::Over,
        }
    }
}

/// The target that the first line of a `CONNECT` names.
pub open spec fn authority(line: Seq<char>) -> Option<Seq<char>> {
    let parts = text::words(line);
    if parts.len() >= 2 && http::alike(parts[0], "CONNECT"@) {
        Some(parts[1])
    } else {
        None
    }
}

/// Whether a line ends the headers.
pub open spec fn is_blank(line: Seq<char>) -> bool {
    line == "\r\n"@ || line == "\n"@
}

/// The line with the target, once the target has been taken apart as a URL.
pub open spec fn bridge_line(parsed: Result<weburl::UrlView, Seq<char>>) -> Option<Seq<char>> {
    match parsed {
        Err(_) => None,
        Ok(url) => match url.host {
            None => None,
            Some(host) => Some(
                fetch::target(
                    host,
                    match url.port {
                        Some(p) => p,
                        None => 443,
                    },
                ),
            ),
        },
    }
}

/// The line with the target for what the first line of a `CONNECT` names.
pub open spec fn bridge_to(authority: Seq<char>) -> Option<Seq<char>> {
    bridge_line(weburl::url_result("http://"@ + authority))
}

/// The connection is over.
pub open spec fn closed() -> (ProxyView, CommandView) {
    (ProxyView::Over, CommandView::Close)
}

/// What comes next on a proxied connection. After what it does not wait for it
/// reads on, or closes where there is nothing more to read.
pub open spec fn next(s: ProxyView, h: HappenedView) -> (ProxyView, CommandView) {
    match (s, h) {
        (ProxyView::First, HappenedView::Line(line)) => match authority(line) {
            None => closed(),
            Some(a) => (ProxyView::Headers(a), CommandView::ReadLine),
        },
        (ProxyView::Headers(a), HappenedView::Line(line)) => if !is_blank(line) {
            (s, CommandView::ReadLine)
        } else {
            match bridge_to(a) {
                None => closed(),
                Some(target) => (ProxyView::Bridging, CommandView::Bridge(target)),
            }
        },
        (ProxyView::Bridging, HappenedView::NotBridged) => closed(),
        (ProxyView::Bridging, HappenedView::Bridged(ahead)) => (
            ProxyView::Over,
            CommandView::Relay {
                reply: "HTTP/1.1 200 Connection established\r\n\r\n"@,
                forward: if ahead.len() > 0 {
                    Some(ahead)
                } else {
                    None
                },
            },
        ),
        (ProxyView::First, _) => (s, CommandView::ReadLine),
        (ProxyView::Headers(_), _) => (s, CommandView::ReadLine),
        (ProxyView::Bridging, _) => closed(),
        (ProxyView::Over, _) => closed(),
    }
}

/// The target that the first line of a `CONNECT` names.
pub fn connect_authority(line: &str) -> (r: Option<String>)
    ensures
        text::optional_text(r) == authority(line@),
{
    let parts = text::split_words(line);
    assert(text::texts(parts@).len() == parts@.len());
    if parts.len() >= 2 && text::same_ignoring_ascii_case(parts[0].as_str(), "CONNECT") {
        Some(parts[1].clone())
    } else {
        None
    }
}

/// The line with the target, once the target has been taken apart as a URL.
pub fn bridge_target(parsed: Result<UrlParts, String>) -> (r: Option<String>)
    ensures
        text::optional_text(r) == bridge_line(weburl::to_url_result(parsed)),
{
    match parsed {
        Err(_) => None,
        Ok(url) => match &url.host {
            None => None,
            Some(host) => {
                let port: u16 = match url.port {
                    Some(p) => p,
                    None => 443,
                };
                Some(fetch::target_line(host.as_str(), port))
            },
        },
    }
}

impl ProxySession {
    /// A connection begins, and its first line is to be read.
    pub fn begin() -> (s: ProxySession)
        ensures
            s@ == ProxyView::First,
    {
        ProxySession { stage: Stage::First }
    }

    fn close() -> (r: (ProxySession, ProxyCommand))
        ensures
            (r.0@, r.1@) == closed(),
    {
        (ProxySession { stage: Stage::Over }, ProxyCommand::Close)
    }

    /// Takes in what happened on the connection.
    pub fn step(self, happened: ProxyHappened) -> (r: (ProxySession, ProxyCommand))
        ensures
            (r.0@, r.1@) == next(self@, happened@),
    {
        match (self.stage, happened) {
            (Stage::First, ProxyHappened::Line(line)) => match connect_authority(line.as_str()) {
                None => ProxySession::close(),
                Some(a) => (ProxySession { stage: Stage::Headers(a) }, ProxyCommand::ReadLine),
            },
            (Stage::Headers(a), ProxyHappened::Line(line)) => {
                if !text::same_text(line.as_str(), "\r\n") && !text::same_text(
                    line.as_str(),
                    "\n",
                ) {
                    return (ProxySession { stage: Stage::Headers(a) }, ProxyCommand::ReadLine);
                }
                let parsed = weburl::parse_url(text::prefixed("http://", a.as_str()).as_str());
                match bridge_target(parsed) {
                    None => ProxySession::close(),
                    Some(target) => (
                        ProxySession { stage: Stage::Bridging },
                        ProxyCommand::Bridge(target),
                    ),
                }
            },
            (Stage::Bridging, ProxyHappened::Bridged(ahead)) => {
                let forward = if ahead.len() > 0 {
                    Some(ahead)
                } else {
                    None
                };
                (
                    ProxySession { stage: Stage::Over },
                    ProxyCommand::Relay {
                        reply: "HTTP/1.1 200 Connection established\r\n\r\n".to_string(),
                        forward,
                    },
                )
            },
            (Stage::First, _) => (ProxySession { stage: Stage::First }, ProxyCommand::ReadLine),
            (Stage::Headers(a), _) => (
                ProxySession { stage: Stage::Headers(a) },
                ProxyCommand::ReadLine,
            ),
            (Stage::Bridging, _) => ProxySession::close(),
            (Stage::Over, _) => ProxySession::close(),
        }
    }
}

/// A proxied connection after a number of lines.
pub open spec fn after_lines(lines: Seq<Seq<char>>) -> (ProxyView, CommandView)
    decreases lines.len(),
{
    if lines.len() == 0 {
        (ProxyView::First, CommandView::ReadLine)
    } else {
        next(after_lines(lines.drop_last()).0, HappenedView::Line(lines.last()))
    }
}

/// A `CONNECT` with any headers, once they end, opens a tunnel to the target that
/// it names, where it names one; what the headers say does not matter.
pub proof fn law_connect_opens_a_tunnel(first: Seq<char>, headers: Seq<Seq<char>>, end: Seq<char>)
    requires
        authority(first) is Some,
        forall|i: int| 0 <= i < headers.len() ==> !is_blank(#[trigger] headers[i]),
        is_blank(end),
    ensures
        after_lines(seq![first] + headers) == (
            ProxyView::Headers(authority(first)->0),
            CommandView::ReadLine,
        ),
        after_lines((seq![first] + headers).push(end)) == (match bridge_to(authority(first)->0) {
            None => closed(),
            Some(target) => (ProxyView::Bridging, CommandView::Bridge(target)),
        }),
    decreases headers.len(),
{
    let lines = seq![first] + headers;
    assert(lines.push(end).drop_last() =~= lines);
    if headers.len() == 0 {
        assert(lines.drop_last() =~= Seq::<Seq<char>>::empty());
        assert(lines.last() == first);
        reveal_with_fuel(after_lines, 3);
    } else {
        let before = headers.drop_last();
        assert(lines.drop_last() =~= seq![first] + before);
        assert forall|i: int| 0 <= i < before.len() implies !is_blank(#[trigger] before[i]) by {
            assert(before[i] == headers[i]);
        }
        law_connect_opens_a_tunnel(first, before, end);
        assert(lines.last() == headers.last());
        assert(!is_blank(headers[headers.len() - 1]));
    }
}

/// A tunnel is opened only for a `CONNECT`, and bytes are relayed only once there
/// is a tunnel.
pub proof fn law_relays_only_through_a_tunnel(s: ProxyView, h: HappenedView)
    ensures
        next(s, h).1 is Relay ==> s is Bridging && h is Bridged,
        next(s, h).1 is Bridge ==> s is Headers,
        next(s, h).0 is Headers && !(s is Headers) ==> s is First && h is Line && authority(
            h->Line_0,
        ) is Some,
{
}

/// The target of a `CONNECT` is the second word of its first line, as it is, whatever
/// white space stands round the words, whatever the case of the first one and whatever
/// follows; any other first word ends the connection.
pub proof fn law_target_is_the_second_word(
    before: Seq<char>,
    first: Seq<char>,
    gap: Seq<char>,
    target: Seq<char>,
    rest: Seq<char>,
)
    requires
        forall|i: int| 0 <= i < before.len() ==> text::white_space(#[trigger] before[i]),
        first.len() > 0,
        forall|i: int| 0 <= i < first.len() ==> !text::white_space(#[trigger] first[i]),
        gap.len() > 0,
        forall|i: int| 0 <= i < gap.len() ==> text::white_space(#[trigger] gap[i]),
        target.len() > 0,
        forall|i: int| 0 <= i < target.len() ==> !text::white_space(#[trigger] target[i]),
        rest.len() == 0 || text::white_space(rest[0]),
    ensures
        text::ascii_lowered(first) == "connect"@ ==> next(
            ProxyView::First,
            HappenedView::Line(before + first + gap + target + rest),
        ) == (ProxyView::Headers(target), CommandView::ReadLine),
        text::ascii_lowered(first) != "connect"@ ==> next(
            ProxyView::First,
            HappenedView::Line(before + first + gap + target + rest),
        ) == (ProxyView::Over, CommandView::Close),
        next(ProxyView::First, HappenedView::Line(before + first + gap)) == (
            ProxyView::Over,
            CommandView::Close,
        ),
{
    let line = before + first + gap + target + rest;
    let tail = gap + target + rest;
    text::law_first_word(before, first, tail);
    text::law_first_word(gap, target, rest);
    assert(line =~= before + first + tail);
    assert(text::words(line)[0] == first);
    assert(text::words(line)[1] == target);
    reveal_strlit("CONNECT");
    reveal_strlit("connect");
    assert(text::ascii_lowered("CONNECT"@) =~= "connect"@);
    text::law_first_word(before, first, gap);
    text::law_no_words(gap);
    assert(text::words(before + first + gap).len() == 1);
}

/// Once the headers of a `CONNECT` end, with an empty line, a tunnel is asked for to the
/// host and the port that its target has as the rest of a URL, with 443 where it has no
/// port; without a host there is none. No other line ends the headers.
pub proof fn law_tunnel_goes_to_the_target(
    target: Seq<char>,
    line: Seq<char>,
    url: weburl::UrlView,
    host: Seq<char>,
    digits: Seq<char>,
)
    requires
        digits.len() > 0,
        digits.len() > 1 ==> digits[0] != '0',
        text::digits_value(digits, 10) == Some(
            match url.port {
                Some(p) => p as nat,
                None => 443,
            },
        ),
    ensures
        ({
            let (s, command) = next(ProxyView::Headers(target), HappenedView::Line(line));
            let ended = line == "\r\n"@ || line == "\n"@;
            let parsed = weburl::url_result("http://"@ + target);
            &&& !ended ==> s == ProxyView::Headers(target) && command is ReadLine
            &&& ended && parsed == Ok::<weburl::UrlView, Seq<char>>(url) && url.host == Some(host)
                ==> s is Bridging && command == CommandView::Bridge(
                host + seq![':'] + digits + seq!['\n'],
            )
            &&& ended && (parsed is Err || parsed->Ok_0.host is None) ==> s is Over
                && command is Close
        }),
{
    let port: u16 = match url.port {
        Some(p) => p,
        None => 443,
    };
    fetch::law_target_reads_back(host, port, digits);
}

/// Once there is a tunnel the client is told so, and what it has sent ahead goes through
/// first, all of it; without a tunnel the connection is closed.
pub proof fn law_what_came_ahead_is_forwarded(ahead: Seq<u8>)
    ensures
        next(ProxyView::Bridging, HappenedView::Bridged(ahead)).1 == (CommandView::Relay {
            reply: "HTTP/1.1 200 Connection established\r\n\r\n"@,
            forward: if ahead.len() == 0 {
                None
            } else {
                Some(ahead)
            },
        }),
        next(ProxyView::Bridging, HappenedView::NotBridged).1 is Close,
{
}

} // verus!
