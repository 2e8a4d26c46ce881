//! `teeify.fetch`: a request through the parent's blind tunnel. The first line on
//! a tunnel names the target; with `https` the TLS session runs inside the tunnel,
//! from the enclave to the target. What is sent and read is asked for through
//! commands and answered through events.

use vstd::prelude::*;
use vstd::string::StringExecFns;
use vstd::utf8::*;

use crate::encoding;
use crate::http;
use crate::intake;
use crate::options;
use crate::options::FetchOptions;
use crate::script;
use crate::script::Fault;
use crate::text;
use crate::weburl;
use crate::weburl::UrlParts;

verus! {

/// The line that names the target of a tunnel.
pub open spec fn target(host: Seq<char>, port: u16) -> Seq<char> {
    host + ":"@ + text::decimal(port as nat) + "\n"@
}

/// The line that names the target of a tunnel.
pub fn target_line(host: &str, port: u16) -> (line: String)
    ensures
        line@ == target(host@, port),
{
    let mut line = host.to_string();
    line.append(":");
    line.append(text::to_decimal(port as u64).as_str());
    line.append("\n");
    line
}

/// Whether TLS can be asked for a server of this name.
pub uninterp spec fn is_server_name(host: Seq<char>) -> bool;

/// `ServerName::try_from` of the crate `rustls-pki-types`: whether a text names a
/// server, which depends on the text alone.
#[verifier::external_body]
fn server_name_fits(host: &str) -> (r: bool)
    ensures
        r == is_server_name(host@),
{
    rustls_pki_types::ServerName::try_from(host).is_ok()
}

/// What is to be done on the tunnel, as plain values.
pub ghost enum CommandView {
    Open,
    SendTarget(Seq<char>),
    Handshake(Seq<char>),
    Write(Seq<char>),
    Read,
}

/// What is to be done on the tunnel: open it; send the line with the target; shake
/// hands with a server by TLS; write the request; read some of the response.
pub enum Command {
    Open,
    SendTarget(String),
    Handshake(String),
    Write(String),
    Read,
}

impl View for Command {
    type V = CommandView;

    open spec fn view(&self) -> CommandView {
        match self {
            Command::Open => CommandView::Open,
            Command::SendTarget(line) => CommandView::SendTarget(line@),
            Command::Handshake(host) => CommandView::Handshake(host@),
            Command::Write(r) => CommandView::Write(r@),
            Command::Read => CommandView::Read,
        }
    }
}

/// What happened on the tunnel, as plain values.
pub ghost enum HappenedView {
    Done,
    Chunk(Seq<u8>),
    Failed { unexpected_eof: bool, message: Seq<char> },
    TimedOut,
}

/// What happened on the tunnel: it was done; bytes were read, or none any more; it
/// failed, perhaps because the other side closed without saying so; the time for
/// reading is up.
pub enum Happened {
    Done,
    Chunk(Vec<u8>),
    Failed { unexpected_eof: bool, message: String },
    TimedOut,
}

impl View for Happened {
    type V = HappenedView;

    open spec fn view(&self) -> HappenedView {
        match self {
            Happened::Done => HappenedView::Done,
            Happened::Chunk(bytes) => HappenedView::Chunk(bytes@),
            Happened::Failed { unexpected_eof, message } => HappenedView::Failed {
                unexpected_eof: *unexpected_eof,
                message: message@,
            },
            Happened::TimedOut => HappenedView::TimedOut,
        }
    }
}

/// How far a fetch has come.
#[derive(Clone, Copy, PartialEq, Eq, Structural)]
pub enum FetchStage {
    Opening,
    SendingTarget,
    ShakingHands,
    Writing,
    Reading,
}

/// A fetch under way, as plain values: how far it has come, what it is to do, the
/// parts of its URL, whether it uses TLS, and the response so far.
pub ghost struct SessionView {
    pub stage: FetchStage,
    pub fetch: options::FetchView,
    pub url: weburl::UrlView,
    pub host: Seq<char>,
    pub tls: bool,
    pub response: Seq<u8>,
}

/// A fetch under way.
pub struct FetchSession {
    stage: FetchStage,
    fetch: FetchOptions,
    url: UrlParts,
    host: String,
    tls: bool,
    response: Vec<u8>,
}

impl View for FetchSession {
    type V = SessionView;

    closed spec fn view(&self) -> SessionView {
        SessionView {
            stage: self.stage,
            fetch: self.fetch@,
            url: self.url@,
            host: self.host@,
            tls: self.tls,
            response: self.response@,
        }
    }
}

/// What comes next, as plain values.
pub ghost enum StepView {
    Go(SessionView, CommandView),
    Done(Result<Seq<char>, script::FaultView>),
    Overflow,
}

/// What comes next: a command, or the result. A response with a chunk so large
/// that its end has no address has no result.
pub enum FetchStep {
    Go(FetchSession, Command),
    Done(Result<String, Fault>),
    Overflow,
}

impl View for FetchStep {
    type V = StepView;

    open spec fn view(&self) -> StepView {
        match self {
            FetchStep::Go(s, c) => StepView::Go(s@, c@),
            FetchStep::Done(r) => StepView::Done(script::to_script_result(*r)),
            FetchStep::Overflow => StepView::Overflow,
        }
    }
}

/// The fetch fails with an `Error`.
pub open spec fn failed(what: Seq<char>, message: Seq<char>) -> StepView {
    StepView::Done(Err(script::FaultView::Error(what + message)))
}

/// The fetch fails with a `TypeError`.
pub open spec fn mistaken(message: Seq<char>) -> StepView {
    StepView::Done(Err(script::FaultView::TypeError(message)))
}

/// A fetch begins, once its URL has been taken apart.
pub open spec fn begun_with(
    fetch: options::FetchView,
    parsed: Result<weburl::UrlView, Seq<char>>,
) -> StepView {
    match parsed {
        Err(e) => mistaken("teeify.fetch: bad url: "@ + e),
        Ok(url) => if url.scheme == "https"@ || url.scheme == "http"@ {
            match url.host {
                None => mistaken("teeify.fetch: url has no host"@),
                Some(host) => StepView::Go(
                    SessionView {
                        stage: FetchStage::Opening,
                        fetch,
                        url,
                        host,
                        tls: url.scheme == "https"@,
                        response: seq![],
                    },
                    CommandView::Open,
                ),
            }
        } else {
            mistaken(
                "teeify.fetch: unsupported url scheme "@ + url.scheme + " (use http: or https:)"@,
            )
        },
    }
}

/// The port that a fetch goes to: the one of the URL, or else the usual one.
pub open spec fn port_of(s: SessionView) -> u16 {
    match s.url.port {
        Some(p) => p,
        None => if s.tls {
            443
        } else {
            80
        },
    }
}

/// The request that a fetch writes.
pub open spec fn request_of(s: SessionView) -> Seq<char> {
    http::request(s.url, s.fetch.method, s.fetch.body, s.fetch.headers)
}

/// The request is written.
pub open spec fn writing(s: SessionView) -> StepView {
    StepView::Go(
        SessionView { stage: FetchStage::Writing, ..s },
        CommandView::Write(request_of(s)),
    )
}

/// What follows the line with the target.
#[derive(Clone, Copy, PartialEq, Eq, Structural)]
pub enum AfterTarget {
    Write,
    ShakeHands,
    Refuse,
}

/// What follows the line with the target: with TLS the handshake, where the host
/// can be asked for by its name; without, the request.
pub open spec fn after_target(tls: bool, is_name: bool) -> AfterTarget {
    if !tls {
        AfterTarget::Write
    } else if is_name {
        AfterTarget::ShakeHands
    } else {
        AfterTarget::Refuse
    }
}

/// What follows the line with the target.
pub fn decide_after_target(tls: bool, is_name: bool) -> (r: AfterTarget)
    ensures
        r == after_target(tls, is_name),
{
    if !tls {
        AfterTarget::Write
    } else if is_name {
        AfterTarget::ShakeHands
    } else {
        AfterTarget::Refuse
    }
}

/// The target was sent.
pub open spec fn target_sent(s: SessionView) -> StepView {
    match after_target(s.tls, is_server_name(s.host)) {
        AfterTarget::Write => writing(s),
        AfterTarget::ShakeHands => StepView::Go(
            SessionView { stage: FetchStage::ShakingHands, ..s },
            CommandView::Handshake(s.host),
        ),
        AfterTarget::Refuse => failed("teeify.fetch: invalid TLS server name (SNI)"@, seq![]),
    }
}

/// What a response comes to, once it has been read.
pub open spec fn result_of(r: http::Response) -> StepView {
    match r {
        http::Response::Overflow => StepView::Overflow,
        http::Response::Fault(e) => failed("teeify.fetch HTTP decode error: "@, e),
        http::Response::Body(body) => match http::json_boundary(body) {
            Err(e) => failed("teeify.fetch JSON boundary error: "@, e),
            Ok(json) => StepView::Done(Ok(json)),
        },
    }
}

/// What bytes that were read make of a fetch.
pub open spec fn received(s: SessionView, bytes: Seq<u8>) -> StepView {
    if bytes.len() == 0 {
        result_of(http::response(s.response))
    } else if s.response.len() + bytes.len() > intake::MAX_RESPONSE_BYTES {
        failed("teeify.fetch: response exceeded size limit (4 MiB)"@, seq![])
    } else {
        StepView::Go(SessionView { response: s.response + bytes, ..s }, CommandView::Read)
    }
}

/// What a failure makes of a fetch. A response ends where the other side closes,
/// even where it does not say so.
pub open spec fn broken(s: SessionView, unexpected_eof: bool, message: Seq<char>) -> StepView {
    match s.stage {
        FetchStage::Opening => failed("egress socket: "@, message),
        FetchStage::SendingTarget => failed("egress target line: "@, message),
        FetchStage::ShakingHands => failed("TLS handshake: "@, message),
        FetchStage::Writing => failed("egress write: "@, message),
        FetchStage::Reading => if unexpected_eof {
            result_of(http::response(s.response))
        } else {
            failed("egress read: "@, message)
        },
    }
}

/// The command that a fetch waits for.
pub open spec fn waiting_for(s: SessionView) -> CommandView {
    match s.stage {
        FetchStage::Opening => CommandView::Open,
        FetchStage::SendingTarget => CommandView::SendTarget(target(s.host, port_of(s))),
        FetchStage::ShakingHands => CommandView::Handshake(s.host),
        FetchStage::Writing => CommandView::Write(request_of(s)),
        FetchStage::Reading => CommandView::Read,
    }
}

/// What comes next after something happened on the tunnel. What the fetch does not
/// wait for changes nothing.
pub open spec fn next(s: SessionView, h: HappenedView) -> StepView {
    match (s.stage, h) {
        (FetchStage::Opening, HappenedView::Done) => StepView::Go(
            SessionView { stage: FetchStage::SendingTarget, ..s },
            CommandView::SendTarget(target(s.host, port_of(s))),
        ),
        (FetchStage::SendingTarget, HappenedView::Done) => target_sent(s),
        (FetchStage::ShakingHands, HappenedView::Done) => writing(s),
        (FetchStage::Writing, HappenedView::Done) => StepView::Go(
            SessionView { stage: FetchStage::Reading, ..s },
            CommandView::Read,
        ),
        (FetchStage::Reading, HappenedView::Chunk(bytes)) => received(s, bytes),
        (FetchStage::Reading, HappenedView::TimedOut) => failed(
            "teeify.fetch: response read timed out (10s)"@,
            seq![],
        ),
        (_, HappenedView::Failed { unexpected_eof, message }) => broken(
            s,
            unexpected_eof,
            message,
        ),
        _ => StepView::Go(s, waiting_for(s)),
    }
}

fn fail(what: &str, message: &str) -> (r: FetchStep)
    ensures
        r@ == failed(what@, message@),
{
    FetchStep::Done(Err(Fault::Error(text::prefixed(what, message))))
}

fn fail_with(message: &str) -> (r: FetchStep)
    ensures
        r@ == failed(message@, seq![]),
{
    assert(message@ + Seq::<char>::empty() =~= message@);
    FetchStep::Done(Err(Fault::Error(message.to_string())))
}

/// What the bytes of a response come to.
pub fn finish_response(bytes: &[u8]) -> (r: FetchStep)
    ensures
        r@ == result_of(http::response(bytes@)),
{
    match http::decode_response(bytes) {
        None => FetchStep::Overflow,
        Some(Err(e)) => fail("teeify.fetch HTTP decode error: ", e.as_str()),
        Some(Ok(body)) => match http::extract_json_boundary(body.as_str()) {
            Err(e) => fail("teeify.fetch JSON boundary error: ", e.as_str()),
            Ok(json) => FetchStep::Done(Ok(json)),
        },
    }
}

impl FetchSession {
    #[verifier::type_invariant]
    spec fn fits(self) -> bool {
        self.response@.len() <= intake::MAX_RESPONSE_BYTES
    }

    /// A fetch begins, once its URL has been taken apart.
    pub fn begin_with(fetch: FetchOptions, parsed: Result<UrlParts, String>) -> (r: FetchStep)
        ensures
            r@ == begun_with(fetch@, weburl::to_url_result(parsed)),
    {
        match parsed {
            Err(e) => FetchStep::Done(
                Err(Fault::TypeError(text::prefixed("teeify.fetch: bad url: ", e.as_str()))),
            ),
            Ok(url) => {
                let tls = text::same_text(url.scheme.as_str(), "https");
                if !tls && !text::same_text(url.scheme.as_str(), "http") {
                    let mut message = text::prefixed(
                        "teeify.fetch: unsupported url scheme ",
                        url.scheme.as_str(),
                    );
                    message.append(" (use http: or https:)");
                    return FetchStep::Done(Err(Fault::TypeError(message)));
                }
                let host = match &url.host {
                    None => {
                        return FetchStep::Done(
                            Err(Fault::TypeError("teeify.fetch: url has no host".to_string())),
                        );
                    },
                    Some(h) => h.clone(),
                };
                FetchStep::Go(
                    FetchSession {
                        stage: FetchStage::Opening,
                        fetch,
                        url,
                        host,
                        tls,
                        response: Vec::new(),
                    },
                    Command::Open,
                )
            },
        }
    }

    /// A fetch begins.
    pub fn begin(fetch: FetchOptions) -> (r: FetchStep)
        ensures
            r@ == begun_with(fetch@, weburl::url_result(fetch@.url)),
            r@ matches StepView::Go(s, _) ==> s.fetch == fetch@ && weburl::url_result(fetch@.url)
                == Ok::<weburl::UrlView, Seq<char>>(s.url) && s.url.host == Some(s.host),
    {
        let parsed = weburl::parse_url(fetch.url.as_str());
        FetchSession::begin_with(fetch, parsed)
    }

    fn port(&self) -> (p: u16)
        ensures
            p == port_of(self@),
    {
        match self.url.port {
            Some(p) => p,
            None => if self.tls {
                443
            } else {
                80
            },
        }
    }

    fn request(&self) -> (r: String)
        ensures
            r@ == request_of(self@),
    {
        http::build_http_request(
            &self.url,
            self.fetch.method.as_str(),
            &self.fetch.body,
            &self.fetch.headers,
        )
    }

    fn at(self, stage: FetchStage) -> (r: FetchSession)
        ensures
            r@ == (SessionView { stage, ..self@ }),
    {
        proof {
            use_type_invariant(&self);
        }
        FetchSession { stage, ..self }
    }

    /// What the fetch waits for.
    pub fn command(&self) -> (c: Command)
        ensures
            c@ == waiting_for(self@),
    {
        match self.stage {
            FetchStage::Opening => Command::Open,
            FetchStage::SendingTarget => Command::SendTarget(
                target_line(self.host.as_str(), self.port()),
            ),
            FetchStage::ShakingHands => Command::Handshake(self.host.clone()),
            FetchStage::Writing => Command::Write(self.request()),
            FetchStage::Reading => Command::Read,
        }
    }

    fn write(self) -> (r: FetchStep)
        ensures
            r@ == writing(self@),
    {
        let s = self.at(FetchStage::Writing);
        let command = s.command();
        FetchStep::Go(s, command)
    }

    fn send_on(self) -> (r: FetchStep)
        ensures
            r@ == target_sent(self@),
    {
        let is_name = server_name_fits(self.host.as_str());
        match decide_after_target(self.tls, is_name) {
            AfterTarget::Write => self.write(),
            AfterTarget::ShakeHands => {
                let s = self.at(FetchStage::ShakingHands);
                let command = s.command();
                FetchStep::Go(s, command)
            },
            AfterTarget::Refuse => fail_with("teeify.fetch: invalid TLS server name (SNI)"),
        }
    }

    fn receive(self, bytes: &[u8]) -> (r: FetchStep)
        ensures
            r@ == received(self@, bytes@),
    {
        proof {
            use_type_invariant(&self);
        }
        if bytes.len() == 0 {
            return finish_response(self.response.as_slice());
        }
        if bytes.len() > intake::MAX_RESPONSE_BYTES - self.response.len() {
            return fail_with("teeify.fetch: response exceeded size limit (4 MiB)");
        }
        let ghost before = self.response@;
        let FetchSession { stage, fetch, url, host, tls, response } = self;
        let mut response = response;
        response.extend_from_slice(bytes);
        assert(response@ =~= before + bytes@);
        FetchStep::Go(FetchSession { stage, fetch, url, host, tls, response }, Command::Read)
    }

    fn break_off(self, unexpected_eof: bool, message: &str) -> (r: FetchStep)
        ensures
            r@ == broken(self@, unexpected_eof, message@),
    {
        match self.stage {
            FetchStage::Opening => fail("egress socket: ", message),
            FetchStage::SendingTarget => fail("egress target line: ", message),
            FetchStage::ShakingHands => fail("TLS handshake: ", message),
            FetchStage::Writing => fail("egress write: ", message),
            FetchStage::Reading => {
                if unexpected_eof {
                    finish_response(self.response.as_slice())
                } else {
                    fail("egress read: ", message)
                }
            },
        }
    }

    /// Takes in what happened on the tunnel.
    pub fn step(self, happened: Happened) -> (r: FetchStep)
        ensures
            r@ == next(self@, happened@),
    {
        match (self.stage, happened) {
            (FetchStage::Opening, Happened::Done) => {
                let s = self.at(FetchStage::SendingTarget);
                let command = s.command();
                FetchStep::Go(s, command)
            },
            (FetchStage::SendingTarget, Happened::Done) => self.send_on(),
            (FetchStage::ShakingHands, Happened::Done) => self.write(),
            (FetchStage::Writing, Happened::Done) => FetchStep::Go(
                self.at(FetchStage::Reading),
                Command::Read,
            ),
            (FetchStage::Reading, Happened::Chunk(bytes)) => self.receive(bytes.as_slice()),
            (FetchStage::Reading, Happened::TimedOut) => fail_with(
                "teeify.fetch: response read timed out (10s)",
            ),
            (_, Happened::Failed { unexpected_eof, message }) => self.break_off(
                unexpected_eof,
                message.as_str(),
            ),
            _ => {
                let command = self.command();
                FetchStep::Go(self, command)
            },
        }
    }
}

/// With `https`, the request is written only once the TLS handshake is done: the
/// parent sees no more of it than the line with the target.
pub proof fn law_request_follows_handshake(s: SessionView, h: HappenedView)
    requires
        s.tls,
        !(s.stage is Writing),
    ensures
        next(s, h) matches StepView::Go(t, CommandView::Write(_)) ==> s.stage is ShakingHands
            && h is Done,
{
}

/// What comes of a fetch on which everything goes well a number of times.
pub open spec fn after_successes(step: StepView, n: nat) -> StepView
    decreases n,
{
    match step {
        StepView::Go(s, _) => if n == 0 {
            step
        } else {
            after_successes(next(s, HappenedView::Done), (n - 1) as nat)
        },
        _ => step,
    }
}

/// The command that a step gives.
pub open spec fn command_of(step: StepView) -> Option<CommandView> {
    match step {
        StepView::Go(_, c) => Some(c),
        _ => None,
    }
}

/// Where everything goes well, a fetch opens a tunnel, names its host as the
/// target, with `https` shakes hands with that host, writes its request, which is
/// for that host too, and reads.
pub proof fn law_commands_in_order(fetch: options::FetchView, url: weburl::UrlView)
    requires
        url.host is Some,
        url.scheme == "https"@ || url.scheme == "http"@,
        url.scheme == "https"@ ==> is_server_name(url.host->0),
    ensures
        ({
            let start = begun_with(fetch, Ok(url));
            let tls: nat = if url.scheme == "https"@ {
                1
            } else {
                0
            };
            let port: u16 = match url.port {
                Some(p) => p,
                None => if url.scheme == "https"@ {
                    443
                } else {
                    80
                },
            };
            let text = http::request(url, fetch.method, fetch.body, fetch.headers);
            &&& command_of(after_successes(start, 0)) == Some(CommandView::Open)
            &&& command_of(after_successes(start, 1)) == Some(
                CommandView::SendTarget(target(url.host->0, port)),
            )
            &&& tls == 1 ==> command_of(after_successes(start, 2)) == Some(
                CommandView::Handshake(url.host->0),
            )
            &&& command_of(after_successes(start, 2 + tls)) == Some(CommandView::Write(text))
            &&& command_of(after_successes(start, 3 + tls)) == Some(CommandView::Read)
        }),
{
    reveal_with_fuel(after_successes, 5);
}

/// Only the stage and the response of a fetch change under way.
pub proof fn law_fetch_stays(s: SessionView, h: HappenedView)
    ensures
        next(s, h) matches StepView::Go(t, c) ==> {
            &&& t == (SessionView { stage: t.stage, response: t.response, ..s })
            &&& c == waiting_for(t)
        },
{
}

/// No more of a response is kept than the limit.
pub proof fn law_response_is_bounded(s: SessionView, h: HappenedView)
    requires
        s.response.len() <= intake::MAX_RESPONSE_BYTES,
    ensures
        next(s, h) matches StepView::Go(t, c) ==> t.response.len() <= intake::MAX_RESPONSE_BYTES,
{
}

/// What comes of a number of reads, one after the other.
pub open spec fn after_reads(s: SessionView, pieces: Seq<Seq<u8>>) -> StepView
    decreases pieces.len(),
{
    if pieces.len() == 0 {
        StepView::Go(s, CommandView::Read)
    } else {
        match next(s, HappenedView::Chunk(pieces[0])) {
            StepView::Go(t, _) => after_reads(t, pieces.drop_first()),
            done => done,
        }
    }
}

/// It does not matter into which pieces reading cuts a response: at its end its
/// result is the one of the whole, or that it is too large.
pub proof fn law_pieces_do_not_matter(s: SessionView, pieces: Seq<Seq<u8>>)
    requires
        s.stage is Reading,
        s.response.len() <= intake::MAX_RESPONSE_BYTES,
        forall|i: int| 0 <= i < pieces.len() ==> (#[trigger] pieces[i]).len() > 0,
    ensures
        after_reads(s, pieces.push(seq![])) == (if s.response.len() + http::joined(pieces).len()
            > intake::MAX_RESPONSE_BYTES {
            failed("teeify.fetch: response exceeded size limit (4 MiB)"@, seq![])
        } else {
            result_of(http::response(s.response + http::joined(pieces)))
        }),
    decreases pieces.len(),
{
    let all = pieces.push(seq![]);
    if pieces.len() == 0 {
        assert(all[0] =~= seq![]);
        assert(s.response + http::joined(pieces) =~= s.response);
    } else {
        let first = pieces[0];
        let tail = pieces.drop_first();
        assert(all[0] == first);
        assert(all.drop_first() =~= tail.push(seq![]));
        assert(http::joined(pieces) == first + http::joined(tail));
        if s.response.len() + first.len() <= intake::MAX_RESPONSE_BYTES {
            let t = SessionView { response: s.response + first, ..s };
            assert forall|i: int| 0 <= i < tail.len() implies (#[trigger] tail[i]).len() > 0 by {
                assert(tail[i] == pieces[i + 1]);
            }
            law_pieces_do_not_matter(t, tail);
            assert(s.response + (first + http::joined(tail)) =~= t.response + http::joined(tail));
        }
    }
}

/// A fetch that succeeds gives a text that begins and ends like a JSON object or
/// like a JSON array.
pub proof fn law_success_looks_like_json(s: SessionView, h: HappenedView)
    ensures
        next(s, h) matches StepView::Done(Ok(json)) ==> http::is_paired(json),
{
    if let http::Response::Body(body) = http::response(s.response) {
        http::law_json_boundary_is_a_part(body);
    }
}

/// A fetch whose response has a body ends with the JSON in it, however the response
/// comes to its end: exactly what the rule for the outermost pair cuts out of the body,
/// or a failure where it finds none.
pub proof fn law_result_is_the_json_of_the_body(
    s: SessionView,
    body: Seq<char>,
    h: HappenedView,
)
    requires
        s.stage is Reading,
        http::response(s.response) == http::Response::Body(body),
        h == HappenedView::Chunk(seq![]) || (h matches HappenedView::Failed {
            unexpected_eof: true,
            message,
        }),
    ensures
        next(s, h) == (match http::json_boundary(body) {
            Ok(json) => StepView::Done(Ok(json)),
            Err(e) => StepView::Done(
                Err(script::FaultView::Error("teeify.fetch JSON boundary error: "@ + e)),
            ),
        }),
{
}

/// A response that is no response of HTTP fails, with what is wrong with it.
pub proof fn law_broken_response_fails(s: SessionView, e: Seq<char>, h: HappenedView)
    requires
        s.stage is Reading,
        h == HappenedView::Chunk(seq![]) || (h matches HappenedView::Failed {
            unexpected_eof: true,
            message,
        }),
    ensures
        http::response(s.response) == http::Response::Fault(e) ==> next(s, h) == StepView::Done(
            Err(script::FaultView::Error("teeify.fetch HTTP decode error: "@ + e)),
        ),
        http::response(s.response) is Overflow ==> next(s, h) is Overflow,
{
}

/// A fetch gives back the JSON that the server sent, all of it and nothing else:
/// whatever pieces a response arrives in, where its body is an object or an array with
/// text round it that opens and closes none, white space and NULs say, the fetch ends
/// with exactly that object or array.
pub proof fn law_fetch_gives_the_json_that_was_sent(
    s: SessionView,
    head: Seq<u8>,
    before: Seq<char>,
    json: Seq<char>,
    behind: Seq<char>,
    pieces: Seq<Seq<u8>>,
)
    requires
        s.stage is Reading,
        s.response.len() == 0,
        forall|i: int| 0 <= i < pieces.len() ==> (#[trigger] pieces[i]).len() > 0,
        http::joined(pieces) == head + seq![13u8, 10u8, 13u8, 10u8] + encode_utf8(
            before + json + behind,
        ),
        http::joined(pieces).len() <= 4194304,
        text::is_first_at(
            head + seq![13u8, 10u8, 13u8, 10u8],
            seq![13u8, 10u8, 13u8, 10u8],
            head.len() as int,
        ),
        !http::announces_chunks(head),
        http::is_paired(json),
        !before.contains('{'),
        !before.contains('['),
        !behind.contains('}'),
        !behind.contains(']'),
    ensures
        after_reads(s, pieces.push(seq![])) == StepView::Done(Ok(json)),
{
    let body = before + json + behind;
    assert(http::blank_line() =~= seq![13u8, 10u8, 13u8, 10u8]);
    http::law_plain_response(head, body);
    http::law_text_around_does_not_matter(before, json, behind);
    law_pieces_do_not_matter(s, pieces);
    assert(s.response + http::joined(pieces) =~= http::joined(pieces));
}

/// The same holds of a response in chunks, wherever the chunks end.
pub proof fn law_fetch_gives_the_json_in_the_chunks(
    s: SessionView,
    head: Seq<u8>,
    before: Seq<char>,
    json: Seq<char>,
    behind: Seq<char>,
    parts: Seq<Seq<u8>>,
    pieces: Seq<Seq<u8>>,
)
    requires
        s.stage is Reading,
        s.response.len() == 0,
        forall|i: int| 0 <= i < pieces.len() ==> (#[trigger] pieces[i]).len() > 0,
        http::joined(pieces) == head + seq![13u8, 10u8, 13u8, 10u8] + http::chunked(parts),
        http::joined(pieces).len() <= 4194304,
        text::is_first_at(
            head + seq![13u8, 10u8, 13u8, 10u8],
            seq![13u8, 10u8, 13u8, 10u8],
            head.len() as int,
        ),
        http::announces_chunks(head),
        forall|i: int|
            0 <= i < parts.len() ==> 0 < (#[trigger] parts[i]).len() && parts[i].len() + 2
                <= usize::MAX,
        http::joined(parts) == encode_utf8(before + json + behind),
        http::is_paired(json),
        !before.contains('{'),
        !before.contains('['),
        !behind.contains('}'),
        !behind.contains(']'),
    ensures
        after_reads(s, pieces.push(seq![])) == StepView::Done(Ok(json)),
{
    let body = before + json + behind;
    assert(http::blank_line() =~= seq![13u8, 10u8, 13u8, 10u8]);
    http::law_chunked_response(head, parts);
    encoding::law_text_reads_back(encode_utf8(body), body);
    http::law_text_around_does_not_matter(before, json, behind);
    law_pieces_do_not_matter(s, pieces);
    assert(s.response + http::joined(pieces) =~= http::joined(pieces));
}

/// A fetch that breaks off fails, and says where and why: each stage in its own words,
/// with the message as it is. Only the end of a response may come unannounced.
pub proof fn law_failures_name_the_stage(
    s: SessionView,
    unexpected_eof: bool,
    message: Seq<char>,
)
    ensures
        ({
            let h = HappenedView::Failed { unexpected_eof, message };
            let fails = |what: Seq<char>|
                StepView::Done(Err(script::FaultView::Error(what + message)));
            &&& s.stage is Opening ==> next(s, h) == fails("egress socket: "@)
            &&& s.stage is SendingTarget ==> next(s, h) == fails("egress target line: "@)
            &&& s.stage is ShakingHands ==> next(s, h) == fails("TLS handshake: "@)
            &&& s.stage is Writing ==> next(s, h) == fails("egress write: "@)
            &&& s.stage is Reading && !unexpected_eof ==> next(s, h) == fails("egress read: "@)
        }),
        s.stage is Reading ==> next(s, HappenedView::TimedOut) == StepView::Done(
            Err(script::FaultView::Error("teeify.fetch: response read timed out (10s)"@)),
        ),
        s.stage is SendingTarget && s.tls && !is_server_name(s.host) ==> next(s, HappenedView::Done)
            == StepView::Done(
            Err(script::FaultView::Error("teeify.fetch: invalid TLS server name (SNI)"@)),
        ),
{
    let none = Seq::<char>::empty();
    let late = "teeify.fetch: response read timed out (10s)"@;
    let nameless = "teeify.fetch: invalid TLS server name (SNI)"@;
    assert(late + none =~= late);
    assert(nameless + none =~= nameless);
}

/// What is read is kept behind what was read before, up to four megabytes; with more the
/// fetch fails.
pub proof fn law_response_grows_up_to_the_limit(s: SessionView, bytes: Seq<u8>)
    requires
        s.stage is Reading,
        bytes.len() > 0,
    ensures
        s.response.len() + bytes.len() <= 4194304 ==> next(s, HappenedView::Chunk(bytes))
            == StepView::Go(
            SessionView { response: s.response + bytes, ..s },
            CommandView::Read,
        ),
        s.response.len() + bytes.len() > 4194304 ==> next(s, HappenedView::Chunk(bytes))
            == StepView::Done(
            Err(script::FaultView::Error("teeify.fetch: response exceeded size limit (4 MiB)"@)),
        ),
{
    let large = "teeify.fetch: response exceeded size limit (4 MiB)"@;
    assert(large + Seq::<char>::empty() =~= large);
}

/// A URL that cannot be taken apart, one of another scheme, and one without a host are
/// refused before a tunnel is opened.
pub proof fn law_bad_urls_are_refused(
    fetch: options::FetchView,
    url: weburl::UrlView,
    complaint: Seq<char>,
)
    ensures
        begun_with(fetch, Err(complaint)) == StepView::Done(
            Err(script::FaultView::TypeError("teeify.fetch: bad url: "@ + complaint)),
        ),
        url.scheme != "https"@ && url.scheme != "http"@ ==> begun_with(fetch, Ok(url))
            == StepView::Done(
            Err(
                script::FaultView::TypeError(
                    "teeify.fetch: unsupported url scheme "@ + url.scheme
                        + " (use http: or https:)"@,
                ),
            ),
        ),
        (url.scheme == "https"@ || url.scheme == "http"@) && url.host is None ==> begun_with(
            fetch,
            Ok(url),
        ) == StepView::Done(
            Err(script::FaultView::TypeError("teeify.fetch: url has no host"@)),
        ),
{
}

/// The line with the target is the host, a colon, the port in decimal notation and the
/// end of the line, so that both can be read back from it.
pub proof fn law_target_reads_back(host: Seq<char>, port: u16, digits: Seq<char>)
    requires
        digits.len() > 0,
        digits.len() > 1 ==> digits[0] != '0',
        text::digits_value(digits, 10) == Some(port as nat),
    ensures
        target(host, port) == host + seq![':'] + digits + seq!['\n'],
        forall|h: Seq<char>, p: u16| #[trigger]
            target(h, p) == target(host, port) ==> h == host && p == port,
{
    reveal_strlit(":");
    reveal_strlit("\n");
    text::law_decimal_is_unique(digits, port as nat);
    assert(":"@ =~= seq![':']);
    assert("\n"@ =~= seq!['\n']);
    assert forall|h: Seq<char>, p: u16| #[trigger] target(h, p) == target(host, port) implies h
        == host && p == port by {
        let line = target(host, port);
        text::law_decimal(p as nat);
        text::law_decimal(port as nat);
        let a = text::decimal(port as nat);
        let b = text::decimal(p as nat);
        assert(line[line.len() - 2 - a.len()] == ':');
        assert(line[line.len() - 2 - b.len()] == ':');
        if a.len() > b.len() {
            let at = line.len() - 2 - b.len();
            assert(line[at] == a[at - host.len() - 1]);
        }
        if b.len() > a.len() {
            let at = line.len() - 2 - a.len();
            assert(target(h, p)[at] == b[at - h.len() - 1]);
        }
        assert(a.len() == b.len());
        assert(h.len() == host.len());
        assert(line.take(host.len() as int) =~= host);
        assert(target(h, p).take(h.len() as int) =~= h);
        let from = host.len() + 1int;
        assert(line.subrange(from, from + a.len()) =~= a);
        assert(target(h, p).subrange(from, from + a.len()) =~= b);
    }
}

} // verus!
