//! What agent code can ask of the enclave besides `fetch`: a signature, a line on
//! the console; and how the value that it evaluates to becomes text.

use vstd::prelude::*;
use vstd::string::StringExecFns;

use crate::text;
use crate::wallet;
use crate::wallet::WalletKey;

verus! {

/// An error that agent code sees, as plain values.
pub ghost enum FaultView {
    TypeError(Seq<char>),
    Error(Seq<char>),
}

/// An error that agent code sees: a `TypeError` or an `Error`, with its message.
pub enum Fault {
    TypeError(String),
    Error(String),
}

impl View for Fault {
    type V = FaultView;

    open spec fn view(&self) -> FaultView {
        match self {
            Fault::TypeError(m) => FaultView::TypeError(m@),
            Fault::Error(m) => FaultView::Error(m@),
        }
    }
}

/// The plain values behind what agent code gets: a text, or an error.
pub open spec fn to_script_result(r: Result<String, Fault>) -> Result<Seq<char>, FaultView> {
    match r {
        Ok(s) => Ok(s@),
        Err(f) => Err(f@),
    }
}

/// What signing comes to for agent code, once there is a signature.
pub open spec fn signed_result(signed: Result<Seq<char>, Seq<char>>) -> Result<
    Seq<char>,
    FaultView,
> {
    match signed {
        Ok(signature) => Ok(signature),
        Err(e) => Err(FaultView::Error("teeify.signMessage: "@ + e)),
    }
}

/// What `teeify.signMessage` gives for a payload, which may be missing.
pub open spec fn sign_message_result(key: Seq<u8>, payload: Option<Seq<char>>) -> Result<
    Seq<char>,
    FaultView,
> {
    match payload {
        None => Err(FaultView::TypeError("teeify.signMessage: string payload is required"@)),
        Some(message) => signed_result(wallet::personal_signature(key, message)),
    }
}

/// What signing comes to for agent code.
pub fn signed(r: Result<String, String>) -> (s: Result<String, Fault>)
    ensures
        to_script_result(s) == signed_result(text::to_text_result(r)),
{
    match r {
        Ok(signature) => Ok(signature),
        Err(e) => Err(Fault::Error(text::prefixed("teeify.signMessage: ", e.as_str()))),
    }
}

/// `teeify.signMessage`: an EIP-191 signature of the payload with the wallet's
/// key. A payload that is undefined or null is missing.
pub fn sign_message(key: &WalletKey, payload: &Option<String>) -> (r: Result<String, Fault>)
    ensures
        to_script_result(r) == sign_message_result(key@, text::optional_text(*payload)),
{
    match payload {
        None => Err(
            Fault::TypeError("teeify.signMessage: string payload is required".to_string()),
        ),
        Some(message) => signed(wallet::ethereum_personal_sign_hex(key, message.as_str())),
    }
}

/// Texts with a space between each two.
pub open spec fn spaced(list: Seq<Seq<char>>) -> Seq<char>
    decreases list.len(),
{
    if list.len() == 0 {
        seq![]
    } else if list.len() == 1 {
        list[0]
    } else {
        spaced(list.drop_last()).push(' ') + list.last()
    }
}

/// The line that `console.log` prints for its arguments.
pub fn console_line(args: &Vec<String>) -> (line: String)
    ensures
        line@ == spaced(text::texts(args@)),
{
    let ghost list = text::texts(args@);
    let mut line = String::new();
    let mut i: usize = 0;
    assert(line@ =~= spaced(list.take(0)));
    while i < args.len()
        invariant
            list == text::texts(args@),
            i <= args@.len(),
            line@ == spaced(list.take(i as int)),
        decreases args.len() - i,
    {
        if i > 0 {
            line.push(' ');
        }
        line.append(args[i].as_str());
        assert(list.take(i + 1).drop_last() =~= list.take(i as int));
        assert(list.take(i + 1).last() == list[i as int]);
        i += 1;
        assert(line@ =~= spaced(list.take(i as int)));
    }
    assert(list.take(i as int) =~= list);
    line
}

/// The steps in which agent code is brought to run.
#[derive(Clone, Copy, PartialEq, Eq, Structural)]
pub enum EngineStep {
    Teeify,
    Console,
    RequestValue,
    RequestProperty,
    SecretsValue,
    SecretsProperty,
    Evaluation,
}

/// What the output says where a step fails.
pub open spec fn engine_failure(step: EngineStep, e: Seq<char>) -> Seq<char> {
    (match step {
        EngineStep::Teeify => "teeify init: "@,
        EngineStep::Console => "console init: "@,
        EngineStep::RequestValue => "TEEIFY_REQUEST: serde_json to JsValue: "@,
        EngineStep::RequestProperty => "TEEIFY_REQUEST: register: "@,
        EngineStep::SecretsValue => "TEEIFY_SECRETS: serde_json to JsValue: "@,
        EngineStep::SecretsProperty => "TEEIFY_SECRETS: register: "@,
        EngineStep::Evaluation => "JS Execution Error: "@,
    }) + e
}

/// What the output says where a step fails.
pub fn engine_failure_text(step: EngineStep, e: &str) -> (r: String)
    ensures
        r@ == engine_failure(step, e@),
{
    match step {
        EngineStep::Teeify => text::prefixed("teeify init: ", e),
        EngineStep::Console => text::prefixed("console init: ", e),
        EngineStep::RequestValue => text::prefixed("TEEIFY_REQUEST: serde_json to JsValue: ", e),
        EngineStep::RequestProperty => text::prefixed("TEEIFY_REQUEST: register: ", e),
        EngineStep::SecretsValue => text::prefixed("TEEIFY_SECRETS: serde_json to JsValue: ", e),
        EngineStep::SecretsProperty => text::prefixed("TEEIFY_SECRETS: register: ", e),
        EngineStep::Evaluation => text::prefixed("JS Execution Error: ", e),
    }
}

/// How often the job queue is drained before a promise counts as stalled.
pub const MAX_ROUNDS: u8 = 64;

/// What a round of draining the job queue shows, as plain values.
pub ghost enum RoundView {
    JobsFailed(Seq<char>),
    Fulfilled,
    Rejected(Seq<char>),
    Pending,
    Settled(Seq<char>),
}

/// What a round of draining the job queue shows: the queue failed, or the value is
/// a promise that is fulfilled with another value, rejected for a reason, or
/// pending, or it is no promise.
pub enum Round {
    JobsFailed(String),
    Fulfilled,
    Rejected(String),
    Pending,
    Settled(String),
}

impl View for Round {
    type V = RoundView;

    open spec fn view(&self) -> RoundView {
        match self {
            Round::JobsFailed(e) => RoundView::JobsFailed(e@),
            Round::Fulfilled => RoundView::Fulfilled,
            Round::Rejected(r) => RoundView::Rejected(r@),
            Round::Pending => RoundView::Pending,
            Round::Settled(v) => RoundView::Settled(v@),
        }
    }
}

/// What the result is after a round, given how many came before it; nothing where
/// another round is needed.
pub open spec fn verdict(before: int, round: RoundView) -> Option<Seq<char>> {
    match round {
        RoundView::JobsFailed(e) => Some("run_jobs: "@ + e),
        RoundView::Rejected(r) => Some("Promise rejected: "@ + r),
        RoundView::Settled(v) => Some(v),
        RoundView::Pending => if before + 1 >= MAX_ROUNDS {
            Some("Promise { <pending> } (stalled in run_to_completion)"@)
        } else {
            None
        },
        RoundView::Fulfilled => if before + 1 >= MAX_ROUNDS {
            Some("Error: too many Promise fulfillment hops"@)
        } else {
            None
        },
    }
}

/// The text that a value becomes in a number of rounds, beginning with the
/// `before`-th; nothing where they are too few.
pub open spec fn settled(before: int, rounds: Seq<RoundView>) -> Option<Seq<char>>
    decreases rounds.len(),
{
    if rounds.len() == 0 {
        None
    } else {
        match verdict(before, rounds[0]) {
            Some(v) => Some(v),
            None => settled(before + 1, rounds.drop_first()),
        }
    }
}

/// Counts the rounds in which an evaluated value becomes text.
pub struct Settling {
    rounds: u8,
}

impl View for Settling {
    type V = int;

    closed spec fn view(&self) -> int {
        self.rounds as int
    }
}

impl Settling {
    #[verifier::type_invariant]
    spec fn fits(self) -> bool {
        self.rounds <= MAX_ROUNDS
    }

    /// No round yet.
    pub fn new() -> (s: Settling)
        ensures
            s@ == 0,
    {
        Settling { rounds: 0 }
    }

    /// Takes in what a round shows, and gives the text that the value becomes, or
    /// nothing where another round is needed.
    pub fn observe(&mut self, round: Round) -> (r: Option<String>)
        ensures
            text::optional_text(r) == verdict(old(self)@, round@),
            r is None ==> final(self)@ == old(self)@ + 1,
            r is Some ==> final(self)@ == old(self)@,
    {
        proof {
            use_type_invariant(&*self);
        }
        match round {
            Round::JobsFailed(e) => Some(text::prefixed("run_jobs: ", e.as_str())),
            Round::Rejected(r) => Some(text::prefixed("Promise rejected: ", r.as_str())),
            Round::Settled(v) => Some(v),
            Round::Pending => {
                if self.rounds >= MAX_ROUNDS - 1 {
                    Some("Promise { <pending> } (stalled in run_to_completion)".to_string())
                } else {
                    self.rounds = self.rounds + 1;
                    None
                }
            },
            Round::Fulfilled => {
                if self.rounds >= MAX_ROUNDS - 1 {
                    Some("Error: too many Promise fulfillment hops".to_string())
                } else {
                    self.rounds = self.rounds + 1;
                    None
                }
            },
        }
    }
}

/// As many rounds as are allowed always settle a value.
pub proof fn law_settles_in_time(before: int, rounds: Seq<RoundView>)
    requires
        0 <= before < MAX_ROUNDS,
        before + rounds.len() >= MAX_ROUNDS,
    ensures
        settled(before, rounds) is Some,
    decreases rounds.len(),
{
    if verdict(before, rounds[0]) is None {
        law_settles_in_time(before + 1, rounds.drop_first());
    }
}

/// A value that is no promise, or a promise for one, however deep below the limit,
/// becomes the text of the value.
pub proof fn law_unwraps_promises(hops: nat, rounds: Seq<RoundView>, value: Seq<char>)
    requires
        hops < MAX_ROUNDS,
        rounds.len() > hops,
        forall|i: int|
            0 <= i < hops ==> (#[trigger] rounds[i]) is Fulfilled || rounds[i] is Pending,
        rounds[hops as int] == RoundView::Settled(value),
    ensures
        settled(0, rounds) == Some(value),
{
    lemma_unwraps(0, hops, rounds, value);
}

proof fn lemma_unwraps(before: int, hops: nat, rounds: Seq<RoundView>, value: Seq<char>)
    requires
        0 <= before,
        before + hops < MAX_ROUNDS,
        rounds.len() > hops,
        forall|i: int|
            0 <= i < hops ==> (#[trigger] rounds[i]) is Fulfilled || rounds[i] is Pending,
        rounds[hops as int] == RoundView::Settled(value),
    ensures
        settled(before, rounds) == Some(value),
    decreases hops,
{
    if hops > 0 {
        let tail = rounds.drop_first();
        assert forall|i: int| 0 <= i < hops - 1 implies (#[trigger] tail[i]) is Fulfilled
            || tail[i] is Pending by {
            assert(tail[i] == rounds[i + 1]);
        }
        assert(rounds[0] is Fulfilled || rounds[0] is Pending);
        lemma_unwraps(before + 1, (hops - 1) as nat, tail, value);
    }
}

/// A message is signed as it was handed over, white space, empty text and all; only a
/// missing one is refused, and a signature that fails is told with its reason.
pub proof fn law_message_is_signed(key: Seq<u8>, message: Seq<char>, outcome: Seq<char>)
    ensures
        wallet::personal_signature(key, message) == Ok::<Seq<char>, Seq<char>>(outcome)
            ==> sign_message_result(key, Some(message)) == Ok::<Seq<char>, FaultView>(outcome),
        wallet::personal_signature(key, message) == Err::<Seq<char>, Seq<char>>(outcome)
            ==> sign_message_result(key, Some(message)) == Err::<Seq<char>, FaultView>(
            FaultView::Error("teeify.signMessage: "@ + outcome),
        ),
        sign_message_result(key, None) == Err::<Seq<char>, FaultView>(
            FaultView::TypeError("teeify.signMessage: string payload is required"@),
        ),
{
}

/// A line on the console is its arguments as they are, in their order, with one space
/// between each two and none at the ends.
pub proof fn law_console_line(list: Seq<Seq<char>>, last: Seq<char>)
    ensures
        spaced(seq![]) == Seq::<char>::empty(),
        spaced(seq![last]) == last,
        list.len() > 0 ==> spaced(list.push(last)) == spaced(list) + seq![' '] + last,
{
    assert(list.push(last).drop_last() =~= list);
    if list.len() > 0 {
        assert(spaced(list.push(last)) =~= spaced(list) + seq![' '] + last);
    }
}

/// What is said where code cannot be run ends with the reason as it is, behind words for
/// the step that failed, which no other step has.
pub proof fn law_failures_name_the_step(a: EngineStep, b: EngineStep, e: Seq<char>)
    ensures
        engine_failure(a, e).len() >= e.len(),
        engine_failure(a, e).skip(engine_failure(a, e).len() - e.len()) == e,
        engine_failure(a, e) == engine_failure(b, e) ==> a == b,
        engine_failure(EngineStep::Evaluation, e) == "JS Execution Error: "@ + e,
{
    assert(engine_failure(a, e).skip(engine_failure(a, e).len() - e.len()) =~= e);
    reveal_strlit("teeify init: ");
    reveal_strlit("console init: ");
    reveal_strlit("TEEIFY_REQUEST: serde_json to JsValue: ");
    reveal_strlit("TEEIFY_REQUEST: register: ");
    reveal_strlit("TEEIFY_SECRETS: serde_json to JsValue: ");
    reveal_strlit("TEEIFY_SECRETS: register: ");
    reveal_strlit("JS Execution Error: ");
    let s = engine_failure(a, e);
    let t = engine_failure(b, e);
    if s == t {
        assert(s[0] == t[0] && s[7] == t[7] && s[8] == t[8]);
        assert(s.len() == t.len());
    }
}

/// A round settles the value where it shows one, a rejection or a failure, with its text
/// as it is; a promise that is pending or fulfilled takes another round, until the last
/// of the 64.
pub proof fn law_rounds(before: int, e: Seq<char>)
    requires
        0 <= before,
    ensures
        verdict(before, RoundView::Settled(e)) == Some(e),
        verdict(before, RoundView::Rejected(e)) == Some("Promise rejected: "@ + e),
        verdict(before, RoundView::JobsFailed(e)) == Some("run_jobs: "@ + e),
        before < 63 ==> verdict(before, RoundView::Pending) is None && verdict(
            before,
            RoundView::Fulfilled,
        ) is None,
        before >= 63 ==> verdict(before, RoundView::Pending) == Some(
            "Promise { <pending> } (stalled in run_to_completion)"@,
        ) && verdict(before, RoundView::Fulfilled) == Some(
            "Error: too many Promise fulfillment hops"@,
        ),
{
}

/// The first round that settles a value decides: what comes before it only counts.
pub proof fn law_first_settling_round_decides(
    before: int,
    waits: Seq<RoundView>,
    round: RoundView,
    later: Seq<RoundView>,
)
    requires
        0 <= before,
        before + waits.len() < 64,
        forall|i: int|
            0 <= i < waits.len() ==> (#[trigger] waits[i]) is Fulfilled || waits[i] is Pending,
    ensures
        settled(before, waits + seq![round] + later) == (match verdict(
            before + waits.len(),
            round,
        ) {
            Some(v) => Some(v),
            None => settled(before + waits.len() + 1, later),
        }),
    decreases waits.len(),
{
    let rounds = waits + seq![round] + later;
    if waits.len() == 0 {
        assert(rounds[0] == round);
        assert(rounds.drop_first() =~= later);
    } else {
        let tail = waits.drop_first();
        assert forall|i: int| 0 <= i < tail.len() implies (#[trigger] tail[i]) is Fulfilled
            || tail[i] is Pending by {
            assert(tail[i] == waits[i + 1]);
        }
        assert(waits[0] is Fulfilled || waits[0] is Pending);
        assert(rounds[0] == waits[0]);
        assert(rounds.drop_first() =~= tail + seq![round] + later);
        law_first_settling_round_decides(before + 1, tail, round, later);
    }
}

} // verus!
