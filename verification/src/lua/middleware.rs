//! The run of a request through middlewares.

use crate::string_map::StringMap;
use crate::text::{ascii_lowered, lowercase, lowercase_of, same_text};
use base64::engine::general_purpose::URL_SAFE_NO_PAD;
use base64::Engine;
use vstd::prelude::*;
use vstd::string::*;
use vstd::utf8::*;

verus! {

// ---------------------------------------------------------------------------
// The payload of the reserved header
// ---------------------------------------------------------------------------

/// The character that stands for six bits in the URL-safe alphabet of base64.
pub open spec fn sextet_char(n: int) -> char {
    if n < 26 {
        (65 + n) as u8 as char
    } else if n < 52 {
        (97 + n - 26) as u8 as char
    } else if n < 62 {
        (48 + n - 52) as u8 as char
    } else if n == 62 {
        '-'
    } else {
        '_'
    }
}

/// The base64 notation of bytes in the URL-safe alphabet, without padding: three
/// bytes make four characters.
pub open spec fn base64url(bytes: Seq<u8>) -> Seq<char>
    decreases bytes.len(),
{
    if bytes.len() == 0 {
        Seq::empty()
    } else {
        let a = bytes[0] as int;
        let b = if bytes.len() > 1 {
            bytes[1] as int
        } else {
            0
        };
        let c = if bytes.len() > 2 {
            bytes[2] as int
        } else {
            0
        };
        let first = seq![sextet_char(a / 4), sextet_char((a % 4) * 16 + b / 16)];
        if bytes.len() == 1 {
            first
        } else if bytes.len() == 2 {
            first.push(sextet_char((b % 16) * 4))
        } else {
            first.push(sextet_char((b % 16) * 4 + c / 64)).push(sextet_char(c % 64)) + base64url(
                bytes.skip(3),
            )
        }
    }
}

/// `Engine::encode` of `base64::engine::general_purpose::URL_SAFE_NO_PAD`: the
/// base64 notation of the bytes in the URL-safe alphabet, without padding.
#[verifier::external_body]
fn encode_base64url(bytes: &Vec<u8>) -> (text: String)
    ensures
        text@ == base64url(bytes@),
{
    URL_SAFE_NO_PAD.encode(bytes)
}

// ---------------------------------------------------------------------------
// One middleware
// ---------------------------------------------------------------------------

/// HTTP response produced by a Lua middleware that short-circuits the pipeline.
pub struct MiddlewareResponse {
    pub status: u16,
    pub body: String,
    pub headers: StringMap<String>,
}

/// What a response of middleware holds.
pub struct ResponseModel {
    pub status: u16,
    pub body: Seq<char>,
    pub headers: Map<Seq<char>, Seq<char>>,
}

impl View for MiddlewareResponse {
    type V = ResponseModel;

    open spec fn view(&self) -> ResponseModel {
        ResponseModel { status: self.status, body: self.body@, headers: self.headers@ }
    }
}

/// What a middleware has done so far.
pub struct MiddlewareExecutionState {
    next_called: bool,
    status: u16,
    headers: StringMap<String>,
    forward_headers: StringMap<String>,
    body: String,
    ended: bool,
}

/// What the state of a middleware holds.
pub struct StateModel {
    pub next_called: bool,
    pub status: u16,
    pub headers: Map<Seq<char>, Seq<char>>,
    pub forward_headers: Map<Seq<char>, Seq<char>>,
    pub body: Seq<char>,
    pub ended: bool,
}

impl View for MiddlewareExecutionState {
    type V = StateModel;

    closed spec fn view(&self) -> StateModel {
        StateModel {
            next_called: self.next_called,
            status: self.status,
            headers: self.headers@,
            forward_headers: self.forward_headers@,
            body: self.body@,
            ended: self.ended,
        }
    }
}

/// The state in which a middleware begins.
pub open spec fn fresh_state() -> StateModel {
    StateModel {
        next_called: false,
        status: 200,
        headers: Map::empty(),
        forward_headers: Map::empty(),
        body: Seq::empty(),
        ended: false,
    }
}

/// Whether a header name is the reserved one, given what it is in small letters.
pub open spec fn is_reserved_header(lowered: Seq<char>) -> bool {
    lowered == "x-basilisk-auth"@
}

/// The response that a state stands for: one where the middleware has ended the request.
pub open spec fn response_of(state: StateModel) -> Option<ResponseModel> {
    if state.ended {
        Some(ResponseModel { status: state.status, body: state.body, headers: state.headers })
    } else {
        None
    }
}

impl MiddlewareExecutionState {
    /// The state in which a middleware begins.
    pub fn new() -> (state: Self)
        ensures
            state@ == fresh_state(),
    {
        let state = MiddlewareExecutionState {
            next_called: false,
            status: 200,
            headers: StringMap::new(),
            forward_headers: StringMap::new(),
            body: String::new(),
            ended: false,
        };
        state
    }

    /// `next()`: control passes on.
    pub fn mark_next_called(&mut self)
        ensures
            final(self)@ == (StateModel { next_called: true, ..old(self)@ }),
    {
        self.next_called = true;
    }

    /// `res:status(code)`: sets the status of the response.
    pub fn set_status(&mut self, code: u16)
        ensures
            final(self)@ == (StateModel { status: code, ..old(self)@ }),
    {
        self.status = code;
    }

    /// `res:set(name, value)`: sets a header of the response.
    pub fn set_header(&mut self, name: String, value: String)
        ensures
            final(self)@ == (StateModel {
                headers: old(self)@.headers.insert(name@, value@),
                ..old(self)@
            }),
    {
        self.headers.insert(name, value);
    }

    /// `res:send(body)`: ends the request with a body, an empty one where none is given.
    pub fn send(&mut self, body: Option<String>)
        ensures
            final(self)@ == (StateModel {
                body: match body {
                    Some(b) => b@,
                    None => Seq::empty(),
                },
                ended: true,
                ..old(self)@
            }),
    {
        self.body = match body {
            Some(b) => b,
            None => String::new(),
        };
        self.ended = true;
    }

    /// `res:json(text)`: ends the request with a JSON body.
    pub fn json(&mut self, body: String)
        ensures
            final(self)@ == (StateModel {
                headers: old(self)@.headers.insert("content-type"@, "application/json"@),
                body: body@,
                ended: true,
                ..old(self)@
            }),
    {
        self.headers.insert("content-type".to_owned(), "application/json".to_owned());
        self.body = body;
        self.ended = true;
    }

    /// `res:end()`: ends the request with what has been set so far.
    pub fn end(&mut self)
        ensures
            final(self)@ == (StateModel { ended: true, ..old(self)@ }),
    {
        self.ended = true;
    }

    /// Adds a header to forward, given its name in small letters. The reserved
    /// header is refused.
    pub fn forward_header_lowered(&mut self, name: String, value: String, lowered: &str) -> (set: Result<
        (),
        String,
    >)
        ensures
            match set {
                Ok(_) => !is_reserved_header(lowered@) && final(self)@ == (StateModel {
                    forward_headers: old(self)@.forward_headers.insert(name@, value@),
                    ..old(self)@
                }),
                Err(message) => is_reserved_header(lowered@) && final(self)@ == old(self)@ && message@
                    == "Header 'X-Basilisk-Auth' is reserved and cannot be set by middleware"@,
            },
    {
        if same_text(lowered, "x-basilisk-auth") {
            return Err(
                "Header 'X-Basilisk-Auth' is reserved and cannot be set by middleware".to_owned(),
            );
        }
        self.forward_headers.insert(name, value);
        Ok(())
    }

    /// `res:forward_headers(name, value)`: adds a header to forward to the
    /// downstream service. The reserved header is refused, in any case.
    pub fn forward_header(&mut self, name: String, value: String) -> (set: Result<(), String>)
        ensures
            match set {
                Ok(_) => !is_reserved_header(lowercase_of(name@)) && final(self)@ == (StateModel {
                    forward_headers: old(self)@.forward_headers.insert(name@, value@),
                    ..old(self)@
                }),
                Err(message) => is_reserved_header(lowercase_of(name@)) && final(self)@ == old(
                    self)@ && message@
                    == "Header 'X-Basilisk-Auth' is reserved and cannot be set by middleware"@,
            },
            is_reserved_header(ascii_lowered(name@)) ==> set is Err,
    {
        let lowered = lowercase(name.as_str());
        proof {
            if is_reserved_header(ascii_lowered(name@)) {
                reveal_strlit("x-basilisk-auth");
                assert(is_ascii_chars("x-basilisk-auth"@));
                assert forall|i: int| 0 <= i < name@.len() implies 0 <= (#[trigger] name@[i]) as int
                    <= 127 by {
                    assert(ascii_lowered(name@)[i] == "x-basilisk-auth"@[i]);
                }
                assert(is_ascii_chars(name@));
            }
        }
        self.forward_header_lowered(name, value, lowered.as_str())
    }

    /// `req:auth(payload)`: puts the payload, in its JSON notation, into the reserved
    /// header.
    pub fn set_auth(&mut self, payload_json: &str)
        ensures
            final(self)@ == (StateModel {
                forward_headers: old(self)@.forward_headers.insert(
                    "X-Basilisk-Auth"@,
                    base64url(encode_utf8(payload_json@)),
                ),
                ..old(self)@
            }),
    {
        let encoded = encode_base64url(&payload_json.as_bytes_vec());
        self.forward_headers.insert("X-Basilisk-Auth".to_owned(), encoded);
    }

    /// What a middleware has come to: a response where it has ended the request, and
    /// the headers to forward.
    pub fn into_outcome(self) -> (outcome: (Option<MiddlewareResponse>, StringMap<String>))
        ensures
            match outcome.0 {
                Some(r) => response_of(self@) == Some(r@),
                None => response_of(self@) is None,
            },
            outcome.1@ == self@.forward_headers,
    {
        let response = if self.ended {
            Some(MiddlewareResponse { status: self.status, body: self.body, headers: self.headers })
        } else {
            None
        };
        (response, self.forward_headers)
    }
}

/// No middleware can set the reserved header by itself: whatever name is accepted,
/// `lowered` being that name in small letters, the value of the reserved header
/// stays what it was.
pub proof fn reserved_header_is_safe(
    state: StateModel,
    name: Seq<char>,
    value: Seq<char>,
    lowered: Seq<char>,
)
    requires
        !is_reserved_header(lowered),
        is_ascii_chars(name) ==> lowered == ascii_lowered(name),
    ensures
        ({
            let after = state.forward_headers.insert(name, value);
            &&& after.contains_key("X-Basilisk-Auth"@) == state.forward_headers.contains_key(
                "X-Basilisk-Auth"@,
            )
            &&& after.contains_key("X-Basilisk-Auth"@) ==> after["X-Basilisk-Auth"@]
                == state.forward_headers["X-Basilisk-Auth"@]
        }),
{
    if name == "X-Basilisk-Auth"@ {
        reveal_strlit("X-Basilisk-Auth");
        reveal_strlit("x-basilisk-auth");
        assert(ascii_lowered(name) =~= "x-basilisk-auth"@);
    }
}

// ---------------------------------------------------------------------------
// A chain of middlewares
// ---------------------------------------------------------------------------

/// Result of middleware execution containing optional short-circuit response and
/// forward headers.
pub struct MiddlewareExecutionResult {
    pub short_circuit_response: Option<MiddlewareResponse>,
    pub forward_headers: StringMap<String>,
}

/// What a middleware of a chain did with a request: it did not apply to it, or it
/// ran and came to an outcome.
pub enum StepModel {
    Skipped,
    Ran(Option<ResponseModel>, Map<Seq<char>, Seq<char>>),
}

/// What a chain holds: the headers to forward, and the response where one ended
/// the request.
pub struct ChainModel {
    pub forward_headers: Map<Seq<char>, Seq<char>>,
    pub response: Option<ResponseModel>,
}

/// A chain after one more step. Headers accumulate, later ones in place of earlier ones.
pub open spec fn after_step(chain: ChainModel, step: StepModel) -> ChainModel {
    match step {
        StepModel::Skipped => chain,
        StepModel::Ran(response, headers) => ChainModel {
            forward_headers: chain.forward_headers.union_prefer_right(headers),
            response,
        },
    }
}

/// A chain before its first step.
pub open spec fn fresh_chain() -> ChainModel {
    ChainModel { forward_headers: Map::empty(), response: None }
}

/// A chain that has run through steps, in order, up to the first response.
pub open spec fn run_chain(steps: Seq<StepModel>) -> ChainModel
    decreases steps.len(),
{
    if steps.len() == 0 {
        fresh_chain()
    } else {
        let before = run_chain(steps.drop_last());
        if before.response is Some {
            before
        } else {
            after_step(before, steps.last())
        }
    }
}

/// The run of a request through the middlewares before it is proxied, in the order
/// in which they were registered.
pub struct MiddlewareRun {
    next: usize,
    total: usize,
    forward_headers: StringMap<String>,
    response: Option<MiddlewareResponse>,
    steps: Ghost<Seq<StepModel>>,
}

impl MiddlewareRun {
    /// The steps that have been taken.
    pub closed spec fn steps(&self) -> Seq<StepModel> {
        self.steps@
    }

    /// The number of middlewares of the chain.
    pub closed spec fn total(&self) -> nat {
        self.total as nat
    }

    /// What the chain has come to so far.
    pub closed spec fn chain(&self) -> ChainModel {
        ChainModel {
            forward_headers: self.forward_headers@,
            response: match self.response {
                Some(r) => Some(r@),
                None => None,
            },
        }
    }

    /// Each step belongs to a middleware of the chain, and what the run holds is
    /// what running the chain through the steps comes to.
    pub closed spec fn wf(&self) -> bool {
        &&& self.next == self.steps@.len()
        &&& self.next <= self.total
        &&& self.chain() == run_chain(self.steps@)
    }

    /// What a well-formed run says of its steps.
    pub proof fn wf_runs_chain(&self)
        requires
            self.wf(),
        ensures
            self.chain() == run_chain(self.steps()),
            self.steps().len() <= self.total(),
            self.total() <= usize::MAX,
    {
    }

    /// The run of a request through a number of middlewares.
    pub fn new(total: usize) -> (run: Self)
        ensures
            run.wf(),
            run.total() == total,
            run.steps().len() == 0,
            run.chain() == fresh_chain(),
    {
        MiddlewareRun {
            next: 0,
            total,
            forward_headers: StringMap::new(),
            response: None,
            steps: Ghost(Seq::empty()),
        }
    }

    /// The middleware whose turn it is: the one after those that have had theirs,
    /// unless one has ended the request or none is left.
    pub fn next_middleware(&self) -> (next: Option<usize>)
        requires
            self.wf(),
        ensures
            next is Some == (self.chain().response is None && self.steps().len() < self.total()),
            next matches Some(k) ==> k == self.steps().len(),
    {
        if self.response.is_none() && self.next < self.total {
            Some(self.next)
        } else {
            None
        }
    }

    /// The middleware whose turn it is does not apply to the request.
    pub fn skip(&mut self)
        requires
            old(self).wf(),
            old(self).chain().response is None,
            old(self).steps().len() < old(self).total(),
        ensures
            final(self).wf(),
            final(self).total() == old(self).total(),
            final(self).steps() == old(self).steps().push(StepModel::Skipped),
            final(self).chain() == old(self).chain(),
    {
        proof {
            assert(self.steps@.push(StepModel::Skipped).drop_last() =~= self.steps@);
        }
        self.next = self.next + 1;
        self.steps = Ghost(self.steps@.push(StepModel::Skipped));
    }

    /// The middleware whose turn it is has run and come to an outcome.
    pub fn record(&mut self, response: Option<MiddlewareResponse>, headers: StringMap<String>)
        requires
            old(self).wf(),
            old(self).chain().response is None,
            old(self).steps().len() < old(self).total(),
        ensures
            final(self).wf(),
            final(self).total() == old(self).total(),
            ({
                let step = StepModel::Ran(optional_response(response), headers@);
                &&& final(self).steps() == old(self).steps().push(step)
                &&& final(self).chain() == after_step(old(self).chain(), step)
            }),
    {
        let ghost before = self.chain();
        let ghost step = StepModel::Ran(optional_response(response), headers@);
        let ghost taken = self.steps@;
        extend(&mut self.forward_headers, &headers);
        self.response = response;
        self.next = self.next + 1;
        self.steps = Ghost(taken.push(step));
        proof {
            assert(taken.push(step).drop_last() =~= taken);
            assert(self.chain().forward_headers =~= after_step(before, step).forward_headers);
        }
    }

    /// What the run has come to.
    pub fn finish(self) -> (result: MiddlewareExecutionResult)
        requires
            self.wf(),
        ensures
            result.forward_headers@ == run_chain(self.steps()).forward_headers,
            optional_response(result.short_circuit_response) == run_chain(self.steps()).response,
    {
        MiddlewareExecutionResult {
            short_circuit_response: self.response,
            forward_headers: self.forward_headers,
        }
    }
}

/// The view of an optional response.
pub open spec fn optional_response(response: Option<MiddlewareResponse>) -> Option<ResponseModel> {
    match response {
        Some(r) => Some(r@),
        None => None,
    }
}

/// Puts the entries of one map into another.
pub fn extend(target: &mut StringMap<String>, more: &StringMap<String>)
    ensures
        final(target)@ == old(target)@.union_prefer_right(more@),
{
    let ghost start = target@;
    let n = more.len();
    let ghost order = more.order();
    let mut i: usize = 0;
    while i < n
        invariant
            order == more.order(),
            order.to_set() == more@.dom(),
            i <= n == order.len(),
            forall|j: int| 0 <= j < n ==> more@.contains_key(#[trigger] order[j]),
            forall|k: Seq<char>| #[trigger]
                target@.contains_key(k) <==> start.contains_key(k) || order.take(i as int).contains(k),
            forall|k: Seq<char>| #[trigger]
                target@.contains_key(k) ==> target@[k] == (if order.take(i as int).contains(k) {
                    more@[k]
                } else {
                    start[k]
                }),
        decreases n - i,
    {
        target.insert(more.key_at(i).clone(), more.value_at(i).clone());
        i += 1;
        proof {
            let done = order.take(i as int);
            assert(done =~= order.take(i - 1).push(order[i - 1]));
            assert forall|k: Seq<char>| #[trigger] done.contains(k) == (order.take(i - 1).contains(k)
                || k == order[i - 1]) by {
                if order.take(i - 1).contains(k) {
                    let j = order.take(i - 1).index_of(k);
                    assert(done[j] == k);
                }
                assert(done[i - 1] == order[i - 1]);
            }
        }
    }
    proof {
        assert(order.take(n as int) =~= order);
        assert forall|k: Seq<char>| more@.contains_key(k) == order.contains(k) by {
            assert(order.to_set().contains(k) == order.contains(k));
        }
        assert(target@ =~= start.union_prefer_right(more@));
    }
}

/// Once a middleware has ended a request, what would follow does not matter: the
/// chain has come to the same.
pub proof fn response_ends_chain(steps: Seq<StepModel>, more: Seq<StepModel>)
    requires
        run_chain(steps).response is Some,
    ensures
        run_chain(steps + more) == run_chain(steps),
    decreases more.len(),
{
    if more.len() == 0 {
        assert(steps + more =~= steps);
    } else {
        response_ends_chain(steps, more.drop_last());
        assert((steps + more).drop_last() =~= steps + more.drop_last());
    }
}

/// A chain without middlewares lets every request proceed.
pub proof fn empty_chain_never_short_circuits()
    ensures
        run_chain(Seq::empty()).response is None,
{
}

/// Headers that a middleware forwards are forwarded whether or not it, or one
/// after it that forwards no header of that name, ends the request.
pub proof fn forward_headers_accumulate(
    steps: Seq<StepModel>,
    response: Option<ResponseModel>,
    headers: Map<Seq<char>, Seq<char>>,
    name: Seq<char>,
)
    requires
        run_chain(steps).response is None,
    ensures
        ({
            let after = run_chain(steps.push(StepModel::Ran(response, headers)));
            &&& headers.contains_key(name) ==> after.forward_headers.contains_key(name)
                && after.forward_headers[name] == headers[name]
            &&& run_chain(steps).forward_headers.contains_key(name) && !headers.contains_key(name)
                ==> after.forward_headers.contains_key(name) && after.forward_headers[name]
                == run_chain(steps).forward_headers[name]
        }),
{
    let step = StepModel::Ran(response, headers);
    assert(steps.push(step).drop_last() =~= steps);
}

/// The response after the middlewares that run once a request has been proxied:
/// all of them run, and the last response counts.
pub fn latest_response(current: Option<MiddlewareResponse>, next: Option<MiddlewareResponse>) -> (latest: Option<
    MiddlewareResponse,
>)
    ensures
        latest == (if next is Some {
            next
        } else {
            current
        }),
{
    if next.is_some() {
        next
    } else {
        current
    }
}

// ---------------------------------------------------------------------------
// The registration allowlist
// ---------------------------------------------------------------------------

/// What a rule of the allowlist said.
#[derive(Clone, Copy, Debug, PartialEq, Eq, Structural)]
pub enum RuleOutcome {
    Holds,
    DoesNotHold,
    Failed,
}

/// What the allowlist says, given the outcomes of its rules so far.
#[derive(Clone, Copy, Debug, PartialEq, Eq, Structural)]
pub enum AllowlistStep {
    Allowed,
    Refused,
    Failed,
    /// The rule at this place has to be asked.
    Ask(usize),
}

/// The first outcome that is not `DoesNotHold`, or the number of outcomes.
pub open spec fn first_decisive(outcomes: Seq<RuleOutcome>, from: int) -> int
    decreases outcomes.len() - from,
{
    if from >= outcomes.len() {
        outcomes.len() as int
    } else if outcomes[from] != RuleOutcome::DoesNotHold {
        from
    } else {
        first_decisive(outcomes, from + 1)
    }
}

/// What an allowlist of some rules says, given the outcomes of those that were asked so
/// far, in order: one that holds allows, one that fails ends the matter, and where none
/// holds the source is refused. Without rules every source is allowed.
pub open spec fn allowlist_step(rules: usize, outcomes: Seq<RuleOutcome>) -> AllowlistStep {
    let at = first_decisive(outcomes, 0);
    if rules == 0 {
        AllowlistStep::Allowed
    } else if at < outcomes.len() {
        if outcomes[at] == RuleOutcome::Holds {
            AllowlistStep::Allowed
        } else {
            AllowlistStep::Failed
        }
    } else if outcomes.len() < rules {
        AllowlistStep::Ask(outcomes.len() as usize)
    } else {
        AllowlistStep::Refused
    }
}

/// The decisive outcome is the first that is not `DoesNotHold`.
pub proof fn decisive_outcome_is_first(outcomes: Seq<RuleOutcome>, from: int)
    requires
        0 <= from <= outcomes.len(),
    ensures
        from <= first_decisive(outcomes, from) <= outcomes.len(),
        first_decisive(outcomes, from) < outcomes.len() ==> outcomes[first_decisive(outcomes, from)]
            != RuleOutcome::DoesNotHold,
        forall|i: int|
            from <= i < first_decisive(outcomes, from) ==> #[trigger] outcomes[i]
                == RuleOutcome::DoesNotHold,
    decreases outcomes.len() - from,
{
    if from < outcomes.len() && outcomes[from] == RuleOutcome::DoesNotHold {
        decisive_outcome_is_first(outcomes, from + 1);
    }
}

/// Where no rules are configured, every source may register. Where some are, a source
/// may exactly when a rule holds for it after others that do not; it is refused when all
/// were asked and none holds, and a rule that fails allows nobody.
pub proof fn one_rule_must_hold(rules: usize, outcomes: Seq<RuleOutcome>, at: int)
    requires
        outcomes.len() <= rules,
    ensures
        rules == 0 ==> allowlist_step(rules, outcomes) == AllowlistStep::Allowed,
        0 <= at < outcomes.len() && outcomes[at] == RuleOutcome::Holds && (forall|i: int|
            0 <= i < at ==> #[trigger] outcomes[i] == RuleOutcome::DoesNotHold) ==> allowlist_step(
            rules,
            outcomes,
        ) == AllowlistStep::Allowed,
        0 <= at < outcomes.len() && outcomes[at] == RuleOutcome::Failed && (forall|i: int|
            0 <= i < at ==> #[trigger] outcomes[i] == RuleOutcome::DoesNotHold) ==> allowlist_step(
            rules,
            outcomes,
        ) == AllowlistStep::Failed,
        rules > 0 && (forall|i: int|
            0 <= i < outcomes.len() ==> #[trigger] outcomes[i] == RuleOutcome::DoesNotHold)
            ==> allowlist_step(rules, outcomes) == (if outcomes.len() == rules {
            AllowlistStep::Refused
        } else {
            AllowlistStep::Ask(outcomes.len() as usize)
        }),
{
    decisive_outcome_is_first(outcomes, 0);
    let first = first_decisive(outcomes, 0);
    if 0 <= at < outcomes.len() && first < at {
        assert(outcomes[first] != RuleOutcome::DoesNotHold);
    }
    if first < outcomes.len() {
        assert(outcomes[first] != RuleOutcome::DoesNotHold);
    }
}

/// Evaluates registration source-IP allowlist rules.
///
/// If no rules are configured, registration is allowed. If rules are configured,
/// at least one rule must hold; they are asked in order, and one that fails ends
/// the matter.
pub fn evaluate_allowlist(rules: usize, outcomes: &Vec<RuleOutcome>) -> (step: AllowlistStep)
    requires
        outcomes@.len() <= rules,
    ensures
        step == allowlist_step(rules, outcomes@),
        ({
            let at = first_decisive(outcomes@, 0);
            step == (if rules == 0 {
                AllowlistStep::Allowed
            } else if at < outcomes@.len() {
                if outcomes@[at] == RuleOutcome::Holds {
                    AllowlistStep::Allowed
                } else {
                    AllowlistStep::Failed
                }
            } else if outcomes@.len() < rules {
                AllowlistStep::Ask(outcomes@.len() as usize)
            } else {
                AllowlistStep::Refused
            })
        }),
{
    if rules == 0 {
        return AllowlistStep::Allowed;
    }
    let mut i: usize = 0;
    while i < outcomes.len()
        invariant
            rules > 0,
            i <= outcomes@.len(),
            first_decisive(outcomes@, 0) == first_decisive(outcomes@, i as int),
        decreases outcomes@.len() - i,
    {
        match outcomes[i] {
            RuleOutcome::Holds => {
                return AllowlistStep::Allowed;
            },
            RuleOutcome::Failed => {
                return AllowlistStep::Failed;
            },
            RuleOutcome::DoesNotHold => {},
        }
        i += 1;
    }
    if outcomes.len() < rules {
        AllowlistStep::Ask(outcomes.len())
    } else {
        AllowlistStep::Refused
    }
}

} // verus!
