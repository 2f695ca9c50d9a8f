//! Answering a bundle request: from the cache, from a fresh build, or from
//! the fallback space while a slow build goes on. The waiting, building and
//! fetching happen outside; this decides what to do with each result.
use vstd::prelude::*;
use vstd::utf8::encode_utf8;
use crate::http::text_bytes;

verus! {

/// Where the bytes of a reply came from (written to the request log).
#[derive(PartialEq, Eq, Structural, Debug, Clone, Copy)]
pub enum ServeSource {
    Cache,
    Fresh,
    FallbackAfterFailure,
    Fallback,
    FreshSlow,
    Error,
}

impl ServeSource {
    /// The label written to the request log.
    pub fn label(&self) -> (s: &'static str)
        ensures
            s@ == match *self {
                ServeSource::Cache => "cache"@,
                ServeSource::Fresh => "fresh"@,
                ServeSource::FallbackAfterFailure => "fallback(build-failed)"@,
                ServeSource::Fallback => "fallback"@,
                ServeSource::FreshSlow => "fresh-slow"@,
                ServeSource::Error => "error"@,
            },
    {
        match self {
            ServeSource::Cache => "cache",
            ServeSource::Fresh => "fresh",
            ServeSource::FallbackAfterFailure => "fallback(build-failed)",
            ServeSource::Fallback => "fallback",
            ServeSource::FreshSlow => "fresh-slow",
            ServeSource::Error => "error",
        }
    }
}

/// The answer to a bundle request.
pub struct Reply {
    pub code: u16,
    pub body: Vec<u8>,
    pub source: ServeSource,
}

/// How the first, bounded wait for the build ended.
pub enum BuildWait {
    Built(Vec<u8>),
    /// The build failed with this message.
    Failed(String),
    TimedOut,
    /// The build worker went away without an answer.
    WorkerGone,
}

/// How the unbounded wait for a slow build ended.
pub enum SlowWait {
    Built(Vec<u8>),
    Failed(String),
    /// The result channel closed without an answer.
    ChannelClosed,
}

/// What the request handler learned since the last step.
pub enum ServeEvent {
    /// The cached bundle, if the cache had it.
    Cache(Option<Vec<u8>>),
    Build(BuildWait),
    /// The bundle from the fallback space, if it had it.
    Fallback(Option<Vec<u8>>),
    SlowBuild(SlowWait),
}

/// What the request handler does next.
pub enum ServeStep {
    /// Start the build in the background and wait for it, bounded.
    StartBuild,
    /// Look the bundle up in the fallback space.
    FetchFallback,
    /// Wait for the build without bound.
    WaitLonger,
    /// Answer the request; nothing more to do.
    Respond(Reply),
}

/// Where a request stands.
pub enum ServeState {
    /// The cache has to be read.
    Start,
    /// The build runs; its bounded wait is next.
    AwaitBuild,
    /// The build failed with this message; the fallback is being fetched.
    FallbackAfterFailure(String),
    /// The build is slow; the fallback is being fetched.
    FallbackAfterTimeout,
    /// The fallback had nothing; the unbounded wait is next.
    AwaitSlowBuild,
    /// The request is answered.
    Answered,
}

/// The event each state waits for.
pub open spec fn accepts(state: ServeState, event: ServeEvent) -> bool {
    match state {
        ServeState::Start => event is Cache,
        ServeState::AwaitBuild => event is Build,
        ServeState::FallbackAfterFailure(_) => event is Fallback,
        ServeState::FallbackAfterTimeout => event is Fallback,
        ServeState::AwaitSlowBuild => event is SlowBuild,
        ServeState::Answered => false,
    }
}

/// How many more events a request in `state` can take at most.
pub open spec fn steps_left(state: ServeState) -> nat {
    match state {
        ServeState::Start => 4,
        ServeState::AwaitBuild => 3,
        ServeState::FallbackAfterFailure(_) => 1,
        ServeState::FallbackAfterTimeout => 2,
        ServeState::AwaitSlowBuild => 1,
        ServeState::Answered => 0,
    }
}

/// Body of a 500 answer for a failed build: `build failed: <message>`.
pub open spec fn failure_body(msg: Seq<char>) -> Seq<u8> {
    encode_utf8("build failed: "@ + msg)
}

/// `step` leads from `state` on `event` to `next`, doing `step`.
pub open spec fn serve_transition(
    state: ServeState,
    event: ServeEvent,
    next: ServeState,
    step: ServeStep,
) -> bool {
    let reply = |code: u16, body: Seq<u8>, source: ServeSource|
        next is Answered && (step matches ServeStep::Respond(r) && r.code == code && r.body@
            == body && r.source == source);
    match (state, event) {
        (ServeState::Start, ServeEvent::Cache(Some(b))) => reply(200, b@, ServeSource::Cache),
        (ServeState::Start, ServeEvent::Cache(None)) => next is AwaitBuild && step is StartBuild,
        (ServeState::AwaitBuild, ServeEvent::Build(BuildWait::Built(b))) => reply(
            200,
            b@,
            ServeSource::Fresh,
        ),
        (ServeState::AwaitBuild, ServeEvent::Build(BuildWait::Failed(msg))) => (next matches ServeState::FallbackAfterFailure(m) && m@ == msg@) && step is FetchFallback,
        (ServeState::AwaitBuild, ServeEvent::Build(BuildWait::TimedOut)) => next is FallbackAfterTimeout && step is FetchFallback,
        (ServeState::AwaitBuild, ServeEvent::Build(BuildWait::WorkerGone)) => reply(
            500,
            encode_utf8("build worker died"@),
            ServeSource::Error,
        ),
        (ServeState::FallbackAfterFailure(_), ServeEvent::Fallback(Some(b))) => reply(
            200,
            b@,
            ServeSource::FallbackAfterFailure,
        ),
        (ServeState::FallbackAfterFailure(msg), ServeEvent::Fallback(None)) => reply(
            500,
            failure_body(msg@),
            ServeSource::Error,
        ),
        (ServeState::FallbackAfterTimeout, ServeEvent::Fallback(Some(b))) => reply(
            200,
            b@,
            ServeSource::Fallback,
        ),
        (ServeState::FallbackAfterTimeout, ServeEvent::Fallback(None)) => next is AwaitSlowBuild && step is WaitLonger,
        (ServeState::AwaitSlowBuild, ServeEvent::SlowBuild(SlowWait::Built(b))) => reply(
            200,
            b@,
            ServeSource::FreshSlow,
        ),
        (ServeState::AwaitSlowBuild, ServeEvent::SlowBuild(SlowWait::Failed(msg))) => reply(
            500,
            failure_body(msg@),
            ServeSource::Error,
        ),
        (ServeState::AwaitSlowBuild, ServeEvent::SlowBuild(SlowWait::ChannelClosed)) => reply(
            500,
            encode_utf8("build channel closed"@),
            ServeSource::Error,
        ),
        _ => false,
    }
}

/// Every request is answered, and soon: each accepted event brings a request
/// closer to its answer (at most four events in all), a step answers exactly
/// when the request becomes answered, and an answered request takes no more
/// events.
pub proof fn lemma_request_answered(
    state: ServeState,
    event: ServeEvent,
    next: ServeState,
    step: ServeStep,
)
    requires
        accepts(state, event),
        serve_transition(state, event, next, step),
    ensures
        steps_left(next) < steps_left(state),
        steps_left(state) <= 4,
        (step is Respond) <==> (next is Answered),
        next is Answered ==> forall|e: ServeEvent| !accepts(next, e),
        !(next is Answered) ==> exists|e: ServeEvent| accepts(next, e),
{
    if !(next is Answered) {
        match next {
            ServeState::AwaitBuild => assert(accepts(next, ServeEvent::Build(BuildWait::TimedOut))),
            ServeState::FallbackAfterFailure(_) => assert(accepts(next, ServeEvent::Fallback(None))),
            ServeState::FallbackAfterTimeout => assert(accepts(next, ServeEvent::Fallback(None))),
            ServeState::AwaitSlowBuild => assert(accepts(
                next,
                ServeEvent::SlowBuild(SlowWait::ChannelClosed),
            )),
            ServeState::Start => assert(accepts(next, ServeEvent::Cache(None))),
            ServeState::Answered => {},
        }
    }
}

/// A failed build is never answered before the fallback space has been
/// looked up: whatever the failure message, the request goes on to fetch the
/// fallback and keeps the message for a later error answer.
pub proof fn lemma_failed_build_fetches_fallback(msg: String, next: ServeState, step: ServeStep)
    requires
        serve_transition(
            ServeState::AwaitBuild,
            ServeEvent::Build(BuildWait::Failed(msg)),
            next,
            step,
        ),
    ensures
        step is FetchFallback,
        !(step is Respond),
        next matches ServeState::FallbackAfterFailure(m) && m@ == msg@,
{
}

/// After a failed build, the fallback decides the answer: a bundle found
/// there is served 200 as it is (source `fallback(build-failed)`); only when
/// there is none is the failure answered 500 with `build failed: <message>`.
pub proof fn lemma_fallback_after_failure_answers(
    msg: String,
    found: Option<Vec<u8>>,
    next: ServeState,
    step: ServeStep,
)
    requires
        serve_transition(ServeState::FallbackAfterFailure(msg), ServeEvent::Fallback(found), next, step),
    ensures
        next is Answered,
        found matches Some(b) ==> (step matches ServeStep::Respond(r) && r.code == 200 && r.body@
            == b@ && r.source == ServeSource::FallbackAfterFailure),
        found is None ==> (step matches ServeStep::Respond(r) && r.code == 500 && r.body@
            == encode_utf8("build failed: "@ + msg@) && r.source == ServeSource::Error),
{
}

fn failure_reply(msg: &str) -> (r: Reply)
    ensures
        r.code == 500,
        r.body@ == failure_body(msg@),
        r.source == ServeSource::Error,
{
    let mut text = String::from_str("build failed: ");
    text.append(msg);
    Reply { code: 500, body: text_bytes(text.as_str()), source: ServeSource::Error }
}

/// Decides what follows `event` for a request in `state`.
pub fn serve_step(state: ServeState, event: ServeEvent) -> (r: (ServeState, ServeStep))
    requires
        accepts(state, event),
    ensures
        serve_transition(state, event, r.0, r.1),
        steps_left(r.0) < steps_left(state),
{
    match (state, event) {
        (ServeState::Start, ServeEvent::Cache(Some(b))) => (
            ServeState::Answered,
            ServeStep::Respond(Reply { code: 200, body: b, source: ServeSource::Cache }),
        ),
        (ServeState::Start, ServeEvent::Cache(None)) => (ServeState::AwaitBuild, ServeStep::StartBuild),
        (ServeState::AwaitBuild, ServeEvent::Build(BuildWait::Built(b))) => (
            ServeState::Answered,
            ServeStep::Respond(Reply { code: 200, body: b, source: ServeSource::Fresh }),
        ),
        (ServeState::AwaitBuild, ServeEvent::Build(BuildWait::Failed(msg))) => (
            ServeState::FallbackAfterFailure(msg),
            ServeStep::FetchFallback,
        ),
        (ServeState::AwaitBuild, ServeEvent::Build(BuildWait::TimedOut)) => (
            ServeState::FallbackAfterTimeout,
            ServeStep::FetchFallback,
        ),
        (ServeState::AwaitBuild, ServeEvent::Build(BuildWait::WorkerGone)) => (
            ServeState::Answered,
            ServeStep::Respond(
                Reply {
                    code: 500,
                    body: text_bytes("build worker died"),
                    source: ServeSource::Error,
                },
            ),
        ),
        (ServeState::FallbackAfterFailure(_), ServeEvent::Fallback(Some(b))) => (
            ServeState::Answered,
            ServeStep::Respond(
                Reply { code: 200, body: b, source: ServeSource::FallbackAfterFailure },
            ),
        ),
        (ServeState::FallbackAfterFailure(msg), ServeEvent::Fallback(None)) => (
            ServeState::Answered,
            ServeStep::Respond(failure_reply(msg.as_str())),
        ),
        (ServeState::FallbackAfterTimeout, ServeEvent::Fallback(Some(b))) => (
            ServeState::Answered,
            ServeStep::Respond(Reply { code: 200, body: b, source: ServeSource::Fallback }),
        ),
        (ServeState::FallbackAfterTimeout, ServeEvent::Fallback(None)) => (
            ServeState::AwaitSlowBuild,
            ServeStep::WaitLonger,
        ),
        (ServeState::AwaitSlowBuild, ServeEvent::SlowBuild(SlowWait::Built(b))) => (
            ServeState::Answered,
            ServeStep::Respond(Reply { code: 200, body: b, source: ServeSource::FreshSlow }),
        ),
        (ServeState::AwaitSlowBuild, ServeEvent::SlowBuild(SlowWait::Failed(msg))) => (
            ServeState::Answered,
            ServeStep::Respond(failure_reply(msg.as_str())),
        ),
        (ServeState::AwaitSlowBuild, ServeEvent::SlowBuild(SlowWait::ChannelClosed)) => (
            ServeState::Answered,
            ServeStep::Respond(
                Reply {
                    code: 500,
                    body: text_bytes("build channel closed"),
                    source: ServeSource::Error,
                },
            ),
        ),
        (ServeState::Answered, _) => {
            assert(false);
            (ServeState::Answered, ServeStep::StartBuild)
        },
        (_, _) => {
            assert(false);
            (ServeState::Answered, ServeStep::StartBuild)
        },
    }
}

} // verus!
