//! The delivery protocol of a streamed call: each partial result becomes one
//! message to the consumer, in production order, and the stream ends with one
//! reply to the caller, after which nothing more is sent.
use vstd::prelude::*;
use crate::codec::atom_term;
use crate::request::{FunctionOutcome, error_reply_term, error_text_reply, outcome_reply, parse_function_result};
use crate::value::{Dyn, HostTerm};

verus! {

#[derive(PartialEq, Eq, Structural, Clone, Copy, Debug)]
pub enum StreamPhase {
    Running,
    Done,
    Failed,
}

/// What the runtime reports during a stream.
pub enum StreamEvent {
    /// A partial result.
    Partial(FunctionOutcome),
    /// The stream ended without an execution error.
    Completed,
    /// The runtime failed; the detail is the runtime's.
    Failed(String),
}

/// What the caller of the protocol does next.
#[derive(Debug, PartialEq, Eq)]
pub enum StreamAction {
    /// Push this message to the consumer.
    Send(HostTerm),
    /// Return this term to the caller of the stream; the stream is over.
    Reply(HostTerm),
    /// Do nothing.
    Nothing,
}

/// Model of an action.
pub enum Act {
    Send(Dyn),
    Reply(Dyn),
    Nothing,
}

impl View for StreamAction {
    type V = Act;

    open spec fn view(&self) -> Act {
        match self {
            StreamAction::Send(t) => Act::Send(t@),
            StreamAction::Reply(t) => Act::Reply(t@),
            StreamAction::Nothing => Act::Nothing,
        }
    }
}

pub open spec fn done_term() -> Dyn {
    Dyn::Atom("done"@)
}

/// One transition of the protocol.
pub open spec fn step_spec(p: StreamPhase, e: StreamEvent) -> (StreamPhase, Act) {
    if p == StreamPhase::Running {
        match e {
            StreamEvent::Partial(o) => (StreamPhase::Running, Act::Send(outcome_reply(o))),
            StreamEvent::Completed => (StreamPhase::Done, Act::Reply(done_term())),
            StreamEvent::Failed(s) => (StreamPhase::Failed, Act::Reply(error_reply_term(s@))),
        }
    } else {
        (p, Act::Nothing)
    }
}

/// The phase reached and the actions taken over a run of events.
pub open spec fn run(p: StreamPhase, es: Seq<StreamEvent>) -> (StreamPhase, Seq<Act>)
    decreases es.len(),
{
    if es.len() == 0 {
        (p, Seq::empty())
    } else {
        let (q, acts) = run(p, es.drop_last());
        let (r, a) = step_spec(q, es.last());
        (r, acts.push(a))
    }
}

/// The state of one stream.
pub struct StreamSession {
    pub phase: StreamPhase,
}

impl StreamSession {
    pub fn new() -> (r: Self)
        ensures
            r.phase == StreamPhase::Running,
    {
        StreamSession { phase: StreamPhase::Running }
    }

    /// Takes one event and says what to do with it.
    pub fn step(&mut self, e: StreamEvent) -> (r: StreamAction)
        ensures
            (final(self).phase, r@) == step_spec(old(self).phase, e),
    {
        if self.phase != StreamPhase::Running {
            return StreamAction::Nothing;
        }
        match e {
            StreamEvent::Partial(o) => StreamAction::Send(parse_function_result(&o)),
            StreamEvent::Completed => {
                self.phase = StreamPhase::Done;
                StreamAction::Reply(atom_term("done"))
            },
            StreamEvent::Failed(s) => {
                self.phase = StreamPhase::Failed;
                StreamAction::Reply(error_text_reply(s))
            },
        }
    }
}

/// Partial results reach the consumer in the order they were produced, each
/// exactly once, and the stream stays running.
pub proof fn lemma_stream_order(ps: Seq<FunctionOutcome>)
    ensures
        run(StreamPhase::Running, ps.map_values(|o: FunctionOutcome| StreamEvent::Partial(o))) == (
            StreamPhase::Running,
            ps.map_values(|o: FunctionOutcome| Act::Send(outcome_reply(o))),
        ),
    decreases ps.len(),
{
    let es = ps.map_values(|o: FunctionOutcome| StreamEvent::Partial(o));
    let acts = ps.map_values(|o: FunctionOutcome| Act::Send(outcome_reply(o)));
    if ps.len() == 0 {
        assert(acts =~= Seq::<Act>::empty());
    } else {
        let pre = ps.drop_last();
        lemma_stream_order(pre);
        assert(es.drop_last() =~= pre.map_values(|o: FunctionOutcome| StreamEvent::Partial(o)));
        assert(acts =~= pre.map_values(|o: FunctionOutcome| Act::Send(outcome_reply(o))).push(
            Act::Send(outcome_reply(ps.last())),
        ));
    }
}

/// Once a stream has ended, no event leads to any action.
pub proof fn lemma_stream_ended(p: StreamPhase, es: Seq<StreamEvent>)
    requires
        p != StreamPhase::Running,
    ensures
        run(p, es).0 == p,
        forall|i: int| 0 <= i < es.len() ==> #[trigger] run(p, es).1[i] == Act::Nothing,
        run(p, es).1.len() == es.len(),
    decreases es.len(),
{
    if es.len() > 0 {
        lemma_stream_ended(p, es.drop_last());
    }
}

/// A run of partial results followed by a terminal event sends each partial
/// result in order and then replies once; events after the reply do nothing.
pub proof fn lemma_stream_run(ps: Seq<FunctionOutcome>, end: StreamEvent, rest: Seq<StreamEvent>)
    requires
        !(end is Partial),
    ensures
        ({
            let es = ps.map_values(|o: FunctionOutcome| StreamEvent::Partial(o)).push(end) + rest;
            let (q, acts) = run(StreamPhase::Running, es);
            &&& acts.len() == ps.len() + 1 + rest.len()
            &&& forall|i: int| 0 <= i < ps.len() ==> acts[i] == Act::Send(outcome_reply(ps[i]))
            &&& acts[ps.len() as int] == step_spec(StreamPhase::Running, end).1
            &&& forall|i: int| ps.len() < i < acts.len() ==> acts[i] == Act::Nothing
            &&& q == step_spec(StreamPhase::Running, end).0
        }),
    decreases rest.len(),
{
    let head = ps.map_values(|o: FunctionOutcome| StreamEvent::Partial(o)).push(end);
    let es = head + rest;
    if rest.len() == 0 {
        lemma_stream_order(ps);
        assert(es =~= head);
        assert(head.drop_last() =~= ps.map_values(|o: FunctionOutcome| StreamEvent::Partial(o)));
    } else {
        lemma_stream_run(ps, end, rest.drop_last());
        assert(es.drop_last() =~= head + rest.drop_last());
        let q = run(StreamPhase::Running, es.drop_last()).0;
        assert(q != StreamPhase::Running);
    }
}

} // verus!
