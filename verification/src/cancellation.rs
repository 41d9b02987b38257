//! Cancellation of a child process: graceful first, and forceful after a deadline.

use vstd::prelude::*;

use crate::error::OrchestratorError;
use crate::ids::SessionId;

verus! {

/// What a cancellation asks for next.
#[derive(Clone, Copy, Debug, PartialEq, Eq, Structural)]
pub enum CancelRequest {
    /// Ask the child of the session to stop.
    AskToStop { session: SessionId },
    /// Tell whether the child has ended, and if not, how long ago it was asked to stop.
    CheckEnd { session: SessionId },
    /// Kill the child.
    Kill { session: SessionId },
}

/// The answer to a request.
#[derive(Debug)]
pub enum CancelReply {
    Done,
    Ended,
    Running { elapsed_ms: u64 },
    Failed(OrchestratorError),
}

impl CancelRequest {
    /// `reply` is of the kind that answers this; a failure answers everything.
    pub open spec fn is_answered_by(self, reply: CancelReply) -> bool {
        reply is Failed || match self {
            CancelRequest::AskToStop { session } => reply is Done,
            CancelRequest::CheckEnd { session } => reply is Ended || reply is Running,
            CancelRequest::Kill { session } => reply is Done,
        }
    }
}

/// The cancellation of a session: its child is asked to stop, and has until the deadline to do
/// so; if it still runs then, it is killed.
#[derive(Debug)]
pub enum Cancellation {
    Asking { session: SessionId, grace_ms: u64 },
    Waiting { session: SessionId, grace_ms: u64 },
    Killing { session: SessionId },
    Finished(Result<(), OrchestratorError>),
}

impl Cancellation {
    /// What the cancellation asks for.
    pub open spec fn asks(self) -> Option<CancelRequest> {
        match self {
            Cancellation::Asking { session, grace_ms } => Some(
                CancelRequest::AskToStop { session },
            ),
            Cancellation::Waiting { session, grace_ms } => Some(
                CancelRequest::CheckEnd { session },
            ),
            Cancellation::Killing { session } => Some(CancelRequest::Kill { session }),
            Cancellation::Finished(_) => None,
        }
    }

    /// Where `reply` takes the cancellation. A child that could not be asked is waited for like
    /// one that was; it may have ended by itself.
    pub open spec fn after(self, reply: CancelReply) -> Cancellation {
        match (self, reply) {
            (Cancellation::Asking { session, grace_ms }, _) => Cancellation::Waiting {
                session,
                grace_ms,
            },
            (_, CancelReply::Failed(e)) => Cancellation::Finished(Err(e)),
            (
                Cancellation::Waiting { session, grace_ms },
                CancelReply::Running { elapsed_ms },
            ) => if elapsed_ms >= grace_ms {
                Cancellation::Killing { session }
            } else {
                Cancellation::Waiting { session, grace_ms }
            },
            (Cancellation::Waiting { session, grace_ms }, _) => Cancellation::Finished(Ok(())),
            (Cancellation::Killing { session }, _) => Cancellation::Finished(Ok(())),
            (Cancellation::Finished(result), _) => Cancellation::Finished(result),
        }
    }

    /// What the cancellation asks for; nothing, once it is finished.
    pub fn request(&self) -> (r: Option<CancelRequest>)
        ensures
            r == self.asks(),
    {
        match self {
            Cancellation::Asking { session, grace_ms: _ } => Some(
                CancelRequest::AskToStop { session: *session },
            ),
            Cancellation::Waiting { session, grace_ms: _ } => Some(
                CancelRequest::CheckEnd { session: *session },
            ),
            Cancellation::Killing { session } => Some(CancelRequest::Kill { session: *session }),
            Cancellation::Finished(_) => None,
        }
    }

    /// Moves the cancellation on by the answer to what it asked for.
    pub fn advance(self, reply: CancelReply) -> (r: Cancellation)
        requires
            self.asks() matches Some(ask) && ask.is_answered_by(reply),
        ensures
            r == self.after(reply),
    {
        match (self, reply) {
            (Cancellation::Asking { session, grace_ms }, _) => Cancellation::Waiting {
                session,
                grace_ms,
            },
            (_, CancelReply::Failed(e)) => Cancellation::Finished(Err(e)),
            (
                Cancellation::Waiting { session, grace_ms },
                CancelReply::Running { elapsed_ms },
            ) => if elapsed_ms >= grace_ms {
                Cancellation::Killing { session }
            } else {
                Cancellation::Waiting { session, grace_ms }
            },
            (Cancellation::Waiting { session: _, grace_ms: _ }, _) => Cancellation::Finished(
                Ok(()),
            ),
            (Cancellation::Killing { session: _ }, _) => Cancellation::Finished(Ok(())),
            (Cancellation::Finished(result), _) => Cancellation::Finished(result),
        }
    }
}

/// The states follow one another by replies that answer what each state asks for.
pub open spec fn is_cancellation(states: Seq<Cancellation>, replies: Seq<CancelReply>) -> bool {
    &&& states.len() == replies.len() + 1
    &&& forall|k: int|
        0 <= k < replies.len() ==> is_cancellation_step(
            states[k],
            #[trigger] replies[k],
            states[k + 1],
        )
}

/// `reply` answers what `state` asks for, and takes it to `next`.
pub open spec fn is_cancellation_step(
    state: Cancellation,
    reply: CancelReply,
    next: Cancellation,
) -> bool {
    &&& state.asks() is Some
    &&& state.asks()->0.is_answered_by(reply)
    &&& next == state.after(reply)
}

/// The child was found running at or after the deadline.
pub open spec fn is_overdue(reply: CancelReply, grace_ms: u64) -> bool {
    reply matches CancelReply::Running { elapsed_ms } && elapsed_ms >= grace_ms
}

proof fn lemma_cancellation(
    session: SessionId,
    grace_ms: u64,
    states: Seq<Cancellation>,
    replies: Seq<CancelReply>,
    k: int,
)
    requires
        is_cancellation(states, replies),
        states.first() == (Cancellation::Asking { session, grace_ms }),
        0 <= k < states.len(),
    ensures
        match states[k] {
            Cancellation::Asking { session: s, grace_ms: g } => k == 0,
            Cancellation::Waiting { session: s, grace_ms: g } => {
                &&& k > 0 && s == session && g == grace_ms
                &&& forall|j: int| 0 < j < k ==> !is_overdue(#[trigger] replies[j], grace_ms)
            },
            Cancellation::Killing { session: s } => {
                &&& k > 1 && s == session
                &&& is_overdue(replies[k - 1], grace_ms)
                &&& states[k - 1].asks() == Some(CancelRequest::CheckEnd { session })
            },
            Cancellation::Finished(_) => k > 1,
        },
    decreases k,
{
    if k > 0 {
        lemma_cancellation(session, grace_ms, states, replies, k - 1);
        assert(is_cancellation_step(states[k - 1], replies[k - 1], states[k]));
        if states[k] is Waiting {
            assert forall|j: int| 0 < j < k implies !is_overdue(
                #[trigger] replies[j],
                grace_ms,
            ) by {
                if j < k - 1 {
                    assert(states[k - 1] is Waiting);
                }
            }
        }
    }
}

/// Cancellation is graceful first and forceful only after the deadline: the first thing that is
/// asked for is that the child be asked to stop, and it is killed only right after it was found
/// running at or after the deadline.
pub proof fn force_comes_after_the_deadline(
    session: SessionId,
    grace_ms: u64,
    states: Seq<Cancellation>,
    replies: Seq<CancelReply>,
    k: int,
)
    requires
        is_cancellation(states, replies),
        states.first() == (Cancellation::Asking { session, grace_ms }),
        0 <= k < states.len(),
    ensures
        states.first().asks() == Some(CancelRequest::AskToStop { session }),
        states[k].asks() matches Some(CancelRequest::Kill { session: s }) ==> {
            &&& s == session
            &&& k > 1
            &&& states[k - 1].asks() == Some(CancelRequest::CheckEnd { session })
            &&& is_overdue(replies[k - 1], grace_ms)
            &&& replies[k - 1] is Running && replies[k - 1]->elapsed_ms >= grace_ms
        },
{
    lemma_cancellation(session, grace_ms, states, replies, k);
}

/// A child that is found to have ended is not killed, and one that is found running at or after
/// the deadline is: the cancellation is then finished, or asks for the kill.
pub proof fn the_end_or_the_deadline_decides(
    session: SessionId,
    grace_ms: u64,
    states: Seq<Cancellation>,
    replies: Seq<CancelReply>,
    k: int,
)
    requires
        is_cancellation(states, replies),
        states.first() == (Cancellation::Asking { session, grace_ms }),
        0 <= k < replies.len(),
        states[k].asks() == Some(CancelRequest::CheckEnd { session }),
    ensures
        replies[k] is Ended ==> states[k + 1] == Cancellation::Finished(Ok(())),
        is_overdue(replies[k], grace_ms) ==> states[k + 1].asks() == Some(
            CancelRequest::Kill { session },
        ),
        replies[k] is Running && !is_overdue(replies[k], grace_ms) ==> states[k + 1] == states[k],
{
    lemma_cancellation(session, grace_ms, states, replies, k);
    assert(is_cancellation_step(states[k], replies[k], states[k + 1]));
}

/// A cancellation asks for its own session, and goes on by the answers: a child that was asked, or
/// could not be, is waited for; one that has ended is done with; one that runs on is waited for
/// until the time that it was given is over, and is then killed. A failure to look or to kill ends
/// the cancellation with that failure.
pub proof fn a_cancellation_goes_on_by_the_answers(
    session: SessionId,
    grace_ms: u64,
    elapsed_ms: u64,
    reply: CancelReply,
    error: OrchestratorError,
)
    ensures
        ({
            let asking = Cancellation::Asking { session, grace_ms };
            let waiting = Cancellation::Waiting { session, grace_ms };
            let killing = Cancellation::Killing { session };
            let running = CancelReply::Running { elapsed_ms };
            &&& asking.asks() == Some(CancelRequest::AskToStop { session })
            &&& waiting.asks() == Some(CancelRequest::CheckEnd { session })
            &&& killing.asks() == Some(CancelRequest::Kill { session })
            &&& asking.after(reply) == waiting
            &&& waiting.after(CancelReply::Ended) == Cancellation::Finished(Ok(()))
            &&& elapsed_ms < grace_ms ==> waiting.after(running) == waiting
            &&& elapsed_ms >= grace_ms ==> waiting.after(running) == killing
            &&& waiting.after(CancelReply::Failed(error)) == Cancellation::Finished(Err(error))
            &&& killing.after(CancelReply::Done) == Cancellation::Finished(Ok(()))
            &&& killing.after(CancelReply::Failed(error)) == Cancellation::Finished(Err(error))
        }),
        (CancelRequest::AskToStop { session }).is_answered_by(reply) <==> reply is Done
            || reply is Failed,
        (CancelRequest::CheckEnd { session }).is_answered_by(reply) <==> reply is Ended
            || reply is Running || reply is Failed,
        (CancelRequest::Kill { session }).is_answered_by(reply) <==> reply is Done
            || reply is Failed,
        forall|result: Result<(), OrchestratorError>|
            (#[trigger] Cancellation::Finished(result).asks()) is None,
{
}

} // verus!
