//! A future seen as a stream: it forwards the one outcome of the future
//! (a value or an error) and then ends.
use vstd::prelude::*;

verus! {

/// What polling a future gave.
pub enum FuturePoll<T, E> {
    NotReady,
    Ready(T),
    Failed(E),
}

/// What polling the stream gives.
pub enum StreamPoll<T, E> {
    NotReady,
    /// The next item, or `None` at the end of the stream.
    Ready(Option<T>),
    Failed(E),
}

/// The stream over one future; `future` is `None` once it has answered.
pub struct IntoStream<F> {
    pub future: Option<F>,
}

/// A stream over `future`.
pub fn new<F>(future: F) -> (r: IntoStream<F>)
    ensures
        r.future == Some(future),
{
    IntoStream { future: Some(future) }
}

/// The stream's answer to the future's outcome `outcome`.
pub open spec fn stream_answer<T, E>(outcome: FuturePoll<Option<T>, E>) -> StreamPoll<T, E> {
    match outcome {
        FuturePoll::NotReady => StreamPoll::NotReady,
        FuturePoll::Ready(r) => StreamPoll::Ready(r),
        FuturePoll::Failed(e) => StreamPoll::Failed(e),
    }
}

/// The future the stream keeps after the outcome `outcome`.
pub open spec fn after_record<F, T, E>(future: Option<F>, outcome: FuturePoll<Option<T>, E>) -> Option<F> {
    if outcome is NotReady {
        future
    } else {
        None
    }
}

impl<F> IntoStream<F> {
    /// Polling after the future has answered: the stream has ended.
    pub fn poll_finished<T, E>(&self) -> (r: StreamPoll<T, E>)
        requires
            self.future is None,
        ensures
            r == StreamPoll::<T, E>::Ready(None),
    {
        StreamPoll::Ready(None)
    }

    /// One poll of the stream, where `outcome` is what the future gave
    /// (ignored once the future has answered): a step of [`stream_run`].
    pub fn poll_with<T, E>(&mut self, outcome: FuturePoll<Option<T>, E>) -> (r: StreamPoll<T, E>)
        ensures
            r == (if old(self).future is None {
                StreamPoll::<T, E>::Ready(None)
            } else {
                stream_answer(outcome)
            }),
            final(self).future == after_record(old(self).future, outcome),
    {
        if self.future.is_none() {
            self.poll_finished()
        } else {
            self.record(outcome)
        }
    }

    /// Records the future's outcome `outcome`: the stream keeps the future
    /// only while it is not ready, and forwards what it gave.
    pub fn record<T, E>(&mut self, outcome: FuturePoll<Option<T>, E>) -> (r: StreamPoll<T, E>)
        ensures
            r == stream_answer(outcome),
            final(self).future == after_record(old(self).future, outcome),
    {
        match outcome {
            FuturePoll::NotReady => StreamPoll::NotReady,
            FuturePoll::Ready(r) => {
                self.future = None;
                StreamPoll::Ready(r)
            },
            FuturePoll::Failed(e) => {
                self.future = None;
                StreamPoll::Failed(e)
            },
        }
    }
}

/// The stream forwards at most one outcome: once the future has given a
/// value or an error, the stream holds no future any more (so every later
/// poll reports the end), while a pending future is kept and reported as
/// pending.
pub proof fn law_at_most_one_outcome<F, T, E>(future: Option<F>, outcome: FuturePoll<Option<T>, E>)
    ensures
        !(outcome is NotReady) ==> after_record(future, outcome) is None && !(stream_answer(
            outcome,
        ) is NotReady),
        outcome is NotReady ==> after_record(future, outcome) == future && stream_answer(
            outcome,
        ) is NotReady,
{
}

/// What the stream answers to a run of polls, when the future would answer
/// them with `outcomes`: a stream that holds no future answers the end
/// without polling it ([`IntoStream::poll_finished`]); otherwise it records
/// the future's outcome ([`IntoStream::record`]).
pub open spec fn stream_run<F, T, E>(future: Option<F>, outcomes: Seq<FuturePoll<Option<T>, E>>) -> Seq<
    StreamPoll<T, E>,
>
    decreases outcomes.len(),
{
    if outcomes.len() == 0 {
        Seq::empty()
    } else if future is None {
        seq![StreamPoll::Ready(None)] + stream_run(future, outcomes.drop_first())
    } else {
        seq![stream_answer(outcomes[0])] + stream_run(after_record(future, outcomes[0]), outcomes.drop_first())
    }
}

proof fn lemma_ended_stream<F, T, E>(outcomes: Seq<FuturePoll<Option<T>, E>>)
    ensures
        stream_run(None::<F>, outcomes).len() == outcomes.len(),
        forall|j: int| 0 <= j < outcomes.len() ==> #[trigger] stream_run(None::<F>, outcomes)[j] == StreamPoll::<T, E>::Ready(None),
    decreases outcomes.len(),
{
    if outcomes.len() > 0 {
        lemma_ended_stream::<F, T, E>(outcomes.drop_first());
        let r = stream_run(None::<F>, outcomes);
        assert forall|j: int| 0 <= j < outcomes.len() implies #[trigger] r[j] == StreamPoll::<T, E>::Ready(None) by {
            if j > 0 {
                assert(r[j] == stream_run(None::<F>, outcomes.drop_first())[j - 1]);
            }
        }
    }
}

/// A stream over a future that is pending for the first `k` polls and then
/// gives the outcome `outcomes[k]` answers "not ready" `k` times, then that
/// outcome (an item, the end, or an error), and then only the end.
pub proof fn law_one_outcome_then_the_end<F, T, E>(f: F, outcomes: Seq<FuturePoll<Option<T>, E>>, k: int)
    requires
        0 <= k < outcomes.len(),
        forall|j: int| 0 <= j < k ==> #[trigger] outcomes[j] is NotReady,
        !(outcomes[k] is NotReady),
    ensures
        stream_run(Some(f), outcomes).len() == outcomes.len(),
        forall|j: int| 0 <= j < k ==> #[trigger] stream_run(Some(f), outcomes)[j] is NotReady,
        stream_run(Some(f), outcomes)[k] == stream_answer(outcomes[k]),
        forall|j: int| k < j < outcomes.len() ==> #[trigger] stream_run(Some(f), outcomes)[j] == StreamPoll::<T, E>::Ready(None),
    decreases k,
{
    let r = stream_run(Some(f), outcomes);
    let rest = stream_run(after_record(Some(f), outcomes[0]), outcomes.drop_first());
    if k == 0 {
        lemma_ended_stream::<F, T, E>(outcomes.drop_first());
        assert forall|j: int| k < j < outcomes.len() implies #[trigger] r[j] == StreamPoll::<T, E>::Ready(None) by {
            assert(r[j] == rest[j - 1]);
        }
    } else {
        assert(outcomes[0] is NotReady);
        assert forall|j: int| 0 <= j < k - 1 implies #[trigger] outcomes.drop_first()[j] is NotReady by {
            assert(outcomes.drop_first()[j] == outcomes[j + 1]);
        }
        law_one_outcome_then_the_end(f, outcomes.drop_first(), k - 1);
        assert forall|j: int| 0 <= j < k implies #[trigger] r[j] is NotReady by {
            if j > 0 {
                assert(r[j] == rest[j - 1]);
            }
        }
        assert(r[k] == rest[k - 1]);
        assert forall|j: int| k < j < outcomes.len() implies #[trigger] r[j] == StreamPoll::<T, E>::Ready(None) by {
            assert(r[j] == rest[j - 1]);
        }
    }
}

/// A run of polls is [`IntoStream::poll_with`] step after step: the first
/// answer is what `poll_with` gives on the first outcome, and the rest is the
/// run from the future it keeps.
pub proof fn law_run_is_poll_steps<F, T, E>(future: Option<F>, outcomes: Seq<FuturePoll<Option<T>, E>>)
    requires
        outcomes.len() > 0,
    ensures
        stream_run(future, outcomes)[0] == (if future is None {
            StreamPoll::<T, E>::Ready(None)
        } else {
            stream_answer(outcomes[0])
        }),
        stream_run(future, outcomes).drop_first() == stream_run(
            after_record(future, outcomes[0]),
            outcomes.drop_first(),
        ),
{
    let r = stream_run(future, outcomes);
    if future is None {
        assert(after_record(future, outcomes[0]) == future);
    }
    assert(r.drop_first() =~= stream_run(after_record(future, outcomes[0]), outcomes.drop_first()));
}

} // verus!
