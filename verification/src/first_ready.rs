//! Reading from several sources in turn: the sources are polled in order,
//! and the first one that has something answers; the rest are not polled.
use vstd::prelude::*;

verus! {

/// What polling one source gave.
pub enum SourcePoll<T> {
    /// Nothing yet.
    Pending,
    /// An answer.
    Ready(T),
}

/// What to do after polling a source.
#[derive(PartialEq, Eq, Structural, Debug)]
pub enum PollNext<T> {
    /// Answer with what the source gave; poll no further source.
    Answer(T),
    /// Poll the source with this number next.
    Next(usize),
    /// No source has anything: report that nothing is ready.
    Pending,
}

/// The step after source `i` of `n` gave `polled`.
pub open spec fn next_step<T>(i: int, n: int, polled: SourcePoll<T>) -> PollNext<T> {
    match polled {
        SourcePoll::Ready(v) => PollNext::Answer(v),
        SourcePoll::Pending => if i + 1 < n {
            PollNext::Next((i + 1) as usize)
        } else {
            PollNext::Pending
        },
    }
}

/// Decides what follows the poll of source `i` of `n`.
pub fn next_source<T>(i: usize, n: usize, polled: SourcePoll<T>) -> (r: PollNext<T>)
    requires
        i < n,
    ensures
        r == next_step(i as int, n as int, polled),
{
    match polled {
        SourcePoll::Ready(v) => PollNext::Answer(v),
        SourcePoll::Pending => if i + 1 < n {
            PollNext::Next(i + 1)
        } else {
            PollNext::Pending
        },
    }
}

/// The first answer among `polls`, in order, if any source has one.
pub open spec fn first_ready<T>(polls: Seq<SourcePoll<T>>) -> Option<T>
    decreases polls.len(),
{
    if polls.len() == 0 {
        None
    } else {
        match polls[0] {
            SourcePoll::Ready(v) => Some(v),
            SourcePoll::Pending => first_ready(polls.drop_first()),
        }
    }
}

/// What the sources answer when they are polled from source `i` on,
/// following [`next_source`], and source `k` would give `polls[k]`.
pub open spec fn drive<T>(polls: Seq<SourcePoll<T>>, i: int) -> Option<T>
    decreases polls.len() - i,
{
    if i < 0 || i >= polls.len() {
        None
    } else {
        match next_step(i, polls.len() as int, polls[i]) {
            PollNext::Answer(v) => Some(v),
            PollNext::Next(j) => if j as int == i + 1 {
                drive(polls, i + 1)
            } else {
                None
            },
            PollNext::Pending => None,
        }
    }
}

/// How many sources are polled from source `i` on: up to and including
/// the first that has an answer.
pub open spec fn polled_count<T>(polls: Seq<SourcePoll<T>>, i: int) -> int
    decreases polls.len() - i,
{
    if i < 0 || i >= polls.len() {
        0
    } else {
        match polls[i] {
            SourcePoll::Ready(_) => 1,
            SourcePoll::Pending => 1 + polled_count(polls, i + 1),
        }
    }
}

/// Polling the sources in order from the first answers with the first
/// answer there is, or reports that nothing is ready; the sources after the
/// first that answers are not polled.
pub proof fn law_first_ready_wins<T>(polls: Seq<SourcePoll<T>>, i: int)
    requires
        0 <= i <= polls.len(),
        polls.len() <= usize::MAX,
    ensures
        drive(polls, i) == first_ready(polls.skip(i)),
        first_ready(polls.skip(i)) is Some ==> polls[i + polled_count(polls, i) - 1] is Ready,
        forall|k: int| i <= k < i + polled_count(polls, i) - 1 ==> #[trigger] polls[k] is Pending,
        i + polled_count(polls, i) <= polls.len(),
    decreases polls.len() - i,
{
    if i < polls.len() {
        assert(polls.skip(i)[0] == polls[i]);
        assert(polls.skip(i).drop_first() =~= polls.skip(i + 1));
        law_first_ready_wins(polls, i + 1);
    } else {
        assert(polls.skip(i).len() == 0);
    }
}

} // verus!
