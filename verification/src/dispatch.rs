//! Asking a stack of backends: in push order, until one has settled the matter.
//!
//! A backend is first asked whether it takes the request on, and only if it does is it run. What it
//! then replies is settled into a decline, which leads to the next backend, an acceptance or an error,
//! both of which end the asking. [`step`] decides what comes next; the stacks of the JPEG XL decoder
//! and of the image data inflaters follow it.
use crate::error::Error;
use vstd::prelude::*;

verus! {

/// What becomes of a backend's reply.
#[derive(Debug, PartialEq, Eq)]
pub enum Settled<T> {
    /// The backend declined: the next one is asked.
    Declined,
    /// The backend's result is the answer.
    Accepted(T),
    /// The request ends with this error.
    Ended(Error),
}

/// What has just happened.
#[derive(Debug, PartialEq, Eq)]
pub enum Event<T> {
    /// The request arrived.
    Begun,
    /// The backend at this place said whether it takes the request on.
    Answered(usize, bool),
    /// The reply of the backend at this place was settled.
    Replied(usize, Settled<T>),
}

/// What is to be done next.
#[derive(Debug, PartialEq, Eq)]
pub enum Action<T> {
    /// Ask the backend at this place whether it takes the request on.
    Ask(usize),
    /// Run the backend at this place.
    Run(usize),
    /// End, with the answer of a backend, with none where every backend declined, or with an error.
    End(Result<Option<T>, Error>),
}

/// Turning to a place in push order: its backend is asked; past the last one there is no answer.
pub open spec fn turned_to<T>(place: int, count: usize) -> Action<T> {
    if place < count {
        Action::Ask(place as usize)
    } else {
        Action::End(Ok(None))
    }
}

/// What follows an event in a stack of `count` backends.
pub open spec fn action_after<T>(event: Event<T>, count: usize) -> Action<T> {
    match event {
        Event::Begun => turned_to(0, count),
        Event::Answered(place, true) => Action::Run(place),
        Event::Answered(place, false) => turned_to(place + 1, count),
        Event::Replied(place, Settled::Declined) => turned_to(place + 1, count),
        Event::Replied(_, Settled::Accepted(answer)) => Action::End(Ok(Some(answer))),
        Event::Replied(_, Settled::Ended(error)) => Action::End(Err(error)),
    }
}

/// Whether an event can happen in a stack of `count` backends.
pub open spec fn is_event<T>(event: Event<T>, count: usize) -> bool {
    match event {
        Event::Begun => true,
        Event::Answered(place, _) => place < count,
        Event::Replied(place, _) => place < count,
    }
}

/// Decides what follows an event in a stack of `count` backends.
pub fn step<T>(event: Event<T>, count: usize) -> (action: Action<T>)
    requires
        is_event(event, count),
    ensures
        action == action_after(event, count),
{
    let place: usize = match event {
        Event::Begun => 0,
        Event::Answered(place, true) => {
            return Action::Run(place);
        },
        Event::Answered(place, false) => place + 1,
        Event::Replied(place, Settled::Declined) => place + 1,
        Event::Replied(_, Settled::Accepted(answer)) => {
            return Action::End(Ok(Some(answer)));
        },
        Event::Replied(_, Settled::Ended(error)) => {
            return Action::End(Err(error));
        },
    };
    if place < count {
        Action::Ask(place)
    } else {
        Action::End(Ok(None))
    }
}

/// What a settled reply, or a refusal to take the request on, comes to.
pub open spec fn end_of<T>(verdict: Settled<T>) -> Result<Option<T>, Error> {
    match verdict {
        Settled::Declined => Ok(None),
        Settled::Accepted(answer) => Ok(Some(answer)),
        Settled::Ended(error) => Err(error),
    }
}

/// Whether the verdicts on the first backends of a stack lead to an outcome: all but the last of them
/// are declines, and the last decides, or there is one for every backend and all are declines.
pub open spec fn concludes<T>(
    verdicts: Seq<Settled<T>>,
    count: nat,
    outcome: Result<Option<T>, Error>,
) -> bool {
    &&& verdicts.len() <= count
    &&& forall|k: int| 0 <= k < verdicts.len() - 1 ==> (#[trigger] verdicts[k]) is Declined
    &&& if verdicts.len() > 0 && !(verdicts.last() is Declined) {
        outcome == end_of(verdicts.last())
    } else {
        verdicts.len() == count && outcome == Ok::<Option<T>, Error>(None)
    }
}

/// The first backend that does not decline decides: the outcome is fixed by the verdicts.
pub proof fn verdicts_fix_the_outcome<T>(
    verdicts: Seq<Settled<T>>,
    count: nat,
    one: Result<Option<T>, Error>,
    other: Result<Option<T>, Error>,
)
    requires
        concludes(verdicts, count, one),
        concludes(verdicts, count, other),
    ensures
        one == other,
{
}

/// One backend's part in a request: whether it took the request on, what it replied if it did, what
/// that came to, and the states it went through.
pub struct Visit<B, T> {
    /// The state in which the backend was asked.
    pub before: B,
    /// The state in which asking left it.
    pub between: B,
    /// The state in which it was left.
    pub after: B,
    /// Whether it took the request on.
    pub answer: bool,
    /// What it replied, where it took the request on.
    pub reply: Result<T, Error>,
    /// What its part comes to.
    pub verdict: Settled<T>,
}

/// What the parts of some backends come to.
pub open spec fn verdicts_of<B, T>(visits: Seq<Visit<B, T>>) -> Seq<Settled<T>> {
    visits.map_values(|v: Visit<B, T>| v.verdict)
}

/// Whether the visits are of the first backends of a stack, which leave those behind as they were. A
/// backend that does not take the request on declines, and is left as asking left it.
pub open spec fn are_visits_of<B, T>(
    visits: Seq<Visit<B, T>>,
    before: Seq<B>,
    after: Seq<B>,
) -> bool {
    &&& visits.len() <= before.len() == after.len()
    &&& forall|k: int|
        0 <= k < before.len() ==> #[trigger] after[k] == (if k < visits.len() {
            visits[k].after
        } else {
            before[k]
        })
    &&& forall|k: int|
        0 <= k < visits.len() ==> (#[trigger] visits[k]).before == before[k] && (visits[k].answer || (
        visits[k].after == visits[k].between && visits[k].verdict is Declined))
}

/// Whether visits to the backends of a stack lead to an outcome.
pub open spec fn dispatched<B, T>(
    visits: Seq<Visit<B, T>>,
    before: Seq<B>,
    after: Seq<B>,
    outcome: Result<Option<T>, Error>,
) -> bool {
    &&& are_visits_of(visits, before, after)
    &&& concludes(verdicts_of(visits), before.len(), outcome)
}

/// Whether all visits ended in a decline.
pub open spec fn all_declined<B, T>(visits: Seq<Visit<B, T>>) -> bool {
    forall|k: int| 0 <= k < visits.len() ==> (#[trigger] visits[k]).verdict is Declined
}

/// One visit more.
pub proof fn visited<B, T>(
    visits: Seq<Visit<B, T>>,
    v: Visit<B, T>,
    before: Seq<B>,
    now: Seq<B>,
    then: Seq<B>,
)
    requires
        are_visits_of(visits, before, now),
        visits.len() < before.len(),
        v.before == before[visits.len() as int],
        v.answer || (v.after == v.between && v.verdict is Declined),
        then == now.update(visits.len() as int, v.after),
    ensures
        are_visits_of(visits.push(v), before, then),
{
    let more = visits.push(v);
    assert forall|k: int| 0 <= k < before.len() implies #[trigger] then[k] == (if k < more.len() {
        more[k].after
    } else {
        before[k]
    }) by {
        assert(now[k] == (if k < visits.len() {
            visits[k].after
        } else {
            before[k]
        }));
    }
    assert forall|k: int| 0 <= k < more.len() implies (#[trigger] more[k]).before == before[k] && (
    more[k].answer || (more[k].after == more[k].between && more[k].verdict is Declined)) by {
        if k < visits.len() {
            assert(more[k] == visits[k]);
        }
    }
}

/// Where every visit so far ended in a decline, one more decides what [`step`] says it does.
pub proof fn decided<B, T>(
    visits: Seq<Visit<B, T>>,
    v: Visit<B, T>,
    count: usize,
    action: Action<T>,
)
    requires
        visits.len() < count,
        all_declined(visits),
        action == action_after(Event::Replied(visits.len() as usize, v.verdict), count),
    ensures
        action matches Action::End(outcome) ==> concludes(
            verdicts_of(visits.push(v)),
            count as nat,
            outcome,
        ),
        !(action is End) ==> all_declined(visits.push(v)),
{
    let more = visits.push(v);
    let verdicts = verdicts_of(more);
    assert(verdicts.last() == v.verdict);
    assert forall|k: int| 0 <= k < verdicts.len() - 1 implies (#[trigger] verdicts[k]) is Declined by {
        assert(more[k] == visits[k]);
    }
    if !(action is End) {
        assert forall|k: int| 0 <= k < more.len() implies (#[trigger] more[k]).verdict is Declined by {
            if k < visits.len() {
                assert(more[k] == visits[k]);
            }
        }
    }
}

} // verus!
