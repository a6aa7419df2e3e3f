//! What holds of a pipeline over many messages and replies.

use vstd::prelude::*;

use crate::response::{response_view, PipelineOutput, Sent};
use crate::pipeline::{
    action_after_flush, action_after_read, close_action, outcome_only, reply_outcome,
    single_outcome, InFlightView, Reply, SinkAction, SinkView,
};
use crate::types::Polled;

verus! {

/// Replies without a failure among them.
pub open spec fn all_ok<I, E>(items: Seq<I>) -> Seq<Result<I, E>> {
    Seq::new(items.len(), |i: int| Ok(items[i]))
}

/// The responses to `requests` when `groups[i]` are the replies that the i-th of them still
/// gets.
pub open spec fn responses<I, E>(
    requests: Seq<InFlightView<I, E>>,
    groups: Seq<Seq<I>>,
) -> Seq<Sent<I, E>> {
    Seq::new(
        groups.len(),
        |i: int| Sent { output: requests[i].output, response: Ok(requests[i].buffer + groups[i]) },
    )
}

/// What can happen to a pipeline.
#[verifier::reject_recursive_types(I)]
#[verifier::reject_recursive_types(E)]
pub enum PipelineEvent<I, E> {
    /// The connection said whether it can take a message.
    Readied(Polled<Result<(), E>>),
    /// A message was brought. `taken` is what the connection says if it is given its input.
    Brought { request: Request<I, E>, taken: Result<(), E> },
    /// The connection said whether all that was written has gone out.
    Flushed(Polled<Result<(), E>>),
    /// The connection gave this when it was asked for a reply.
    CameIn(Result<I, E>),
    /// The connection said whether it has closed.
    Closed(Polled<Result<(), E>>),
}

/// A request: where its response goes, and how many replies it asked for.
#[verifier::reject_recursive_types(I)]
#[verifier::reject_recursive_types(E)]
pub struct Request<I, E> {
    pub output: PipelineOutput<I, E>,
    pub response_count: nat,
}

/// The state after one event.
pub open spec fn after_event<I, E>(
    state: SinkView<I, E>,
    event: PipelineEvent<I, E>,
) -> SinkView<I, E> {
    match event {
        PipelineEvent::Readied(ready) => state.poll_ready(ready),
        PipelineEvent::Brought { request, taken } => if state.error is Some {
            state.start_send(request.output)
        } else {
            state.start_send(request.output).start_sent(
                request.output,
                request.response_count,
                taken,
            )
        },
        PipelineEvent::Flushed(flushed) => state.poll_flush(flushed),
        PipelineEvent::CameIn(result) => state.take_in(result),
        PipelineEvent::Closed(closed) => state.closed(closed),
    }
}

/// The state after `events`.
pub open spec fn after_events<I, E>(
    state: SinkView<I, E>,
    events: Seq<PipelineEvent<I, E>>,
) -> SinkView<I, E>
    decreases events.len(),
{
    if events.len() == 0 {
        state
    } else {
        after_event(after_events(state, events.drop_last()), events.last())
    }
}

/// The requests that wait, without the replies that they have.
pub open spec fn waiting<I, E>(state: SinkView<I, E>) -> Seq<Request<I, E>> {
    state.in_flight.map_values(
        |entry: InFlightView<I, E>|
            Request { output: entry.output, response_count: entry.response_count },
    )
}

/// What became of messages, each list in the order of events.
#[verifier::reject_recursive_types(I)]
#[verifier::reject_recursive_types(E)]
pub struct Ledger<I, E> {
    /// The requests that the connection took.
    pub written: Seq<Request<I, E>>,
    /// The responses to messages that it did not take, or was not given.
    pub refused: Seq<Sent<I, E>>,
    /// The responses to requests that waited.
    pub answered: Seq<Sent<I, E>>,
}

/// What became of messages during `events`.
pub open spec fn ledger<I, E>(
    state: SinkView<I, E>,
    events: Seq<PipelineEvent<I, E>>,
) -> Ledger<I, E>
    decreases events.len(),
{
    if events.len() == 0 {
        Ledger {
            written: Seq::empty(),
            refused: Seq::empty(),
            answered: Seq::empty(),
        }
    } else {
        let earlier = ledger(state, events.drop_last());
        let before = after_events(state, events.drop_last());
        let after = after_event(before, events.last());
        match events.last() {
            PipelineEvent::Brought { request, .. } => if after.sent.len() > before.sent.len() {
                Ledger { refused: earlier.refused.push(after.sent.last()), ..earlier }
            } else {
                Ledger { written: earlier.written.push(request), ..earlier }
            },
            _ => Ledger {
                answered: earlier.answered + after.sent.skip(before.sent.len() as int),
                ..earlier
            },
        }
    }
}

/// Whether `sent` is a response to `request`: it goes to its output, and if it is no
/// failure, it holds as many replies as the request asked for.
pub open spec fn answers<I, E>(sent: Sent<I, E>, request: Request<I, E>) -> bool {
    &&& sent.output == request.output
    &&& sent.response matches Ok(values) ==> values.len() == request.response_count
}

/// Whether, between `before` and `after`, some of the requests that waited were answered, the
/// oldest first, and nothing else happened to the requests or to what was sent.
pub open spec fn answered_between<I, E>(before: SinkView<I, E>, after: SinkView<I, E>) -> bool {
    let n = after.sent.len() - before.sent.len();
    &&& 0 <= n <= before.in_flight.len()
    &&& before.sent == after.sent.take(before.sent.len() as int)
    &&& forall|i: int|
        0 <= i < n ==> answers(
            #[trigger] after.sent.skip(before.sent.len() as int)[i],
            waiting(before)[i],
        )
    &&& waiting(after) == waiting(before).skip(n)
}

proof fn lemma_answered_between_joins<I, E>(
    first: SinkView<I, E>,
    second: SinkView<I, E>,
    third: SinkView<I, E>,
)
    requires
        answered_between(first, second),
        answered_between(second, third),
    ensures
        answered_between(first, third),
        third.sent.skip(first.sent.len() as int) == second.sent.skip(first.sent.len() as int)
            + third.sent.skip(second.sent.len() as int),
{
    let n = first.sent.len() as int;
    let m = second.sent.len() as int;
    assert(third.sent.take(n) =~= third.sent.take(m).take(n));
    assert(second.sent.skip(n) =~= third.sent.take(m).skip(n));
    assert(third.sent.skip(n) =~= second.sent.skip(n) + third.sent.skip(m));
    assert(waiting(first).skip(m - n).skip(third.sent.len() - m) =~= waiting(first).skip(
        third.sent.len() - n,
    ));
    assert forall|i: int| 0 <= i < third.sent.len() - n implies answers(
        #[trigger] third.sent.skip(n)[i],
        waiting(first)[i],
    ) by {
        if i < m - n {
            assert(third.sent.skip(n)[i] == second.sent.skip(n)[i]);
        } else {
            assert(third.sent.skip(n)[i] == third.sent.skip(m)[i - (m - n)]);
            assert(waiting(second)[i - (m - n)] == waiting(first)[i]);
        }
    }
}

/// What the connection gives answers the oldest request, or nothing, when that request asks
/// for a reply or it is a failure.
proof fn lemma_send_result_answers<I, E>(state: SinkView<I, E>, result: Result<I, E>)
    requires
        state.wf(),
        result is Err || state.in_flight.len() == 0 || state.in_flight[0].response_count > 0,
    ensures
        state.send_result(result).wf(),
        answered_between(state, state.send_result(result)),
{
    let after = state.send_result(result);
    let n = state.sent.len() as int;
    assert(state.sent =~= after.sent.take(n));
    if after.sent.len() == n {
        assert(waiting(after) =~= waiting(state).skip(0));
    } else {
        let oldest = state.in_flight[0];
        assert(after.sent.skip(n)[0] == after.sent.last());
        assert(waiting(state)[0] == (Request {
            output: oldest.output,
            response_count: oldest.response_count,
        }));
        assert(waiting(after) =~= waiting(state).skip(1));
    }
}

/// Settling answers the oldest requests and leaves an oldest one that asks for a reply.
proof fn lemma_settle_answers<I, E>(state: SinkView<I, E>)
    requires
        state.wf(),
    ensures
        state.settle().wf(),
        state.settle().in_flight.len() > 0 ==> state.settle().in_flight[0].response_count > 0,
        answered_between(state, state.settle()),
    decreases state.in_flight.len(),
{
    let n = state.sent.len() as int;
    if state.in_flight.len() > 0 && state.in_flight[0].response_count == 0 {
        let next = state.answer_oldest(Ok(Seq::empty()));
        assert(state.sent =~= next.sent.take(n));
        assert(next.sent.skip(n)[0] == next.sent.last());
        assert(waiting(state)[0] == (Request {
            output: state.in_flight[0].output,
            response_count: state.in_flight[0].response_count,
        }));
        assert(waiting(next) =~= waiting(state).skip(1));
        assert(answered_between(state, next));
        lemma_settle_answers(next);
        lemma_answered_between_joins(state, next, next.settle());
    } else {
        assert(state.sent =~= state.sent.take(n));
        assert(waiting(state) =~= waiting(state).skip(0));
    }
}

/// An event that brings no message answers waiting requests, or none.
proof fn lemma_event_answers<I, E>(state: SinkView<I, E>, event: PipelineEvent<I, E>)
    requires
        state.wf(),
        !(event is Brought),
    ensures
        after_event(state, event).wf(),
        answered_between(state, after_event(state, event)),
{
    match event {
        PipelineEvent::CameIn(result) => {
            let settled = state.settle();
            lemma_settle_answers(state);
            lemma_send_result_answers(settled, result);
            lemma_settle_answers(settled.send_result(result));
            lemma_answered_between_joins(state, settled, settled.send_result(result));
            lemma_answered_between_joins(
                state,
                settled.send_result(result),
                settled.send_result(result).settle(),
            );
        },
        PipelineEvent::Flushed(Polled::Ready(Ok(_))) => {
            lemma_settle_answers(state);
        },
        PipelineEvent::Flushed(Polled::Ready(Err(err))) => {
            lemma_send_result_answers(state, Err(err));
        },
        PipelineEvent::Closed(Polled::Ready(Err(err))) => {
            lemma_send_result_answers(state, Err(err));
        },
        _ => {
            let after = after_event(state, event);
            assert(state.sent =~= after.sent.take(state.sent.len() as int));
            assert(waiting(after) =~= waiting(state).skip(0));
        },
    }
}

/// Requests are answered in the order in which they were written, each at most once, and
/// none is lost: those that waited before and those that were written since are, in this
/// order, those that were answered and then those that wait now. A response that is no
/// failure holds exactly as many replies as its request asked for.
pub proof fn law_answered_in_order<I, E>(
    state: SinkView<I, E>,
    events: Seq<PipelineEvent<I, E>>,
)
    requires
        state.wf(),
    ensures
        after_events(state, events).wf(),
        ({
            let requests = waiting(state) + ledger(state, events).written;
            let answered = ledger(state, events).answered;
            &&& answered.len() <= requests.len()
            &&& forall|i: int|
                0 <= i < answered.len() ==> answers(#[trigger] answered[i], requests[i])
            &&& waiting(after_events(state, events)) == requests.skip(answered.len() as int)
        }),
    decreases events.len(),
{
    let requests = waiting(state) + ledger(state, events).written;
    let answered = ledger(state, events).answered;
    let after = after_events(state, events);
    if events.len() == 0 {
        assert(waiting(after) =~= requests.skip(0));
    } else {
        let earlier = events.drop_last();
        law_answered_in_order(state, earlier);
        let before = after_events(state, earlier);
        let old_requests = waiting(state) + ledger(state, earlier).written;
        let old_answered = ledger(state, earlier).answered;
        let n = old_answered.len() as int;
        if let PipelineEvent::Brought { request, taken } = events.last() {
            if before.error is None && taken is Ok {
                assert(requests =~= old_requests.push(request));
                assert(waiting(after) =~= waiting(before).push(request));
                assert(waiting(after) =~= requests.skip(n));
            } else {
                assert(waiting(after) =~= waiting(before));
            }
        } else {
            lemma_event_answers(before, events.last());
            let now = after.sent.skip(before.sent.len() as int);
            assert(requests == old_requests);
            assert(answered == old_answered + now);
            assert(waiting(before).len() == before.in_flight.len());
            assert(requests.skip(n).skip(now.len() as int) =~= requests.skip(n + now.len()));
            assert forall|i: int| 0 <= i < answered.len() implies answers(
                #[trigger] answered[i],
                requests[i],
            ) by {
                if i >= n {
                    assert(answered[i] == now[i - n]);
                    assert(requests[i] == waiting(before)[i - n]);
                }
            }
        }
    }
}

/// The messages that `events` bring, in their order.
pub open spec fn brought<I, E>(events: Seq<PipelineEvent<I, E>>) -> Seq<Request<I, E>>
    decreases events.len(),
{
    if events.len() == 0 {
        Seq::empty()
    } else {
        let earlier = brought(events.drop_last());
        match events.last() {
            PipelineEvent::Brought { request, .. } => earlier.push(request),
            _ => earlier,
        }
    }
}

/// Where the responses go.
pub open spec fn sent_to<I, E>(sent: Seq<Sent<I, E>>) -> Seq<PipelineOutput<I, E>> {
    sent.map_values(|one: Sent<I, E>| one.output)
}

/// Where the responses to requests are to go.
pub open spec fn asked_by<I, E>(requests: Seq<Request<I, E>>) -> Seq<PipelineOutput<I, E>> {
    requests.map_values(|request: Request<I, E>| request.output)
}

/// Every message that is brought is written or refused, and not both; a refused one is
/// answered with a failure. The responses that are sent are those to refused messages and
/// those to requests that waited, and no others.
pub proof fn law_every_message_is_accounted_for<I, E>(
    state: SinkView<I, E>,
    events: Seq<PipelineEvent<I, E>>,
)
    requires
        state.wf(),
    ensures
        ({
            let Ledger { written, refused, answered } = ledger(state, events);
            &&& asked_by(brought(events)).to_multiset() == asked_by(written).to_multiset().add(
                sent_to(refused).to_multiset(),
            )
            &&& forall|i: int|
                0 <= i < refused.len() ==> (#[trigger] refused[i]).response is Err
            &&& after_events(state, events).sent.to_multiset() == state.sent.to_multiset().add(
                refused.to_multiset(),
            ).add(answered.to_multiset())
        }),
    decreases events.len(),
{
    broadcast use vstd::seq_lib::to_multiset_build;

    let Ledger { written, refused, answered } = ledger(state, events);
    let after = after_events(state, events);
    if events.len() == 0 {
        broadcast use vstd::seq_lib::group_to_multiset_ensures;

        assert(asked_by(brought(events)) =~= Seq::empty());
        assert(asked_by(written) =~= Seq::empty());
        assert(sent_to(refused) =~= Seq::empty());
        assert(asked_by(written).to_multiset().add(sent_to(refused).to_multiset())
            =~= asked_by(brought(events)).to_multiset());
        assert(after.sent.to_multiset() =~= state.sent.to_multiset().add(
            refused.to_multiset(),
        ).add(answered.to_multiset()));
    } else {
        let earlier = events.drop_last();
        law_every_message_is_accounted_for(state, earlier);
        law_answered_in_order(state, earlier);
        let before = after_events(state, earlier);
        let old = ledger(state, earlier);
        if let PipelineEvent::Brought { request, .. } = events.last() {
            assert(asked_by(brought(events)) =~= asked_by(brought(earlier)).push(
                request.output,
            ));
            if after.sent.len() > before.sent.len() {
                assert(after.sent =~= before.sent.push(after.sent.last()));
                assert(sent_to(refused) =~= sent_to(old.refused).push(request.output));
            } else {
                assert(after.sent =~= before.sent);
                assert(asked_by(written) =~= asked_by(old.written).push(request.output));
            }
            assert(asked_by(brought(events)).to_multiset() =~= asked_by(
                written,
            ).to_multiset().add(sent_to(refused).to_multiset()));
        } else {
            lemma_event_answers(before, events.last());
            let now = after.sent.skip(before.sent.len() as int);
            assert(after.sent =~= before.sent + now);
            vstd::seq_lib::lemma_multiset_commutative(before.sent, now);
            vstd::seq_lib::lemma_multiset_commutative(old.answered, now);
        }
        assert(after.sent.to_multiset() =~= state.sent.to_multiset().add(
            refused.to_multiset(),
        ).add(answered.to_multiset()));
    }
}

/// A response that is no failure has what its request asked for: for one that passes over
/// `offset` replies and asks for `count`, it holds the former and then the latter, and
/// nothing else.
pub proof fn law_response_has_what_was_asked_for<I, E>(
    sent: Sent<I, E>,
    request: Request<I, E>,
    offset: nat,
    count: nat,
)
    requires
        answers(sent, request),
        request.response_count == offset + count,
        sent.response is Ok,
    ensures
        ({
            let values = sent.response->Ok_0;
            &&& values.len() == offset + count
            &&& values.take(offset as int).len() == offset
            &&& values.skip(offset as int).len() == count
        }),
{
}

/// The replies that the oldest request has.
pub open spec fn replies_gathered<I, E>(state: SinkView<I, E>) -> Seq<I> {
    if state.in_flight.len() == 0 {
        Seq::empty()
    } else {
        state.in_flight[0].buffer
    }
}

/// What an event gives the requests that wait: what the connection gave, or its failure.
pub open spec fn result_of<I, E>(event: PipelineEvent<I, E>) -> Option<Result<I, E>> {
    match event {
        PipelineEvent::CameIn(result) => Some(result),
        PipelineEvent::Flushed(Polled::Ready(Err(err))) => Some(Err(err)),
        PipelineEvent::Closed(Polled::Ready(Err(err))) => Some(Err(err)),
        _ => None,
    }
}

/// The state in which what an event gives meets the requests: those for no reply are settled
/// first, unless it is a failure to flush or to close.
pub open spec fn met_by<I, E>(
    state: SinkView<I, E>,
    event: PipelineEvent<I, E>,
) -> SinkView<I, E> {
    match event {
        PipelineEvent::CameIn(_) => state.settle(),
        PipelineEvent::Flushed(Polled::Ready(Ok(_))) => state.settle(),
        _ => state,
    }
}

/// All that came in, in its order.
pub open spec fn came_in<I, E>(events: Seq<PipelineEvent<I, E>>) -> Seq<Result<I, E>>
    decreases events.len(),
{
    if events.len() == 0 {
        Seq::empty()
    } else {
        let earlier = came_in(events.drop_last());
        match result_of(events.last()) {
            Some(result) => earlier.push(result),
            None => earlier,
        }
    }
}

/// What came in while there was a request to take it, in its order.
pub open spec fn heard<I, E>(
    state: SinkView<I, E>,
    events: Seq<PipelineEvent<I, E>>,
) -> Seq<Result<I, E>>
    decreases events.len(),
{
    if events.len() == 0 {
        Seq::empty()
    } else {
        let earlier = heard(state, events.drop_last());
        let before = after_events(state, events.drop_last());
        match result_of(events.last()) {
            Some(result) => if met_by(before, events.last()).in_flight.len() > 0 {
                earlier.push(result)
            } else {
                earlier
            },
            None => earlier,
        }
    }
}

/// For each request that one event answers, in their order, what it got: the replies that it
/// had, and what came in then; nothing for a request for no reply that is settled.
pub open spec fn event_runs<I, E>(
    state: SinkView<I, E>,
    event: PipelineEvent<I, E>,
) -> Seq<Seq<Result<I, E>>> {
    let met = met_by(state, event);
    let settled = met.sent.len() - state.sent.len();
    let answered = after_event(state, event).sent.len() - state.sent.len();
    match result_of(event) {
        Some(result) => Seq::new(
            answered as nat,
            |i: int|
                if i == settled {
                    all_ok(replies_gathered(met)).push(result)
                } else {
                    Seq::empty()
                },
        ),
        None => Seq::new(answered as nat, |i: int| Seq::empty()),
    }
}

/// For each request that was answered after it waited, in their order, what it got.
pub open spec fn runs<I, E>(
    state: SinkView<I, E>,
    events: Seq<PipelineEvent<I, E>>,
) -> Seq<Seq<Result<I, E>>>
    decreases events.len(),
{
    if events.len() == 0 {
        Seq::empty()
    } else {
        let earlier = runs(state, events.drop_last());
        let before = after_events(state, events.drop_last());
        if events.last() is Brought {
            earlier
        } else {
            earlier + event_runs(before, events.last())
        }
    }
}

/// For each request that was answered after it waited, where its run ends in all that came
/// in, behind the replies that were there before `events`.
pub open spec fn run_ends<I, E>(
    state: SinkView<I, E>,
    events: Seq<PipelineEvent<I, E>>,
) -> Seq<int>
    decreases events.len(),
{
    if events.len() == 0 {
        Seq::empty()
    } else {
        let earlier = run_ends(state, events.drop_last());
        let before = after_events(state, events.drop_last());
        let last = events.last();
        if last is Brought {
            earlier
        } else {
            let settled = met_by(before, last).sent.len() - before.sent.len();
            let first = replies_gathered(state).len() as int;
            earlier + Seq::new(
                event_runs(before, last).len(),
                |i: int|
                    if i < settled {
                        first + came_in(events.drop_last()).len() as int
                    } else {
                        first + came_in(events).len() as int
                    },
            )
        }
    }
}

/// Whether `run` makes `response`: a response that is no failure is the replies of the run,
/// and all of it are replies; a failure is the last of the run, behind replies only.
pub open spec fn makes<I, E>(run: Seq<Result<I, E>>, response: Result<Seq<I>, E>) -> bool {
    match response {
        Ok(values) => run == all_ok::<I, E>(values),
        Err(err) => {
            &&& run.len() > 0
            &&& run.last() == Err::<I, E>(err)
            &&& forall|i: int| 0 <= i < run.len() - 1 ==> (#[trigger] run[i]) is Ok
        },
    }
}

/// A request for no reply that is settled gets an empty list, and those that follow have no
/// replies yet.
proof fn lemma_settle_makes_nothing<I, E>(state: SinkView<I, E>)
    requires
        state.wf(),
    ensures
        replies_gathered(state.settle()) == replies_gathered(state),
        state.settle().sent.len() > state.sent.len() ==> replies_gathered(state).len() == 0,
        forall|i: int|
            state.sent.len() <= i < state.settle().sent.len() ==> (
            #[trigger] state.settle().sent[i]).response == Ok::<Seq<I>, E>(Seq::empty()),
    decreases state.in_flight.len(),
{
    if state.in_flight.len() > 0 && state.in_flight[0].response_count == 0 {
        let next = state.answer_oldest(Ok(Seq::empty()));
        lemma_settle_answers(next);
        lemma_settle_makes_nothing(next);
        if next.in_flight.len() > 0 {
            assert(next.in_flight[0] == state.in_flight[1]);
        }
        assert(replies_gathered(next) =~= Seq::empty());
        assert(replies_gathered(state) =~= Seq::empty());
        let n = next.sent.len() as int;
        assert(next.settle().sent[n - 1] == next.settle().sent.take(n)[n - 1]);
    }
}

/// What completes the oldest request answers it, from the run that it got, and the next one
/// has no replies yet.
proof fn lemma_oldest_leaves<I, E>(state: SinkView<I, E>, result: Result<I, E>)
    requires
        state.wf(),
        state.in_flight.len() > 0,
        result is Err || state.in_flight[0].buffer.len() + 1 >= state.in_flight[0].response_count,
    ensures
        state.send_result(result).sent.len() == state.sent.len() + 1,
        makes(
            all_ok(state.in_flight[0].buffer).push(result),
            state.send_result(result).sent.last().response,
        ),
        replies_gathered(state.send_result(result)) == Seq::<I>::empty(),
{
    let oldest = state.in_flight[0];
    let after = state.send_result(result);
    let run = all_ok::<I, E>(oldest.buffer).push(result);
    if let Ok(item) = result {
        assert(run =~= all_ok(oldest.buffer.push(item)));
    }
    if after.in_flight.len() > 0 {
        assert(after.in_flight[0] == state.in_flight[1]);
    }
    assert(replies_gathered(after) =~= Seq::empty());
}

/// The responses that one event sends are made from its runs, and what it gives is either the
/// last item of one of them, or gathers behind the replies that the oldest request has, or is
/// dropped because there is no request to take it.
proof fn lemma_event_makes<I, E>(state: SinkView<I, E>, event: PipelineEvent<I, E>)
    requires
        state.wf(),
        !(event is Brought),
    ensures
        ({
            let met = met_by(state, event);
            let after = after_event(state, event);
            let settled = met.sent.len() - state.sent.len();
            let answered = after.sent.len() - state.sent.len();
            &&& 0 <= settled <= answered
            &&& settled > 0 ==> replies_gathered(state).len() == 0
            &&& replies_gathered(met) == replies_gathered(state)
            &&& forall|i: int|
                0 <= i < answered ==> makes(
                    event_runs(state, event)[i],
                    (#[trigger] after.sent.skip(state.sent.len() as int)[i]).response,
                )
            &&& match result_of(event) {
                Some(result) => {
                    let run = all_ok(replies_gathered(state)).push(result);
                    if met.in_flight.len() == 0 {
                        answered == settled && replies_gathered(after).len() == 0
                            && replies_gathered(state).len() == 0
                    } else if answered == settled {
                        all_ok::<I, E>(replies_gathered(after)) == run
                    } else {
                        replies_gathered(after).len() == 0
                    }
                },
                None => answered == settled && replies_gathered(after) == replies_gathered(state),
            }
        }),
{
    let met = met_by(state, event);
    let after = after_event(state, event);
    let n = state.sent.len() as int;
    lemma_event_answers(state, event);
    lemma_settle_answers(state);
    lemma_settle_makes_nothing(state);
    assert(all_ok::<I, E>(Seq::<I>::empty()) =~= Seq::empty());
    match result_of(event) {
        Some(result) => {
            let run = all_ok::<I, E>(replies_gathered(met)).push(result);
            let given = met.send_result(result);
            lemma_send_result_answers(met, result);
            if event is CameIn {
                lemma_settle_answers(given);
                lemma_settle_makes_nothing(given);
            }
            let m = met.sent.len() as int;
            assert forall|i: int| 0 <= i < given.sent.len() implies #[trigger] after.sent[i]
                == given.sent[i] by {
                assert(given.sent.take(given.sent.len() as int) =~= given.sent);
                assert(after.sent.take(given.sent.len() as int)[i] == given.sent[i]);
            }
            assert forall|i: int| 0 <= i < m implies #[trigger] given.sent[i] == met.sent[i] by {
                assert(given.sent.take(m)[i] == met.sent[i]);
            }
            if met.in_flight.len() > 0 {
                let oldest = met.in_flight[0];
                if result is Ok && oldest.buffer.len() + 1 < oldest.response_count {
                    assert(all_ok::<I, E>(replies_gathered(given)) =~= run);
                    assert(given.settle() == given);
                } else {
                    lemma_oldest_leaves(met, result);
                    assert(given.sent[m] == given.sent.last());
                }
            }
            assert forall|i: int| 0 <= i < after.sent.len() - n implies makes(
                event_runs(state, event)[i],
                (#[trigger] after.sent.skip(n)[i]).response,
            ) by {
                assert(after.sent.skip(n)[i] == after.sent[n + i]);
            }
        },
        None => {
            assert(replies_gathered(after) =~= replies_gathered(state));
            assert forall|i: int| 0 <= i < after.sent.len() - n implies makes(
                event_runs(state, event)[i],
                (#[trigger] after.sent.skip(n)[i]).response,
            ) by {
                assert(after.sent.skip(n)[i] == after.sent[n + i]);
            }
        },
    }
}

/// Runs that are empty, but for at most one, have nothing but what is in that one.
proof fn lemma_flatten_one<A>(groups: Seq<Seq<A>>, k: int)
    requires
        forall|i: int| 0 <= i < groups.len() && i != k ==> (#[trigger] groups[i]).len() == 0,
    ensures
        groups.flatten() == if 0 <= k < groups.len() {
            groups[k]
        } else {
            Seq::empty()
        },
    decreases groups.len(),
{
    if groups.len() > 0 {
        lemma_flatten_one(groups.drop_last(), k);
        assert(groups.drop_last().push(groups.last()) =~= groups);
        groups.drop_last().lemma_flatten_push(groups.last());
        assert(groups.flatten() =~= if 0 <= k < groups.len() {
            groups[k]
        } else {
            Seq::empty()
        });
    } else {
        assert(groups.flatten() =~= Seq::empty());
    }
}

/// Replies are not mixed, however messages, replies and failures follow each other: what came
/// in while there were requests to take it falls into runs, one behind the other, one for each
/// request that was answered, in their order, and what is left over are the replies that the
/// oldest request has. Each response is made from its run. A failure ends the run that it
/// comes in: the replies before it are in no response, and those that its request still
/// lacked, if they come in after all, belong to the run of the next one. As requests are
/// answered in order, each with as many replies as it asked for or with a failure, this fixes
/// what each request gets.
pub proof fn law_replies_are_not_mixed<I, E>(
    state: SinkView<I, E>,
    events: Seq<PipelineEvent<I, E>>,
)
    requires
        state.wf(),
    ensures
        ({
            let answered = ledger(state, events).answered;
            let after = after_events(state, events);
            &&& runs(state, events).len() == answered.len()
            &&& runs(state, events).flatten() + all_ok(replies_gathered(after)) == all_ok(
                replies_gathered(state),
            ) + heard(state, events)
            &&& forall|i: int|
                0 <= i < answered.len() ==> makes(
                    runs(state, events)[i],
                    (#[trigger] answered[i]).response,
                )
        }),
    decreases events.len(),
{
    let answered = ledger(state, events).answered;
    let after = after_events(state, events);
    let total = all_ok::<I, E>(replies_gathered(state)) + heard(state, events);
    if events.len() == 0 {
        assert(runs(state, events).flatten() + all_ok::<I, E>(replies_gathered(after)) =~= total);
    } else {
        let earlier = events.drop_last();
        law_replies_are_not_mixed(state, earlier);
        law_answered_in_order(state, earlier);
        let before = after_events(state, earlier);
        let old_total = all_ok::<I, E>(replies_gathered(state)) + heard(state, earlier);
        let old_runs = runs(state, earlier);
        let last = events.last();
        if last is Brought {
            assert(replies_gathered(after) =~= replies_gathered(before));
        } else {
            lemma_event_answers(before, last);
            lemma_event_makes(before, last);
            let now = event_runs(before, last);
            let settled = met_by(before, last).sent.len() - before.sent.len();
            lemma_flatten_one(now, settled);
            vstd::seq_lib::lemma_flatten_concat(old_runs, now);
            let gathered = all_ok::<I, E>(replies_gathered(before));
            match result_of(last) {
                Some(result) => {
                    if met_by(before, last).in_flight.len() > 0 {
                        assert(total =~= old_total.push(result));
                        assert(now.flatten() + all_ok::<I, E>(replies_gathered(after))
                            =~= gathered.push(result));
                    } else {
                        assert(now.flatten() + all_ok::<I, E>(replies_gathered(after))
                            =~= gathered);
                    }
                },
                None => {
                    assert(now.flatten() + all_ok::<I, E>(replies_gathered(after)) =~= gathered);
                },
            }
            assert(runs(state, events).flatten() + all_ok::<I, E>(replies_gathered(after))
                =~= old_runs.flatten() + (now.flatten() + all_ok::<I, E>(
                replies_gathered(after),
            )));
            assert(runs(state, events).flatten() + all_ok::<I, E>(replies_gathered(after))
                =~= total);
            let n = old_runs.len() as int;
            assert forall|i: int| 0 <= i < answered.len() implies makes(
                runs(state, events)[i],
                (#[trigger] answered[i]).response,
            ) by {
                if i >= n {
                    assert(answered[i] == after.sent.skip(before.sent.len() as int)[i - n]);
                    assert(runs(state, events)[i] == now[i - n]);
                } else {
                    assert(answered[i] == ledger(state, earlier).answered[i]);
                }
            }
        }
    }
}

/// Each response to a request that waited is made from a run of consecutive items of all that
/// came in, and the runs follow each other, without overlap, in the order of the responses.
/// The replies that the oldest request has are behind all of them, at the very end.
pub proof fn law_responses_are_runs_of_the_replies<I, E>(
    state: SinkView<I, E>,
    events: Seq<PipelineEvent<I, E>>,
)
    requires
        state.wf(),
    ensures
        ({
            let stream = all_ok(replies_gathered(state)) + came_in(events);
            let answered = ledger(state, events).answered;
            let ends = run_ends(state, events);
            let gathered = replies_gathered(after_events(state, events));
            &&& runs(state, events).len() == ends.len() == answered.len()
            &&& forall|i: int|
                0 <= i < answered.len() ==> {
                    let run = #[trigger] runs(state, events)[i];
                    &&& makes(run, answered[i].response)
                    &&& run.len() <= ends[i] <= stream.len() - gathered.len()
                    &&& stream.subrange(ends[i] - run.len(), ends[i]) == run
                }
            &&& forall|i: int, j: int|
                0 <= i < j < answered.len() ==> #[trigger] ends[i] <= #[trigger] ends[j]
                    - runs(state, events)[j].len()
            &&& gathered.len() <= stream.len()
            &&& stream.skip(stream.len() - gathered.len()) == all_ok::<I, E>(gathered)
        }),
    decreases events.len(),
{
    law_replies_are_not_mixed(state, events);
    let stream = all_ok::<I, E>(replies_gathered(state)) + came_in(events);
    let gathered = replies_gathered(after_events(state, events));
    if events.len() == 0 {
        assert(stream.skip(0) =~= all_ok::<I, E>(gathered));
    } else {
        let earlier = events.drop_last();
        let last = events.last();
        law_responses_are_runs_of_the_replies(state, earlier);
        law_answered_in_order(state, earlier);
        let before = after_events(state, earlier);
        let old_stream = all_ok::<I, E>(replies_gathered(state)) + came_in(earlier);
        let old_gathered = replies_gathered(before);
        if last is Brought {
            assert(gathered =~= old_gathered);
        } else {
            lemma_event_answers(before, last);
            lemma_event_makes(before, last);
            let settled = met_by(before, last).sent.len() - before.sent.len();
            let now = event_runs(before, last);
            let ends = run_ends(state, events);
            let old_ends = run_ends(state, earlier);
            let all = runs(state, events);
            let old_all = runs(state, earlier);
            let n = old_all.len() as int;
            assert(all == old_all + now);
            let run = match result_of(last) {
                Some(result) => all_ok::<I, E>(old_gathered).push(result),
                None => all_ok::<I, E>(old_gathered),
            };
            if let Some(result) = result_of(last) {
                assert(stream =~= old_stream.push(result));
                assert(stream.skip(stream.len() - run.len()) =~= old_stream.skip(
                    old_stream.len() - old_gathered.len(),
                ).push(result));
            } else {
                assert(stream == old_stream);
            }
            assert(stream.skip(stream.len() - run.len()) == run);
            assert(stream.subrange(stream.len() - run.len(), stream.len() as int) =~= run);
            assert(stream.skip(stream.len() - gathered.len()) =~= all_ok::<I, E>(gathered));
            assert forall|i: int| 0 <= i < all.len() implies {
                let one = #[trigger] all[i];
                &&& one.len() <= ends[i] <= stream.len() - gathered.len()
                &&& stream.subrange(ends[i] - one.len(), ends[i]) == one
            } by {
                if i < n {
                    assert(all[i] == old_all[i]);
                    assert(ends[i] == old_ends[i]);
                    assert(stream.subrange(old_ends[i] - old_all[i].len(), old_ends[i])
                        =~= old_stream.subrange(old_ends[i] - old_all[i].len(), old_ends[i]));
                } else {
                    assert(all[i] == now[i - n]);
                    if i - n != settled || result_of(last) is None {
                        assert(stream.subrange(ends[i], ends[i]) =~= Seq::empty());
                    }
                }
            }
            assert forall|i: int, j: int| 0 <= i < j < all.len() implies #[trigger] ends[i]
                <= #[trigger] ends[j] - all[j].len() by {
                if j < n {
                    assert(all[j] == old_all[j]);
                    assert(ends[i] == old_ends[i]);
                    assert(ends[j] == old_ends[j]);
                } else {
                    assert(all[j] == now[j - n]);
                    if i < n {
                        assert(ends[i] == old_ends[i]);
                        assert(old_all[i].len() <= old_ends[i]);
                    }
                }
            }
        }
    }
}

/// Results that come in one after another may be taken in two goes.
pub proof fn lemma_take_in_all_split<I, E>(
    state: SinkView<I, E>,
    first: Seq<Result<I, E>>,
    second: Seq<Result<I, E>>,
)
    ensures
        state.take_in_all(first + second) == state.take_in_all(first).take_in_all(second),
    decreases second.len(),
{
    if second.len() == 0 {
        assert(first + second =~= first);
    } else {
        assert((first + second).drop_last() =~= first + second.drop_last());
        lemma_take_in_all_split(state, first, second.drop_last());
    }
}

/// Replies short of what the oldest request asked for gather in its buffer.
pub proof fn lemma_replies_gather<I, E>(state: SinkView<I, E>, items: Seq<I>)
    requires
        state.in_flight.len() > 0,
        state.in_flight[0].buffer.len() + items.len() < state.in_flight[0].response_count,
    ensures
        state.take_in_all(all_ok(items)) == (SinkView {
            in_flight: state.in_flight.update(
                0,
                InFlightView {
                    buffer: state.in_flight[0].buffer + items,
                    ..state.in_flight[0]
                },
            ),
            ..state
        }),
    decreases items.len(),
{
    let oldest = state.in_flight[0];
    if items.len() == 0 {
        assert(oldest.buffer + items =~= oldest.buffer);
        assert(state.in_flight.update(0, oldest) =~= state.in_flight);
    } else {
        lemma_replies_gather(state, items.drop_last());
        let before = state.take_in_all(all_ok(items.drop_last()));
        assert(all_ok::<I, E>(items).drop_last() =~= all_ok(items.drop_last()));
        let grown = before.in_flight[0].buffer.push(items.last());
        assert(grown =~= oldest.buffer + items);
        assert(before.in_flight.update(0, InFlightView { buffer: grown, ..oldest })
            =~= state.in_flight.update(0, InFlightView { buffer: grown, ..oldest }));
        assert(before.settle() == before);
        let after = before.send_result(Ok(items.last()));
        assert(after.settle() == after);
    }
}

/// The replies that the oldest request still lacks answer it, and touch no other but those
/// for no reply whose turn it is then.
proof fn lemma_oldest_answered<I, E>(state: SinkView<I, E>, items: Seq<I>)
    requires
        state.in_flight.len() > 0,
        0 < items.len(),
        state.in_flight[0].buffer.len() + items.len() == state.in_flight[0].response_count,
    ensures
        state.take_in_all(all_ok(items)) == state.answer_oldest(
            Ok(state.in_flight[0].buffer + items),
        ).settle(),
{
    let oldest = state.in_flight[0];
    lemma_replies_gather(state, items.drop_last());
    assert(all_ok::<I, E>(items).drop_last() =~= all_ok(items.drop_last()));
    let before = state.take_in_all(all_ok(items.drop_last()));
    assert(before.in_flight[0].buffer.push(items.last()) =~= oldest.buffer + items);
    assert(before.in_flight.drop_first() =~= state.in_flight.drop_first());
    assert(before.settle() == before);
}

/// Replies reach the requests that they belong to: once all that was written has gone out and
/// the replies come in that the first `groups.len()` waiting requests still lack, each is
/// answered with those that it has and then its group of them, in their order, and no other
/// request is touched but those for no reply whose turn it is then.
pub proof fn law_replies_reach_their_requests<I, E>(state: SinkView<I, E>, groups: Seq<Seq<I>>)
    requires
        state.wf(),
        groups.len() <= state.in_flight.len(),
        forall|i: int|
            0 <= i < groups.len() ==> state.in_flight[i].buffer.len() + (
            #[trigger] groups[i]).len() == state.in_flight[i].response_count,
    ensures
        state.poll_flush(Polled::Ready(Ok(()))).take_in_all(all_ok(groups.flatten()))
            == (SinkView {
            in_flight: state.in_flight.skip(groups.len() as int),
            sent: state.sent + responses(state.in_flight, groups),
            ..state
        }).settle(),
    decreases groups.len(),
{
    if groups.len() == 0 {
        assert(all_ok::<I, E>(groups.flatten()) =~= Seq::empty());
        assert(state.in_flight.skip(0) =~= state.in_flight);
        assert(state.sent + responses(state.in_flight, groups) =~= state.sent);
    } else {
        let rest = groups.drop_first();
        let response = state.in_flight[0].buffer + groups[0];
        let next = state.answer_oldest(Ok(response));
        assert forall|i: int| 0 <= i < rest.len() implies next.in_flight[i].buffer.len() + (
        #[trigger] rest[i]).len() == next.in_flight[i].response_count by {
            assert(rest[i] == groups[i + 1]);
            assert(next.in_flight[i] == state.in_flight[i + 1]);
        }
        law_replies_reach_their_requests(next, rest);
        assert(next.in_flight.skip(rest.len() as int) =~= state.in_flight.skip(
            groups.len() as int,
        ));
        assert(next.sent + responses(next.in_flight, rest) =~= state.sent + responses(
            state.in_flight,
            groups,
        ));
        assert(all_ok::<I, E>(groups.flatten()) =~= all_ok(groups[0]) + all_ok(rest.flatten()));
        if state.in_flight[0].response_count == 0 {
            assert(response =~= Seq::empty());
            assert(state.settle() == next.settle());
            assert(all_ok::<I, E>(groups.flatten()) =~= all_ok(rest.flatten()));
        } else {
            assert(state.settle() == state);
            lemma_take_in_all_split(
                state,
                all_ok::<I, E>(groups[0]),
                all_ok::<I, E>(rest.flatten()),
            );
            lemma_oldest_answered(state, groups[0]);
        }
    }
}

/// A failure of the connection is the response to the oldest request, whatever replies it
/// has and even if it asks for none, and to no other; so is one to write out what it took, or
/// to close. What comes in next belongs to the request after it.
pub proof fn law_failure_answers_the_oldest<I, E>(state: SinkView<I, E>, err: E)
    requires
        state.in_flight.len() > 0,
    ensures
        state.send_result(Err(err)) == (SinkView {
            in_flight: state.in_flight.skip(1),
            sent: state.sent.push(
                Sent { output: state.in_flight[0].output, response: Err(err) },
            ),
            ..state
        }),
        state.poll_flush(Polled::Ready(Err(err))) == state.send_result(Err(err)),
        state.closed(Polled::Ready(Err(err))) == state.send_result(Err(err)),
{
    assert(state.in_flight.drop_first() =~= state.in_flight.skip(1));
}

/// Replies that no request waits for are dropped.
pub proof fn law_unasked_replies_are_dropped<I, E>(
    state: SinkView<I, E>,
    results: Seq<Result<I, E>>,
)
    requires
        state.in_flight.len() == 0,
    ensures
        state.take_in_all(results) == state,
    decreases results.len(),
{
    if results.len() > 0 {
        law_unasked_replies_are_dropped(state, results.drop_last());
    }
}

/// When the connection fails while it is asked whether it can take a message, the next
/// message is answered with that failure and is not written; the message after it goes to
/// the connection again. The requests that wait are not touched.
pub proof fn law_failure_refuses_one_message<I, E>(
    state: SinkView<I, E>,
    err: E,
    output: PipelineOutput<I, E>,
    next_output: PipelineOutput<I, E>,
)
    ensures
        ({
            let refused = state.poll_ready(Polled::Ready(Err(err))).start_send(output);
            &&& refused == (SinkView {
                in_flight: state.in_flight,
                error: None,
                sent: state.sent.push(Sent { output, response: Err(err) }),
            })
            &&& refused.start_send(next_output) == refused
        }),
{
}

/// What the connection answered to one thing that was asked of it.
#[verifier::reject_recursive_types(I)]
#[verifier::reject_recursive_types(E)]
pub enum ConnectionAnswer<I, E> {
    Flushed(Polled<Result<(), E>>),
    Next(Polled<Option<Result<I, E>>>),
    Closed(Polled<Result<(), E>>),
}

/// The state and the next action after `answer` to `action`. An answer to something else
/// than was asked changes nothing.
pub open spec fn after_answer<I, E>(
    state: SinkView<I, E>,
    action: SinkAction,
    answer: ConnectionAnswer<I, E>,
) -> (SinkView<I, E>, SinkAction) {
    match (action, answer) {
        (SinkAction::PollFlush { closing }, ConnectionAnswer::Flushed(flushed)) => (
            state.poll_flush(flushed),
            action_after_flush(closing, flushed),
        ),
        (SinkAction::PollNext { closing }, ConnectionAnswer::Next(next)) => (
            state.poll_read(next),
            action_after_read(closing, next),
        ),
        (SinkAction::PollClose, ConnectionAnswer::Closed(closed)) => (
            state.closed(closed),
            SinkAction::Return(outcome_only(closed)),
        ),
        _ => (state, action),
    }
}

/// The state and the next action after `answers`, from the first action on.
pub open spec fn after_answers<I, E>(
    state: SinkView<I, E>,
    action: SinkAction,
    answers: Seq<ConnectionAnswer<I, E>>,
) -> (SinkView<I, E>, SinkAction)
    decreases answers.len(),
{
    if answers.len() == 0 {
        (state, action)
    } else {
        let before = after_answers(state, action, answers.drop_last());
        after_answer(before.0, before.1, answers.last())
    }
}

/// Whether an action is part of a close.
pub open spec fn is_closing(action: SinkAction) -> bool {
    match action {
        SinkAction::PollFlush { closing } => closing,
        SinkAction::PollNext { closing } => closing,
        SinkAction::PollClose => true,
        SinkAction::Return(_) => false,
    }
}

/// Asking the connection for replies until it has no more for now takes in all of them, in
/// their order.
pub proof fn law_reads_take_all_in<I, E>(
    state: SinkView<I, E>,
    closing: bool,
    results: Seq<Result<I, E>>,
)
    ensures
        after_answers(
            state,
            SinkAction::PollNext { closing },
            results.map_values(
                |result: Result<I, E>| ConnectionAnswer::Next(Polled::Ready(Some(result))),
            ),
        ) == (state.take_in_all(results), SinkAction::PollNext { closing }),
    decreases results.len(),
{
    let read = |result: Result<I, E>| ConnectionAnswer::Next(Polled::Ready(Some(result)));
    if results.len() > 0 {
        assert(results.map_values(read).drop_last() =~= results.drop_last().map_values(read));
        law_reads_take_all_in(state, closing, results.drop_last());
    }
}

/// A flush that is no part of a close never closes the connection.
pub proof fn law_flush_does_not_close<I, E>(
    state: SinkView<I, E>,
    answers: Seq<ConnectionAnswer<I, E>>,
)
    ensures
        !is_closing(
            after_answers(state, SinkAction::PollFlush { closing: false }, answers).1,
        ),
    decreases answers.len(),
{
    if answers.len() > 0 {
        law_flush_does_not_close(state, answers.drop_last());
    }
}

/// Once a flush or a close is over, further answers change nothing.
proof fn lemma_over<I, E>(
    state: SinkView<I, E>,
    result: Polled<Result<(), ()>>,
    more: Seq<ConnectionAnswer<I, E>>,
)
    ensures
        after_answers(state, SinkAction::Return(result), more) == (
            state,
            SinkAction::Return(result),
        ),
    decreases more.len(),
{
    if more.len() > 0 {
        lemma_over(state, result, more.drop_last());
    }
}

/// Answers may be taken in two goes.
proof fn lemma_answers_split<I, E>(
    state: SinkView<I, E>,
    action: SinkAction,
    first: Seq<ConnectionAnswer<I, E>>,
    second: Seq<ConnectionAnswer<I, E>>,
)
    ensures
        after_answers(state, action, first + second) == ({
            let between = after_answers(state, action, first);
            after_answers(between.0, between.1, second)
        }),
    decreases second.len(),
{
    if second.len() == 0 {
        assert(first + second =~= first);
    } else {
        assert((first + second).drop_last() =~= first + second.drop_last());
        lemma_answers_split(state, action, first, second.drop_last());
    }
}

/// A flush which sees the end of the replies ends with a failure, whatever came before: that
/// breaks out of the forwarding of messages, and so shuts the pipeline down. The end itself
/// answers no request.
pub proof fn law_flush_fails_at_the_end_of_the_replies<I, E>(
    state: SinkView<I, E>,
    answers: Seq<ConnectionAnswer<I, E>>,
    more: Seq<ConnectionAnswer<I, E>>,
)
    requires
        after_answers(state, SinkAction::PollFlush { closing: false }, answers).1
            == (SinkAction::PollNext { closing: false }),
    ensures
        after_answers(
            state,
            SinkAction::PollFlush { closing: false },
            answers.push(ConnectionAnswer::Next(Polled::Ready(None))) + more,
        ) == (
            after_answers(state, SinkAction::PollFlush { closing: false }, answers).0,
            SinkAction::Return(Polled::Ready(Err(()))),
        ),
{
    let first = SinkAction::PollFlush { closing: false };
    let ended = answers.push(ConnectionAnswer::Next(Polled::Ready(None)));
    assert(ended.drop_last() =~= answers);
    lemma_answers_split(state, first, ended, more);
    lemma_over(
        after_answers(state, first, answers).0,
        Polled::<Result<(), ()>>::Ready(Err(())),
        more,
    );
}

/// A flush that is no part of a close never reports success: it fails, or what it waits for
/// has yet to come. It fails exactly when the connection failed to flush or gave the end of
/// the replies, and that is the last answer that it took.
pub proof fn law_flush_fails_or_waits<I, E>(
    state: SinkView<I, E>,
    answers: Seq<ConnectionAnswer<I, E>>,
    answer: ConnectionAnswer<I, E>,
)
    ensures
        ({
            let first = SinkAction::PollFlush { closing: false };
            let before = after_answers(state, first, answers).1;
            let after = after_answers(state, first, answers.push(answer)).1;
            &&& after != SinkAction::Return(Polled::Ready(Ok(())))
            &&& before != after ==> (after == SinkAction::Return(Polled::Ready(Err(()))) <==> {
                ||| before == first && answer matches ConnectionAnswer::Flushed(
                    Polled::Ready(Err(_)),
                )
                ||| before == (SinkAction::PollNext { closing: false }) && answer
                    == ConnectionAnswer::<I, E>::Next(Polled::Ready(None))
            })
        }),
    decreases answers.len(),
{
    assert(answers.push(answer).drop_last() =~= answers);
    law_flush_does_not_close(state, answers);
    if answers.len() > 0 {
        law_flush_fails_or_waits(state, answers.drop_last(), answers.last());
        assert(answers.drop_last().push(answers.last()) =~= answers);
    }
}

/// Whoever waits for a response when the pipeline shuts down learns so, and so does whoever
/// brings a message after it has: the outcome is a failure without a failure of the
/// connection, for one reply as for several.
pub proof fn law_shut_down_reaches_the_callers<I, E>(reply: Reply<I, E>)
    requires
        match reply {
            Reply::Unsent => true,
            Reply::Received(received) => received is Err,
        },
    ensures
        reply_outcome(reply) == Err::<Vec<I>, Option<E>>(None),
        single_outcome(reply_outcome(reply)) == Err::<I, Option<E>>(None),
{
}

/// A message that asks for one reply has one reply `x` as its outcome exactly when the same
/// message, asking for a list of one, has the list of `x` alone, and has a failure exactly
/// when that has the same, be it one of the connection or that the pipeline has shut down.
/// A list without a reply, or with several, does not occur.
pub proof fn law_one_reply_is_the_list_of_one<I, E>(
    request: Request<I, E>,
    reply: Reply<I, E>,
    x: I,
    err: Option<E>,
)
    requires
        request.response_count == 1,
        reply matches Reply::Received(Ok(response)) ==> answers(
            Sent { output: request.output, response: response_view(response) },
            request,
        ),
    ensures
        ({
            let list = reply_outcome(reply);
            let one = single_outcome(list);
            &&& list matches Ok(values) ==> values@.len() == 1
            &&& one == Ok::<I, Option<E>>(x) <==> (list matches Ok(values) && values@ == seq![x])
            &&& one == Err::<I, Option<E>>(err) <==> list == Err::<Vec<I>, Option<E>>(err)
        }),
{
    if let Ok(values) = reply_outcome(reply) {
        assert(values@ =~= seq![values@.last()]);
        assert(seq![x].last() == x);
    }
}

/// The state with a request for no reply behind those that wait, all that was written having
/// gone out: it is answered with an empty list where none waits.
pub open spec fn with_no_reply<I, E>(
    state: SinkView<I, E>,
    output: PipelineOutput<I, E>,
) -> SinkView<I, E> {
    if state.in_flight.len() == 0 {
        state.respond(output, Ok(Seq::empty()))
    } else {
        state.start_sent(output, 0, Ok(()))
    }
}

proof fn lemma_settle_with_no_reply<I, E>(state: SinkView<I, E>, output: PipelineOutput<I, E>)
    ensures
        state.start_sent(output, 0, Ok(())).settle() == with_no_reply(state.settle(), output),
    decreases state.in_flight.len(),
{
    let written = state.start_sent(output, 0, Ok(()));
    if state.in_flight.len() == 0 {
        let answered = written.answer_oldest(Ok(Seq::empty()));
        assert(answered.in_flight =~= state.in_flight);
        assert(answered.settle() == answered);
    } else if state.in_flight[0].response_count == 0 {
        let next = state.answer_oldest(Ok(Seq::empty()));
        lemma_settle_with_no_reply(next, output);
        let answered = written.answer_oldest(Ok(Seq::empty()));
        assert(answered.in_flight =~= next.start_sent(output, 0, Ok(())).in_flight);
    }
}

proof fn lemma_take_in_with_no_reply<I, E>(
    state: SinkView<I, E>,
    output: PipelineOutput<I, E>,
    result: Result<I, E>,
)
    requires
        state.in_flight.len() > 0 ==> state.in_flight[0].response_count > 0,
    ensures
        with_no_reply(state, output).take_in(result) == with_no_reply(
            state.take_in(result),
            output,
        ),
{
    if state.in_flight.len() > 0 {
        let written = state.start_sent(output, 0, Ok(()));
        let given = state.send_result(result);
        assert(written.send_result(result).in_flight =~= given.start_sent(
            output,
            0,
            Ok(()),
        ).in_flight);
        lemma_settle_with_no_reply(given, output);
    }
}

/// A request for no reply takes none, and has an empty list as its response once all that was
/// written has gone out and its turn has come: whatever comes in then reaches the requests
/// before it as it would without it.
pub proof fn law_request_for_no_reply_takes_none<I, E>(
    state: SinkView<I, E>,
    output: PipelineOutput<I, E>,
    results: Seq<Result<I, E>>,
)
    requires
        state.wf(),
    ensures
        state.start_sent(output, 0, Ok(())).poll_flush(Polled::Ready(Ok(()))).take_in_all(results)
            == with_no_reply(
            state.poll_flush(Polled::Ready(Ok(()))).take_in_all(results),
            output,
        ),
{
    lemma_settle_with_no_reply(state, output);
    lemma_settle_answers(state);
    lemma_take_in_all_with_no_reply(state.settle(), output, results);
}

proof fn lemma_take_in_all_with_no_reply<I, E>(
    state: SinkView<I, E>,
    output: PipelineOutput<I, E>,
    results: Seq<Result<I, E>>,
)
    requires
        state.wf(),
        state.in_flight.len() > 0 ==> state.in_flight[0].response_count > 0,
    ensures
        with_no_reply(state, output).take_in_all(results) == with_no_reply(
            state.take_in_all(results),
            output,
        ),
        ({
            let after = state.take_in_all(results);
            &&& after.wf()
            &&& after.in_flight.len() > 0 ==> after.in_flight[0].response_count > 0
        }),
    decreases results.len(),
{
    if results.len() > 0 {
        lemma_take_in_all_with_no_reply(state, output, results.drop_last());
        let before = state.take_in_all(results.drop_last());
        lemma_take_in_with_no_reply(before, output, results.last());
        lemma_send_result_answers(before, results.last());
        lemma_settle_answers(before.send_result(results.last()));
    }
}

/// A close does not close the connection before all that was written has gone out, and the
/// connection has said that it will give no more replies, as long as requests wait when it
/// begins.
pub proof fn law_close_completes_requests<I, E>(
    state: SinkView<I, E>,
    answers: Seq<ConnectionAnswer<I, E>>,
)
    requires
        state.in_flight.len() > 0,
        after_answers(state, close_action(state), answers).1 == SinkAction::PollClose,
    ensures
        answers.contains(ConnectionAnswer::Flushed(Polled::Ready(Ok(())))),
        answers.contains(ConnectionAnswer::Next(Polled::Ready(None))),
    decreases answers.len(),
{
    let first = close_action(state);
    if answers.len() > 0 {
        let earlier = answers.drop_last();
        let end = ConnectionAnswer::<I, E>::Next(Polled::Ready(None));
        let flushed = ConnectionAnswer::<I, E>::Flushed(Polled::Ready(Ok(())));
        if after_answers(state, first, earlier).1 == SinkAction::PollClose {
            law_close_completes_requests(state, earlier);
            let i = earlier.index_of(end);
            assert(answers[i] == end);
        } else {
            lemma_reads_follow_a_flush(state, true, earlier);
            assert(answers[answers.len() - 1] == end);
        }
        let i = earlier.index_of(flushed);
        assert(answers[i] == flushed);
    }
}

/// Replies are asked for only once all that was written has gone out.
proof fn lemma_reads_follow_a_flush<I, E>(
    state: SinkView<I, E>,
    closing: bool,
    answers: Seq<ConnectionAnswer<I, E>>,
)
    requires
        after_answers(state, SinkAction::PollFlush { closing }, answers).1 is PollNext,
    ensures
        answers.contains(ConnectionAnswer::Flushed(Polled::Ready(Ok(())))),
    decreases answers.len(),
{
    if answers.len() > 0 {
        let earlier = answers.drop_last();
        let flushed = ConnectionAnswer::<I, E>::Flushed(Polled::Ready(Ok(())));
        let before = after_answers(state, SinkAction::PollFlush { closing }, earlier);
        if before.1 is PollNext {
            lemma_reads_follow_a_flush(state, closing, earlier);
            let i = earlier.index_of(flushed);
            assert(answers[i] == flushed);
        } else {
            assert(before.1 is PollFlush);
            if let ConnectionAnswer::Flushed(Polled::Ready(Ok(unit))) = answers.last() {
                assert(unit == ());
            }
            assert(answers[answers.len() - 1] == flushed);
        }
    }
}

/// What the receiver of a message gave is what its caller gets, whatever its length: a list
/// exactly when that list came, a failure of the connection exactly when that failure came, and
/// that the pipeline has shut down exactly when the message was not sent or its output was
/// dropped.
pub proof fn law_what_was_received_is_the_outcome<I, E>(
    reply: Reply<I, E>,
    values: Vec<I>,
    err: E,
)
    ensures
        reply_outcome(reply) == Ok::<Vec<I>, Option<E>>(values) <==> reply == Reply::Received(
            Ok(Ok::<Vec<I>, E>(values)),
        ),
        reply_outcome(reply) == Err::<Vec<I>, Option<E>>(Some(err)) <==> reply == Reply::Received(
            Ok(Err::<Vec<I>, E>(err)),
        ),
        reply_outcome(reply) == Err::<Vec<I>, Option<E>>(None) <==> (reply is Unsent || (
        reply matches Reply::Received(received) && received is Err)),
{
}

/// A response is shown as it is: the items of its list, in their order, or its failure.
pub proof fn law_response_is_what_it_shows<I, E>(response: Result<Vec<I>, E>)
    ensures
        match response {
            Ok(values) => response_view(response) matches Ok(items) && items.len() == values.len()
                && forall|i: int| 0 <= i < items.len() ==> #[trigger] items[i] == values[i],
            Err(err) => response_view(response) == Err::<Seq<I>, E>(err),
        },
{
}

/// The one reply out of an outcome is the last of its list, and a failure is that failure.
pub proof fn law_one_reply_is_the_last<I, E>(outcome: Result<Vec<I>, E>)
    requires
        outcome matches Ok(values) ==> values.len() > 0,
    ensures
        match outcome {
            Ok(values) => single_outcome(outcome) matches Ok(value) && value
                == values[values.len() - 1],
            Err(err) => single_outcome(outcome) == Err::<I, E>(err),
        },
{
}

/// What comes in goes to the oldest request and to no other: a reply is put behind those that
/// the request has, and all of them are its response as soon as they are not fewer than it
/// asked for; a failure is its response at once. Nothing else changes, and where no request
/// waits nothing changes at all.
pub proof fn law_results_go_to_the_oldest<I, E>(state: SinkView<I, E>, result: Result<I, E>)
    ensures
        ({
            let after = state.send_result(result);
            let oldest = state.in_flight[0];
            &&& after.error == state.error
            &&& state.in_flight.len() == 0 ==> after == state
            &&& state.in_flight.len() > 0 ==> match result {
                Ok(item) => {
                    let got = oldest.buffer + seq![item];
                    if got.len() < oldest.response_count {
                        &&& after.sent == state.sent
                        &&& after.in_flight.skip(1) == state.in_flight.skip(1)
                        &&& after.in_flight.len() == state.in_flight.len()
                        &&& after.in_flight[0].buffer == got
                        &&& after.in_flight[0].output == oldest.output
                        &&& after.in_flight[0].response_count == oldest.response_count
                    } else {
                        &&& after.in_flight == state.in_flight.skip(1)
                        &&& after.sent == state.sent + seq![
                            Sent { output: oldest.output, response: Ok(got) },
                        ]
                    }
                },
                Err(err) => {
                    &&& after.in_flight == state.in_flight.skip(1)
                    &&& after.sent == state.sent + seq![
                        Sent { output: oldest.output, response: Err(err) },
                    ]
                },
            }
        }),
{
    let after = state.send_result(result);
    if state.in_flight.len() > 0 {
        let oldest = state.in_flight[0];
        assert(state.in_flight.drop_first() =~= state.in_flight.skip(1));
        if let Ok(item) = result {
            assert(oldest.buffer.push(item) =~= oldest.buffer + seq![item]);
            if oldest.buffer.len() + 1 < oldest.response_count {
                assert(after.in_flight.skip(1) =~= state.in_flight.skip(1));
            }
        }
    }
}

/// Once all that was written has gone out, exactly the requests for no reply at the front are
/// answered, each with an empty list and in their order, up to the first one that asks for a
/// reply. Nothing else changes, and while it has not gone out nothing changes at all.
pub proof fn law_flush_answers_requests_for_no_reply<I, E>(state: SinkView<I, E>)
    requires
        state.wf(),
    ensures
        state.poll_flush(Polled::Pending) == state,
        ({
            let after = state.poll_flush(Polled::Ready(Ok(())));
            let n = after.sent.len() - state.sent.len();
            &&& 0 <= n <= state.in_flight.len()
            &&& after.error == state.error
            &&& after.in_flight == state.in_flight.skip(n)
            &&& after.in_flight.len() > 0 ==> after.in_flight[0].response_count > 0
            &&& after.sent.take(state.sent.len() as int) == state.sent
            &&& forall|i: int|
                0 <= i < n ==> (#[trigger] state.in_flight[i]).response_count == 0
                    && after.sent[state.sent.len() + i] == (Sent {
                    output: state.in_flight[i].output,
                    response: Ok::<Seq<I>, E>(Seq::empty()),
                })
        }),
    decreases state.in_flight.len(),
{
    let after = state.poll_flush(Polled::Ready(Ok(())));
    let m = state.sent.len() as int;
    if state.in_flight.len() > 0 && state.in_flight[0].response_count == 0 {
        let next = state.answer_oldest(Ok(Seq::empty()));
        law_flush_answers_requests_for_no_reply(next);
        let k = after.sent.len() - next.sent.len();
        assert(next.in_flight.skip(k) =~= state.in_flight.skip(k + 1));
        assert(after.sent.take(m) =~= after.sent.take(m + 1).take(m));
        assert(next.sent.take(m) =~= state.sent);
        assert(after.sent[m] == after.sent.take(m + 1)[m]);
        assert forall|i: int| 0 <= i < k + 1 implies (
        #[trigger] state.in_flight[i]).response_count == 0 && after.sent[m + i] == (Sent {
            output: state.in_flight[i].output,
            response: Ok::<Seq<I>, E>(Seq::empty()),
        }) by {
            if i > 0 {
                assert(next.in_flight[i - 1] == state.in_flight[i]);
            }
        }
    } else {
        assert(state.in_flight.skip(0) =~= state.in_flight);
        assert(state.sent.take(m) =~= state.sent);
    }
}

/// What the connection says without a failure changes nothing when it is asked whether it can
/// take a message, or whether it has closed, nor does its having no reply. A failure to take a
/// message is the response to that message, and a message that is taken waits behind the
/// others, without replies. A message meets a failure only if one was kept.
pub proof fn law_no_failure_changes_nothing<I, E>(
    state: SinkView<I, E>,
    output: PipelineOutput<I, E>,
    response_count: nat,
    err: E,
)
    ensures
        state.poll_ready(Polled::Pending) == state,
        state.poll_ready(Polled::Ready(Ok(()))) == state,
        state.closed(Polled::Pending) == state,
        state.closed(Polled::Ready(Ok(()))) == state,
        state.poll_read(Polled::Pending) == state,
        state.poll_read(Polled::Ready(None)) == state,
        state.error is None ==> state.start_send(output) == state,
        state.start_sent(output, response_count, Err(err)) == (SinkView {
            sent: state.sent + seq![Sent { output, response: Err::<Seq<I>, E>(err) }],
            ..state
        }),
        state.start_sent(output, response_count, Ok(())) == (SinkView {
            in_flight: state.in_flight + seq![
                InFlightView { output, response_count, buffer: Seq::empty() },
            ],
            ..state
        }),
{
    assert(state.sent.push(Sent { output, response: Err(err) }) =~= state.sent + seq![
        Sent { output, response: Err(err) },
    ]);
    let entry = InFlightView { output, response_count, buffer: Seq::empty() };
    assert(state.in_flight.push(entry) =~= state.in_flight + seq![entry]);
}

/// A flush, or the flush of a close, takes in what the connection gives once all that was
/// written has gone out, and waits while the connection has nothing: for what was written to
/// go out, or for the next reply.
pub proof fn law_flush_takes_in_what_is_there<I, E>(
    state: SinkView<I, E>,
    closing: bool,
    results: Seq<Result<I, E>>,
)
    ensures
        ({
            let first = SinkAction::PollFlush { closing };
            let given = results.map_values(
                |result: Result<I, E>| ConnectionAnswer::Next(Polled::Ready(Some(result))),
            );
            let flushed = ConnectionAnswer::<I, E>::Flushed(Polled::Ready(Ok(())));
            let after = state.poll_flush(Polled::Ready(Ok(()))).take_in_all(results);
            &&& after_answers(state, first, seq![ConnectionAnswer::Flushed(Polled::Pending)]) == (
                state,
                SinkAction::Return(Polled::Pending),
            )
            &&& after_answers(
                state,
                first,
                (seq![flushed] + given).push(ConnectionAnswer::Next(Polled::Pending)),
            ) == (after, SinkAction::Return(Polled::Pending))
            &&& after_answers(
                state,
                first,
                (seq![flushed] + given).push(ConnectionAnswer::Next(Polled::Ready(None))),
            ) == (
                after,
                if closing {
                    SinkAction::PollClose
                } else {
                    SinkAction::Return(Polled::Ready(Err(())))
                },
            )
        }),
{
    let first = SinkAction::PollFlush { closing };
    let given = results.map_values(
        |result: Result<I, E>| ConnectionAnswer::Next(Polled::Ready(Some(result))),
    );
    let flushed = ConnectionAnswer::<I, E>::Flushed(Polled::Ready(Ok(())));
    let nothing = Seq::<ConnectionAnswer<I, E>>::empty();
    assert(after_answers(state, first, nothing) == (state, first));
    let waits = seq![ConnectionAnswer::<I, E>::Flushed(Polled::Pending)];
    assert(waits.drop_last() =~= nothing);
    assert(seq![flushed].drop_last() =~= nothing);
    assert(after_answers(state, first, seq![flushed]) == (
        state.poll_flush(Polled::Ready(Ok(()))),
        SinkAction::PollNext { closing },
    ));
    lemma_answers_split(state, first, seq![flushed], given);
    law_reads_take_all_in(state.poll_flush(Polled::Ready(Ok(()))), closing, results);
    let all = seq![flushed] + given;
    assert(all.push(ConnectionAnswer::Next(Polled::Pending)).drop_last() =~= all);
    assert(all.push(ConnectionAnswer::Next(Polled::Ready(None))).drop_last() =~= all);
}

/// A failure to flush ends a flush, and the flush of a close, with a failure.
pub proof fn law_failed_flush_ends<I, E>(state: SinkView<I, E>, closing: bool, err: E)
    ensures
        after_answer(
            state,
            SinkAction::PollFlush { closing },
            ConnectionAnswer::Flushed(Polled::Ready(Err(err))),
        ) == (state.send_result(Err(err)), SinkAction::Return(Polled::Ready(Err(())))),
{
}

/// A close closes the connection at once exactly when no request waits, and else flushes it
/// first. Its outcome is what the connection says to that; a failure is the response to the
/// oldest request, if one still waits.
pub proof fn law_close_ends_as_the_connection_does<I, E>(state: SinkView<I, E>, err: E)
    ensures
        state.in_flight.len() == 0 ==> close_action(state) == SinkAction::PollClose,
        state.in_flight.len() > 0 ==> close_action(state) == (SinkAction::PollFlush {
            closing: true,
        }),
        after_answer(
            state,
            SinkAction::PollClose,
            ConnectionAnswer::<I, E>::Closed(Polled::Pending),
        ) == (state, SinkAction::Return(Polled::Pending)),
        after_answer(
            state,
            SinkAction::PollClose,
            ConnectionAnswer::<I, E>::Closed(Polled::Ready(Ok(()))),
        ) == (state, SinkAction::Return(Polled::Ready(Ok(())))),
        after_answer(
            state,
            SinkAction::PollClose,
            ConnectionAnswer::Closed(Polled::Ready(Err(err))),
        ) == (state.send_result(Err(err)), SinkAction::Return(Polled::Ready(Err(())))),
{
}

/// What the connection gives meets the requests as they are once all that was written has gone
/// out, and leaves them so: it does what `send_result` does, between two flushes.
pub proof fn law_replies_come_after_a_flush<I, E>(state: SinkView<I, E>, result: Result<I, E>)
    ensures
        state.poll_read(Polled::Ready(Some(result))) == state.poll_flush(
            Polled::Ready(Ok(())),
        ).send_result(result).poll_flush(Polled::Ready(Ok(()))),
{
}

} // verus!
