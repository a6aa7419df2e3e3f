//! The request pipeline: requests go out one after another on one connection, and each
//! reply that comes in belongs to the oldest request that still waits.

use std::collections::VecDeque;
use tokio::sync::oneshot;
use vstd::prelude::*;

use crate::response::{channel, Outbox, PipelineOutput, ResponseReceiver, Sent};
use crate::types::Polled;

verus! {

/// How many messages may wait for the connection before those who bring more have to wait.
pub const BUFFER_SIZE: usize = 50;

/// A request that was written to the connection and waits for its replies.
#[verifier::reject_recursive_types(O)]
#[verifier::reject_recursive_types(E)]
pub struct InFlight<O, E> {
    output: PipelineOutput<O, E>,
    response_count: usize,
    buffer: Vec<O>,
}

/// A waiting request, as a mathematical value.
#[verifier::ext_equal]
#[verifier::reject_recursive_types(O)]
#[verifier::reject_recursive_types(E)]
pub struct InFlightView<O, E> {
    /// Where its response goes.
    pub output: PipelineOutput<O, E>,
    /// How many replies it asked for.
    pub response_count: nat,
    /// The replies that came for it so far.
    pub buffer: Seq<O>,
}

impl<O, E> View for InFlight<O, E> {
    type V = InFlightView<O, E>;

    closed spec fn view(&self) -> InFlightView<O, E> {
        InFlightView {
            output: self.output,
            response_count: self.response_count as nat,
            buffer: self.buffer@,
        }
    }
}

/// A single message sent through the pipeline.
#[verifier::reject_recursive_types(I)]
#[verifier::reject_recursive_types(E)]
pub struct PipelineMessage<S, I, E> {
    /// What is written to the connection.
    pub input: S,
    /// Where the response goes.
    pub output: PipelineOutput<I, E>,
    /// How many replies the message asks for.
    pub response_count: usize,
}

/// The state of a pipeline sink, as a mathematical value.
#[verifier::ext_equal]
#[verifier::reject_recursive_types(I)]
#[verifier::reject_recursive_types(E)]
pub struct SinkView<I, E> {
    /// The waiting requests, the oldest first.
    pub in_flight: Seq<InFlightView<I, E>>,
    /// The failure of the connection that the next message will be answered with.
    pub error: Option<E>,
    /// All responses that were sent, in the order in which they were sent.
    pub sent: Seq<Sent<I, E>>,
}

impl<I, E> SinkView<I, E> {
    /// Every waiting request still lacks a reply, unless it asks for none, and none but the
    /// oldest has any.
    pub open spec fn wf(self) -> bool {
        &&& forall|i: int|
            0 <= i < self.in_flight.len() ==> {
                ||| (#[trigger] self.in_flight[i]).buffer.len() < self.in_flight[i].response_count
                ||| self.in_flight[i].buffer.len() == 0 && self.in_flight[i].response_count == 0
            }
        &&& forall|i: int|
            1 <= i < self.in_flight.len() ==> (#[trigger] self.in_flight[i]).buffer.len() == 0
    }

    /// The state after `response` was sent to `output`.
    pub open spec fn respond(
        self,
        output: PipelineOutput<I, E>,
        response: Result<Seq<I>, E>,
    ) -> Self {
        SinkView { sent: self.sent.push(Sent { output, response }), ..self }
    }

    /// The state after the oldest request was answered with `response`.
    pub open spec fn answer_oldest(self, response: Result<Seq<I>, E>) -> Self {
        SinkView { in_flight: self.in_flight.drop_first(), ..self }.respond(
            self.in_flight[0].output,
            response,
        )
    }

    /// The state after `result` came in. It belongs to the oldest request, and is dropped
    /// where none waits. A failure answers that request at once; a reply answers it when it
    /// was the last one asked for.
    pub open spec fn send_result(self, result: Result<I, E>) -> Self {
        if self.in_flight.len() == 0 {
            self
        } else {
            let oldest = self.in_flight[0];
            match result {
                Err(err) => self.answer_oldest(Err(err)),
                Ok(item) => if oldest.buffer.len() + 1 < oldest.response_count {
                    let grown = InFlightView { buffer: oldest.buffer.push(item), ..oldest };
                    SinkView { in_flight: self.in_flight.update(0, grown), ..self }
                } else {
                    self.answer_oldest(Ok(oldest.buffer.push(item)))
                },
            }
        }
    }

    /// The state after the connection said whether it can take a message. A failure is kept
    /// for the next message.
    pub open spec fn poll_ready(self, ready: Polled<Result<(), E>>) -> Self {
        match ready {
            Polled::Ready(Err(err)) => SinkView { error: Some(err), ..self },
            _ => self,
        }
    }

    /// The state after a message for `output` was brought. A failure that was kept answers
    /// it, and is kept no longer.
    pub open spec fn start_send(self, output: PipelineOutput<I, E>) -> Self {
        match self.error {
            Some(err) => SinkView { error: None, ..self }.respond(output, Err(err)),
            None => self,
        }
    }

    /// The state after the connection took a message for `output`, or failed to. It waits
    /// from then on, even if it asks for no reply: the connection has yet to write it out.
    pub open spec fn start_sent(
        self,
        output: PipelineOutput<I, E>,
        response_count: nat,
        taken: Result<(), E>,
    ) -> Self {
        match taken {
            Ok(()) => SinkView {
                in_flight: self.in_flight.push(
                    InFlightView { output, response_count, buffer: Seq::empty() },
                ),
                ..self
            },
            Err(err) => self.respond(output, Err(err)),
        }
    }

    /// The state after the requests that ask for no reply, and have none before them that
    /// asks for one, were answered with an empty list.
    pub open spec fn settle(self) -> Self
        decreases self.in_flight.len(),
    {
        if self.in_flight.len() > 0 && self.in_flight[0].response_count == 0 {
            self.answer_oldest(Ok(Seq::empty())).settle()
        } else {
            self
        }
    }

    /// The state after the connection said whether all that was written has gone out. If so,
    /// requests for no reply have nothing left to wait for but their turn. A failure answers
    /// the oldest request.
    pub open spec fn poll_flush(self, flushed: Polled<Result<(), E>>) -> Self {
        match flushed {
            Polled::Pending => self,
            Polled::Ready(Err(err)) => self.send_result(Err(err)),
            Polled::Ready(Ok(_)) => self.settle(),
        }
    }

    /// The state after the connection gave `result`. As it is asked for replies only when
    /// all that was written has gone out, requests for no reply do not take it.
    pub open spec fn take_in(self, result: Result<I, E>) -> Self {
        self.settle().send_result(result).settle()
    }

    /// The state after the connection was asked for a reply.
    pub open spec fn poll_read(self, next: Polled<Option<Result<I, E>>>) -> Self {
        match next {
            Polled::Ready(Some(result)) => self.take_in(result),
            _ => self,
        }
    }

    /// The state after the connection gave `results`, one after another.
    pub open spec fn take_in_all(self, results: Seq<Result<I, E>>) -> Self
        decreases results.len(),
    {
        if results.len() == 0 {
            self
        } else {
            self.take_in_all(results.drop_last()).take_in(results.last())
        }
    }

    /// The state after the connection said whether it has closed. A failure answers the
    /// oldest request.
    pub open spec fn closed(self, closed: Polled<Result<(), E>>) -> Self {
        match closed {
            Polled::Ready(Err(err)) => self.send_result(Err(err)),
            _ => self,
        }
    }
}

/// What is to be done next to bring a flush, or a close, of the sink to its end.
#[derive(Debug, PartialEq, Eq)]
pub enum SinkAction {
    /// Flush the connection, and hand the outcome to `poll_flush`.
    PollFlush {
        /// Whether this is part of a close.
        closing: bool,
    },
    /// Ask the connection for a reply, and hand what it gave to `poll_read`.
    PollNext {
        /// Whether this is part of a close.
        closing: bool,
    },
    /// Close the connection, and hand the outcome to `closed`.
    PollClose,
    /// The flush or the close is over for now, with this result.
    Return(Polled<Result<(), ()>>),
}

/// A message on its way: `input` goes to the connection, and `pending`, with the outcome of
/// that, to `start_sent`.
#[verifier::reject_recursive_types(I)]
#[verifier::reject_recursive_types(E)]
pub struct Forward<S, I, E> {
    pub input: S,
    pub pending: Pending<I, E>,
}

/// A request whose input the connection has yet to take.
#[verifier::reject_recursive_types(I)]
#[verifier::reject_recursive_types(E)]
pub struct Pending<I, E> {
    pub output: PipelineOutput<I, E>,
    pub response_count: usize,
}

/// What a close begins with. No new requests will come in after the first close, but those
/// in progress are completed before closing.
pub open spec fn close_action<I, E>(state: SinkView<I, E>) -> SinkAction {
    if state.in_flight.len() == 0 {
        SinkAction::PollClose
    } else {
        SinkAction::PollFlush { closing: true }
    }
}

/// What follows once the connection was asked to flush.
pub open spec fn action_after_flush<E>(
    closing: bool,
    flushed: Polled<Result<(), E>>,
) -> SinkAction {
    match flushed {
        Polled::Pending => SinkAction::Return(Polled::Pending),
        Polled::Ready(Err(_)) => SinkAction::Return(Polled::Ready(Err(()))),
        Polled::Ready(Ok(_)) => SinkAction::PollNext { closing },
    }
}

/// What follows once the connection was asked for a reply. At the end of the replies a close
/// goes on to close the connection; a flush fails, so that whoever drives the sink stops.
pub open spec fn action_after_read<I, E>(
    closing: bool,
    next: Polled<Option<Result<I, E>>>,
) -> SinkAction {
    match next {
        Polled::Pending => SinkAction::Return(Polled::Pending),
        Polled::Ready(Some(_)) => SinkAction::PollNext { closing },
        Polled::Ready(None) => if closing {
            SinkAction::PollClose
        } else {
            SinkAction::Return(Polled::Ready(Err(())))
        },
    }
}

/// An outcome of the connection without the failure itself.
pub open spec fn outcome_only<E>(outcome: Polled<Result<(), E>>) -> Polled<Result<(), ()>> {
    match outcome {
        Polled::Pending => Polled::Pending,
        Polled::Ready(Ok(_)) => Polled::Ready(Ok(())),
        Polled::Ready(Err(_)) => Polled::Ready(Err(())),
    }
}

/// Wrapper around a connection where each message written results in one or more replies
/// (the number is specified at time of sending). It keeps the requests that wait and sends
/// each its response. A message that asks for no reply waits until it has gone out.
#[verifier::reject_recursive_types(I)]
#[verifier::reject_recursive_types(E)]
pub struct PipelineSink<I, E> {
    in_flight: VecDeque<InFlight<I, E>>,
    error: Option<E>,
    outbox: Outbox<I, E>,
}

impl<I, E> View for PipelineSink<I, E> {
    type V = SinkView<I, E>;

    closed spec fn view(&self) -> SinkView<I, E> {
        SinkView {
            in_flight: self.in_flight@.map_values(|entry: InFlight<I, E>| entry@),
            error: self.error,
            sent: self.outbox.sent(),
        }
    }
}

impl<I, E> PipelineSink<I, E> {
    /// A sink in which no request waits.
    pub fn new() -> (sink: Self)
        ensures
            sink@ == (SinkView::<I, E> {
                in_flight: Seq::empty(),
                error: None,
                sent: Seq::empty(),
            }),
            sink@.wf(),
    {
        let sink = PipelineSink {
            in_flight: VecDeque::new(),
            error: None,
            outbox: Outbox::new(),
        };
        assert(sink@.in_flight =~= Seq::empty());
        sink
    }

    /// Hands what the connection gave to the oldest request and, where that completes it, sends
    /// the response back to the caller. Before a reply is handed out by `poll_read`, requests
    /// that ask for none have left.
    pub fn send_result(&mut self, result: Result<I, E>)
        ensures
            final(self)@ == old(self)@.send_result(result),
            old(self)@.wf() ==> final(self)@.wf(),
    {
        let mut entry = match self.in_flight.pop_front() {
            Some(entry) => entry,
            None => {
                return;
            },
        };
        let ghost rest = self.in_flight@;
        assert(rest.map_values(|entry: InFlight<I, E>| entry@) =~= old(
            self,
        )@.in_flight.drop_first());
        let response = match result {
            Ok(item) => {
                entry.buffer.push(item);
                if entry.response_count > entry.buffer.len() {
                    // Need to gather more replies
                    self.in_flight.push_front(entry);
                    assert(self@.in_flight =~= old(self)@.in_flight.update(0, entry@));
                    return;
                }
                Ok(entry.buffer)
            },
            // If we fail we must respond immediately
            Err(err) => Err(err),
        };
        self.outbox.respond(entry.output, response);
    }

    /// Learns whether the connection can take a message. A failure does not show here: the
    /// next message is answered with it.
    pub fn poll_ready(&mut self, ready: Polled<Result<(), E>>) -> (r: Polled<Result<(), ()>>)
        ensures
            final(self)@ == old(self)@.poll_ready(ready),
            r == (if ready is Pending {
                Polled::<Result<(), ()>>::Pending
            } else {
                Polled::<Result<(), ()>>::Ready(Ok(()))
            }),
            old(self)@.wf() ==> final(self)@.wf(),
    {
        match ready {
            Polled::Pending => Polled::Pending,
            Polled::Ready(Ok(())) => Polled::Ready(Ok(())),
            Polled::Ready(Err(err)) => {
                self.error = Some(err);
                Polled::Ready(Ok(()))
            },
        }
    }

    /// Takes a message. Its input goes to the connection, unless there is a failure that it
    /// is answered with.
    pub fn start_send<S>(&mut self, message: PipelineMessage<S, I, E>) -> (r: Result<
        Forward<S, I, E>,
        (),
    >)
        ensures
            final(self)@ == old(self)@.start_send(message.output),
            r == (if old(self)@.error is Some {
                Err(())
            } else {
                Ok(
                    Forward {
                        input: message.input,
                        pending: Pending {
                            output: message.output,
                            response_count: message.response_count,
                        },
                    },
                )
            }),
            old(self)@.wf() ==> final(self)@.wf(),
    {
        let PipelineMessage { input, output, response_count } = message;
        if let Some(err) = self.error.take() {
            self.outbox.respond(output, Err(err));
            return Err(());
        }
        Ok(Forward { input, pending: Pending { output, response_count } })
    }

    /// Learns whether the connection took the input of a message. From then on the request
    /// waits for its replies, or, if it asked for none, until it has gone out; a failure is
    /// its response.
    pub fn start_sent(&mut self, pending: Pending<I, E>, taken: Result<(), E>) -> (r: Result<
        (),
        (),
    >)
        ensures
            final(self)@ == old(self)@.start_sent(
                pending.output,
                pending.response_count as nat,
                taken,
            ),
            r is Ok <==> taken is Ok,
            old(self)@.wf() ==> final(self)@.wf(),
    {
        let Pending { output, response_count } = pending;
        match taken {
            Ok(()) => {
                let entry = InFlight { output, response_count, buffer: Vec::new() };
                self.in_flight.push_back(entry);
                assert(entry@.buffer =~= Seq::empty());
                assert(self@.in_flight =~= old(self)@.in_flight.push(entry@));
                Ok(())
            },
            Err(err) => {
                self.outbox.respond(output, Err(err));
                Err(())
            },
        }
    }

    /// Answers the requests that ask for no reply and whose turn it is.
    fn settle(&mut self)
        ensures
            final(self)@ == old(self)@.settle(),
            old(self)@.wf() ==> final(self)@.wf(),
    {
        while self.in_flight.len() > 0 && self.in_flight[0].response_count == 0
            invariant
                self@.settle() == old(self)@.settle(),
                old(self)@.wf() ==> self@.wf(),
            decreases self.in_flight.len(),
        {
            let ghost before = self@;
            assert(before.in_flight[0] == self.in_flight@[0]@);
            if let Some(entry) = self.in_flight.pop_front() {
                assert(self@.in_flight =~= before.in_flight.drop_first());
                let values: Vec<I> = Vec::new();
                assert(values@ =~= Seq::empty());
                self.outbox.respond(entry.output, Ok(values));
                assert(self@ == before.answer_oldest(Ok(Seq::empty())));
            }
        }
        assert(self@.in_flight.len() > 0 ==> self@.in_flight[0] == self.in_flight@[0]@);
    }

    /// Learns how the flush of the connection went.
    pub fn poll_flush(&mut self, closing: bool, flushed: Polled<Result<(), E>>) -> (r: SinkAction)
        ensures
            final(self)@ == old(self)@.poll_flush(flushed),
            r == action_after_flush(closing, flushed),
            old(self)@.wf() ==> final(self)@.wf(),
    {
        match flushed {
            Polled::Pending => SinkAction::Return(Polled::Pending),
            Polled::Ready(Err(err)) => {
                self.send_result(Err(err));
                SinkAction::Return(Polled::Ready(Err(())))
            },
            Polled::Ready(Ok(())) => {
                self.settle();
                SinkAction::PollNext { closing }
            },
        }
    }

    /// Learns what the connection gave when it was asked for a reply.
    pub fn poll_read(&mut self, closing: bool, next: Polled<Option<Result<I, E>>>) -> (r:
        SinkAction)
        ensures
            final(self)@ == old(self)@.poll_read(next),
            r == action_after_read(closing, next),
            old(self)@.wf() ==> final(self)@.wf(),
    {
        match next {
            Polled::Pending => SinkAction::Return(Polled::Pending),
            Polled::Ready(Some(result)) => {
                self.settle();
                self.send_result(result);
                self.settle();
                SinkAction::PollNext { closing }
            },
            // The connection is not going to produce any more replies, so a flush fails to
            // break out of the forwarding of messages
            Polled::Ready(None) => if closing {
                SinkAction::PollClose
            } else {
                SinkAction::Return(Polled::Ready(Err(())))
            },
        }
    }

    /// Begins a close.
    pub fn poll_close(&self) -> (r: SinkAction)
        ensures
            r == close_action(self@),
    {
        if self.in_flight.len() == 0 {
            SinkAction::PollClose
        } else {
            SinkAction::PollFlush { closing: true }
        }
    }

    /// Learns how the close of the connection went.
    pub fn closed(&mut self, closed: Polled<Result<(), E>>) -> (r: SinkAction)
        ensures
            final(self)@ == old(self)@.closed(closed),
            r == SinkAction::Return(outcome_only(closed)),
            old(self)@.wf() ==> final(self)@.wf(),
    {
        match closed {
            Polled::Pending => SinkAction::Return(Polled::Pending),
            Polled::Ready(Ok(())) => SinkAction::Return(Polled::Ready(Ok(()))),
            Polled::Ready(Err(err)) => {
                self.send_result(Err(err));
                SinkAction::Return(Polled::Ready(Err(())))
            },
        }
    }
}

/// What became of a message that was given to the pipeline.
#[verifier::reject_recursive_types(I)]
#[verifier::reject_recursive_types(E)]
pub enum Reply<I, E> {
    /// The pipeline had shut down and did not take it.
    Unsent,
    /// This came from its receiver.
    Received(Result<Result<Vec<I>, E>, oneshot::error::RecvError>),
}

/// The outcome of a message. `None` means that the pipeline has shut down.
pub open spec fn reply_outcome<I, E>(reply: Reply<I, E>) -> Result<Vec<I>, Option<E>> {
    match reply {
        Reply::Received(Ok(Ok(values))) => Ok(values),
        Reply::Received(Ok(Err(err))) => Err(Some(err)),
        Reply::Received(Err(_)) => Err(None),
        Reply::Unsent => Err(None),
    }
}

/// A message with `input` that asks for `count` replies, and the receiver of its response.
pub fn send_recv_multiple<S, I, E>(input: S, count: usize) -> (r: (
    PipelineMessage<S, I, E>,
    ResponseReceiver<I, E>,
))
    ensures
        r.0.input == input,
        r.0.response_count == count,
        r.1.channel() == r.0.output.channel(),
{
    let (output, receiver) = channel();
    (PipelineMessage { input, output, response_count: count }, receiver)
}

/// A message with `input` that asks for one reply, and the receiver of its response. Its
/// outcome is the one reply out of what `received_multiple` gives: see `received_one`.
pub fn send<S, I, E>(input: S) -> (r: (PipelineMessage<S, I, E>, ResponseReceiver<I, E>))
    ensures
        r.0.input == input,
        r.0.response_count == 1,
        r.1.channel() == r.0.output.channel(),
{
    send_recv_multiple(input, 1)
}

/// The outcome of a message, from what became of it.
pub fn received_multiple<I, E>(reply: Reply<I, E>) -> (r: Result<Vec<I>, Option<E>>)
    ensures
        r == reply_outcome(reply),
{
    match reply {
        Reply::Received(Ok(Ok(values))) => Ok(values),
        Reply::Received(Ok(Err(err))) => Err(Some(err)),
        // The output was dropped, which likely means that the connection failed for one
        // reason or another
        Reply::Received(Err(_)) => Err(None),
        Reply::Unsent => Err(None),
    }
}

/// The outcome of a message that asked for one reply: the last of the replies.
pub open spec fn single_outcome<I, E>(outcome: Result<Vec<I>, E>) -> Result<I, E> {
    match outcome {
        Ok(values) => Ok(values@.last()),
        Err(err) => Err(err),
    }
}

/// The one reply out of the outcome of a message that asked for one.
pub fn received_one<I, E>(outcome: Result<Vec<I>, E>) -> (r: Result<I, E>)
    requires
        outcome matches Ok(values) ==> values@.len() > 0,
    ensures
        r == single_outcome(outcome),
{
    match outcome {
        Ok(mut values) => {
            let value = values.pop();
            Ok(value.unwrap())
        },
        Err(err) => Err(err),
    }
}

} // verus!
