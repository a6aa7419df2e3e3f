//! The way back: the channel that a response goes through, and a record of what went.

use tokio::sync::oneshot;
use vstd::prelude::*;

verus! {

/// The sending half of a one-shot channel of tokio. Its value is opaque here.
#[verifier::external_type_specification]
#[verifier::external_body]
#[verifier::reject_recursive_types(T)]
pub struct ExOneshotSender<T>(oneshot::Sender<T>);

/// The receiving half of a one-shot channel of tokio. Its value is opaque here.
#[verifier::external_type_specification]
#[verifier::external_body]
#[verifier::reject_recursive_types(T)]
pub struct ExOneshotReceiver<T>(oneshot::Receiver<T>);

/// What the receiving half of a one-shot channel of tokio gives when the sending half was
/// dropped and nothing was sent. It holds nothing else.
#[verifier::external_type_specification]
#[verifier::external_body]
pub struct ExRecvError(oneshot::error::RecvError);

/// Where the result of a single request is sent.
#[verifier::reject_recursive_types(O)]
#[verifier::reject_recursive_types(E)]
pub struct PipelineOutput<O, E> {
    sender: oneshot::Sender<Result<Vec<O>, E>>,
    /// A number that stands for the channel.
    channel: Ghost<int>,
}

/// Where the result of a single request comes out.
#[verifier::reject_recursive_types(O)]
#[verifier::reject_recursive_types(E)]
pub struct ResponseReceiver<O, E> {
    receiver: oneshot::Receiver<Result<Vec<O>, E>>,
    /// A number that stands for the channel.
    channel: Ghost<int>,
}

impl<O, E> PipelineOutput<O, E> {
    /// The channel that this is a half of.
    pub closed spec fn channel(self) -> int {
        self.channel@
    }
}

impl<O, E> ResponseReceiver<O, E> {
    /// The channel that this is a half of.
    pub closed spec fn channel(self) -> int {
        self.channel@
    }

    /// The half as tokio has it, to wait for the response.
    pub closed spec fn inner(self) -> oneshot::Receiver<Result<Vec<O>, E>> {
        self.receiver
    }

    /// Gives the half as tokio has it, to wait for the response.
    pub fn into_inner(self) -> (receiver: oneshot::Receiver<Result<Vec<O>, E>>)
        ensures
            receiver == self.inner(),
    {
        self.receiver
    }
}

/// Makes a channel with `tokio::sync::oneshot::channel` and gives its two halves: they are
/// halves of the same channel. Which number stands for it is kept from the rest of the crate,
/// so that halves of two channels cannot be taken for halves of one.
#[verifier::external_body]
pub(crate) fn channel<O, E>() -> (halves: (PipelineOutput<O, E>, ResponseReceiver<O, E>))
    ensures
        halves.0.channel() == halves.1.channel(),
{
    let (sender, receiver) = oneshot::channel();
    (
        PipelineOutput { sender, channel: Ghost(0) },
        ResponseReceiver { receiver, channel: Ghost(0) },
    )
}

/// A response, as a mathematical value.
pub open spec fn response_view<O, E>(response: Result<Vec<O>, E>) -> Result<Seq<O>, E> {
    match response {
        Ok(values) => Ok(values@),
        Err(err) => Err(err),
    }
}

/// One response that was handed to the output of a request.
#[verifier::ext_equal]
#[verifier::reject_recursive_types(O)]
#[verifier::reject_recursive_types(E)]
pub struct Sent<O, E> {
    pub output: PipelineOutput<O, E>,
    pub response: Result<Seq<O>, E>,
}

/// Hands responses to the outputs of requests. It keeps a record of them.
#[verifier::reject_recursive_types(O)]
#[verifier::reject_recursive_types(E)]
pub struct Outbox<O, E> {
    sent: Ghost<Seq<Sent<O, E>>>,
}

impl<O, E> Outbox<O, E> {
    /// All responses that were handed over, in their order.
    pub closed spec fn sent(self) -> Seq<Sent<O, E>> {
        self.sent@
    }

    /// An outbox that has handed over nothing.
    pub fn new() -> (outbox: Self)
        ensures
            outbox.sent() == Seq::<Sent<O, E>>::empty(),
    {
        Outbox { sent: Ghost(Seq::empty()) }
    }

    /// Hands `response` to `output` with `tokio::sync::oneshot::Sender::send`, which uses
    /// `output` up and never waits. The record grows by what was handed over; nothing else
    /// makes it grow. Where the receiver was dropped, `send` gives the response back: nobody
    /// cares about it then, and it is dropped too. Whether that happened is not said.
    #[verifier::external_body]
    pub(crate) fn respond(&mut self, output: PipelineOutput<O, E>, response: Result<Vec<O>, E>)
        ensures
            final(self).sent() == old(self).sent().push(
                (Sent { output, response: response_view(response) }),
            ),
    {
        let _ = output.sender.send(response);
    }
}

} // verus!
