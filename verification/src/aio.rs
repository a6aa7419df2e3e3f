//! Connections: one that is used by one caller at a time, and one that many callers share.

use vstd::prelude::*;

use crate::cmd::{Cmd, Pipeline};
use crate::connection::ConnectionInfo;
use crate::parser::{is_taken, Decoder};
use crate::pipeline::{send, send_recv_multiple, PipelineMessage};
use crate::response::{response_view, ResponseReceiver};
use crate::types::{IoError, IoErrorKind, RedisError, RedisResult, Value};

verus! {

/// What is sent to the server for a request, and what of its replies the caller gets: the
/// first `offset` are passed over, the next `count` are handed out.
pub struct RequestView {
    pub packed: Seq<u8>,
    pub offset: nat,
    pub count: nat,
}

/// An abstraction over connections. A request is begun here; what it begins says what is to
/// be sent and what is to be done with the replies.
pub trait ConnectionLike: Sized {
    /// A request that was begun.
    type Exchange;

    /// The database that the connection is bound to.
    spec fn db(&self) -> i64;

    /// A request that was begun on this connection, as a mathematical value.
    spec fn request(&self, exchange: Self::Exchange) -> RequestView;

    /// Whether the replies to pass over and to hand out can be counted together.
    spec fn can_count(offset: usize, count: usize) -> bool;

    /// Begins to send a command and to read the single response to it.
    fn req_packed_command(&mut self, cmd: &Cmd) -> (exchange: Self::Exchange)
        ensures
            final(self).request(exchange) == (RequestView {
                packed: crate::cmd::packed_command(cmd@),
                offset: 0,
                count: 1,
            }),
            final(self).db() == old(self).db(),
    ;

    /// Begins to send multiple commands and to read `count` responses to them, after
    /// `offset` that are passed over. This is used to implement pipelining.
    fn req_packed_commands(&mut self, cmd: &Pipeline, offset: usize, count: usize) -> (exchange:
        Self::Exchange)
        requires
            Self::can_count(offset, count),
        ensures
            final(self).request(exchange) == (RequestView {
                packed: crate::cmd::packed_pipeline(cmd@),
                offset: offset as nat,
                count: count as nat,
            }),
            final(self).db() == old(self).db(),
    ;

    /// Returns the database this connection is bound to. Note that this information might be
    /// unreliable because it's initially cached and also might be incorrect if the connection
    /// like object is not actually connected.
    fn get_db(&self) -> (db: i64)
        ensures
            db == self.db(),
    ;
}

/// Replies that are still to be read, as a mathematical value.
#[verifier::ext_equal]
pub struct RepliesView {
    /// How many more are to be passed over.
    pub offset: nat,
    /// How many more are to be handed out, after those.
    pub count: nat,
    /// Those to hand out that were read.
    pub values: Seq<Value>,
}

/// What is to be done next to read replies, as a mathematical value.
#[verifier::ext_equal]
pub enum ReadStepView {
    Read(RepliesView),
    Done(Result<Seq<Value>, RedisError>),
}

impl RepliesView {
    /// Reading goes on while replies are missing.
    pub open spec fn next(self) -> ReadStepView {
        if self.offset == 0 && self.count == 0 {
            ReadStepView::Done(Ok(self.values))
        } else {
            ReadStepView::Read(self)
        }
    }

    /// What follows a reply. A failure ends the reading.
    pub open spec fn replied(self, reply: RedisResult<Value>) -> ReadStepView {
        match reply {
            Err(err) => ReadStepView::Done(Err(err)),
            Ok(value) => if self.offset > 0 {
                RepliesView { offset: (self.offset - 1) as nat, ..self }.next()
            } else {
                RepliesView {
                    count: (self.count - 1) as nat,
                    values: self.values.push(value),
                    ..self
                }.next()
            },
        }
    }
}

/// Replies that are still to be read. There is always one missing.
pub struct Replies {
    offset: usize,
    count: usize,
    values: Vec<Value>,
}

impl View for Replies {
    type V = RepliesView;

    closed spec fn view(&self) -> RepliesView {
        RepliesView {
            offset: self.offset as nat,
            count: self.count as nat,
            values: self.values@,
        }
    }
}

/// What is to be done next to read replies.
pub enum ReadStep {
    /// Read a reply, and hand it to `replied`.
    Read(Replies),
    /// It is over, with this outcome.
    Done(RedisResult<Vec<Value>>),
}

impl View for ReadStep {
    type V = ReadStepView;

    open spec fn view(&self) -> ReadStepView {
        match *self {
            ReadStep::Read(replies) => ReadStepView::Read(replies@),
            ReadStep::Done(Ok(values)) => ReadStepView::Done(Ok(values@)),
            ReadStep::Done(Err(err)) => ReadStepView::Done(Err(err)),
        }
    }
}

impl Replies {
    #[verifier::type_invariant]
    spec fn one_is_missing(self) -> bool {
        self.offset > 0 || self.count > 0
    }

    fn next(offset: usize, count: usize, values: Vec<Value>) -> (step: ReadStep)
        ensures
            step@ == (RepliesView {
                offset: offset as nat,
                count: count as nat,
                values: values@,
            }).next(),
    {
        if offset == 0 && count == 0 {
            ReadStep::Done(Ok(values))
        } else {
            ReadStep::Read(Replies { offset, count, values })
        }
    }

    /// Takes a reply.
    pub fn replied(self, reply: RedisResult<Value>) -> (step: ReadStep)
        ensures
            step@ == self@.replied(reply),
    {
        proof {
            use_type_invariant(&self);
        }
        let Replies { offset, count, mut values } = self;
        match reply {
            Err(err) => ReadStep::Done(Err(err)),
            Ok(value) => if offset > 0 {
                Replies::next(offset - 1, count, values)
            } else {
                values.push(value);
                Replies::next(offset, count - 1, values)
            },
        }
    }
}

/// What follows on a connection of its own once it was asked to write a request that passes
/// over `offset` replies and hands out `count`.
pub open spec fn after_write(
    offset: nat,
    count: nat,
    written: Result<(), IoError>,
) -> ReadStepView {
    match written {
        Err(err) => ReadStepView::Done(Err(RedisError::IoError(err))),
        Ok(_) => (RepliesView { offset, count, values: Seq::empty() }).next(),
    }
}

/// A request that was begun on a connection of its own.
pub struct Exchange {
    offset: usize,
    count: usize,
}

impl Exchange {
    /// The replies to pass over.
    pub closed spec fn offset(self) -> nat {
        self.offset as nat
    }

    /// The replies to hand out.
    pub closed spec fn count(self) -> nat {
        self.count as nat
    }

    /// Learns whether the packed request was written.
    pub fn written(self, written: Result<(), IoError>) -> (step: ReadStep)
        ensures
            step@ == after_write(self.offset(), self.count(), written),
    {
        match written {
            Err(err) => ReadStep::Done(Err(RedisError::IoError(err))),
            Ok(()) => {
                let values: Vec<Value> = Vec::new();
                Replies::next(self.offset, self.count, values)
            },
        }
    }
}

/// What is to be done next to read the response to a request.
pub enum ResponseStep {
    /// Receive bytes from the socket, and hand them to `received`.
    Receive,
    /// This is the response.
    Done(RedisResult<Value>),
}

/// Whether `step` is what follows when `bytes` have come in and wait, and `rest` of them wait
/// behind it: the first response in them, if there is one.
pub open spec fn is_response(bytes: Seq<u8>, step: ResponseStep, rest: Seq<u8>) -> bool {
    match step {
        ResponseStep::Receive => is_taken(bytes, Ok(None), rest),
        ResponseStep::Done(response) => {
            ||| is_taken(bytes, Ok(Some(response)), rest)
            ||| response matches Err(err) && is_taken(bytes, Err(err), rest)
        },
    }
}

/// A stateful connection, without the socket.
pub struct Connection {
    buf: Vec<u8>,
    decoder: Decoder,
    db: i64,
}

impl Connection {
    /// The bytes of the last request that was begun.
    pub closed spec fn buf(self) -> Seq<u8> {
        self.buf@
    }

    /// The bytes that came in and wait to be read.
    pub closed spec fn incoming(self) -> Seq<u8> {
        self.decoder@
    }

    /// A connection on which no request was begun and nothing came in.
    pub fn new(connection_info: &ConnectionInfo) -> (con: Self)
        ensures
            con.buf() == Seq::<u8>::empty(),
            con.incoming() == Seq::<u8>::empty(),
            con.db() == connection_info.db,
    {
        Connection { buf: Vec::new(), decoder: Decoder::new(), db: connection_info.db }
    }

    /// The bytes to write for the last request that was begun.
    pub fn packed(&self) -> (packed: &[u8])
        ensures
            packed@ == self.buf(),
    {
        self.buf.as_slice()
    }

    /// Begins to read the response to a request.
    pub fn read_response(&mut self) -> (step: ResponseStep)
        ensures
            is_response(old(self).incoming(), step, final(self).incoming()),
            final(self).buf() == old(self).buf(),
            final(self).db() == old(self).db(),
    {
        match self.decoder.take_reply() {
            Err(err) => ResponseStep::Done(Err(err)),
            Ok(None) => ResponseStep::Receive,
            Ok(Some(response)) => ResponseStep::Done(response),
        }
    }

    /// Goes on to read the response, with what the socket gave. That it gave no bytes means
    /// that it has ended.
    pub fn received(&mut self, bytes: Result<&[u8], IoError>) -> (step: ResponseStep)
        ensures
            match bytes {
                Err(err) => {
                    &&& step == ResponseStep::Done(Err(RedisError::IoError(err)))
                    &&& final(self).incoming() == old(self).incoming()
                },
                Ok(bytes) => if bytes@.len() == 0 {
                    &&& step == ResponseStep::Done(Err(crate::types::unexpected_eof()))
                    &&& final(self).incoming() == old(self).incoming()
                } else {
                    is_response(old(self).incoming() + bytes@, step, final(self).incoming())
                },
            },
            final(self).buf() == old(self).buf(),
            final(self).db() == old(self).db(),
    {
        match bytes {
            Err(err) => ResponseStep::Done(Err(RedisError::IoError(err))),
            Ok(bytes) => if bytes.len() == 0 {
                ResponseStep::Done(
                    Err(
                        RedisError::IoError(
                            IoError { kind: IoErrorKind::UnexpectedEof, detail: None },
                        ),
                    ),
                )
            } else {
                self.decoder.fill(bytes);
                self.read_response()
            },
        }
    }
}

impl ConnectionLike for Connection {
    type Exchange = Exchange;

    closed spec fn db(&self) -> i64 {
        self.db
    }

    open spec fn request(&self, exchange: Exchange) -> RequestView {
        RequestView { packed: self.buf(), offset: exchange.offset(), count: exchange.count() }
    }

    open spec fn can_count(offset: usize, count: usize) -> bool {
        true
    }

    fn req_packed_command(&mut self, cmd: &Cmd) -> (exchange: Exchange)
        ensures
            final(self).incoming() == old(self).incoming(),
            final(self).buf() == crate::cmd::packed_command(cmd@),
            exchange.offset() == 0,
            exchange.count() == 1,
    {
        self.buf.clear();
        cmd.write_packed_command(&mut self.buf);
        assert(self.buf@ =~= crate::cmd::packed_command(cmd@));
        Exchange { offset: 0, count: 1 }
    }

    fn req_packed_commands(&mut self, cmd: &Pipeline, offset: usize, count: usize) -> (exchange:
        Exchange)
        ensures
            final(self).incoming() == old(self).incoming(),
            final(self).buf() == crate::cmd::packed_pipeline(cmd@),
            exchange.offset() == offset,
            exchange.count() == count,
    {
        self.buf.clear();
        cmd.write_packed_pipeline(&mut self.buf);
        assert(self.buf@ =~= crate::cmd::packed_pipeline(cmd@));
        Exchange { offset, count }
    }

    fn get_db(&self) -> (db: i64) {
        self.db
    }
}

/// A request that was begun on a connection that is shared.
pub struct MultiplexedExchange {
    /// What goes into the pipeline.
    pub message: PipelineMessage<Vec<u8>, Value, RedisError>,
    /// Where its response comes from.
    pub receiver: ResponseReceiver<Value, RedisError>,
    /// The replies in the response to pass over.
    pub offset: usize,
}

/// A connection which can be copied, so that requests can be sent concurrently on the same
/// underlying connection; without its handle on the pipeline.
#[derive(Clone, Copy)]
pub struct MultiplexedConnection {
    db: i64,
}

/// The failure that a caller gets for one of the pipeline, `None` being that it has shut
/// down.
pub open spec fn pipeline_failure(err: Option<RedisError>) -> RedisError {
    match err {
        Some(err) => err,
        None => crate::types::broken_pipe(),
    }
}

/// The outcome of multiple commands, from their outcome in the pipeline: the first `offset`
/// responses are passed over.
pub open spec fn commands_result(
    outcome: Result<Seq<Value>, Option<RedisError>>,
    offset: nat,
) -> Result<Seq<Value>, RedisError> {
    match outcome {
        Ok(values) => Ok(values.skip(offset as int)),
        Err(err) => Err(pipeline_failure(err)),
    }
}

impl MultiplexedConnection {
    /// A shared connection that is bound to the database of `connection_info`.
    pub fn new(connection_info: &ConnectionInfo) -> (con: Self)
        ensures
            con.db() == connection_info.db,
    {
        MultiplexedConnection { db: connection_info.db }
    }

    /// The failure that a caller gets for one of the pipeline.
    fn failure(err: Option<RedisError>) -> (r: RedisError)
        ensures
            r == pipeline_failure(err),
    {
        match err {
            Some(err) => err,
            None => RedisError::IoError(IoError { kind: IoErrorKind::BrokenPipe, detail: None }),
        }
    }

    /// The outcome of a command, from its outcome in the pipeline.
    pub fn command_outcome(outcome: Result<Value, Option<RedisError>>) -> (r: RedisResult<Value>)
        ensures
            r == (match outcome {
                Ok(value) => Ok(value),
                Err(err) => Err(pipeline_failure(err)),
            }),
    {
        match outcome {
            Ok(value) => Ok(value),
            Err(err) => Err(MultiplexedConnection::failure(err)),
        }
    }

    /// The outcome of multiple commands, from their outcome in the pipeline: the first
    /// `offset` responses are passed over.
    pub fn commands_outcome(
        outcome: Result<Vec<Value>, Option<RedisError>>,
        offset: usize,
    ) -> (r: RedisResult<Vec<Value>>)
        requires
            outcome matches Ok(values) ==> offset <= values@.len(),
        ensures
            response_view(r) == commands_result(response_view(outcome), offset as nat),
    {
        match outcome {
            Ok(mut values) => {
                let ghost all = values@;
                let rest = values.split_off(offset);
                assert(rest@ =~= all.skip(offset as int));
                Ok(rest)
            },
            Err(err) => Err(MultiplexedConnection::failure(err)),
        }
    }
}

impl ConnectionLike for MultiplexedConnection {
    type Exchange = MultiplexedExchange;

    closed spec fn db(&self) -> i64 {
        self.db
    }

    open spec fn request(&self, exchange: MultiplexedExchange) -> RequestView {
        RequestView {
            packed: exchange.message.input@,
            offset: exchange.offset as nat,
            count: (exchange.message.response_count - exchange.offset) as nat,
        }
    }

    open spec fn can_count(offset: usize, count: usize) -> bool {
        offset + count <= usize::MAX
    }

    fn req_packed_command(&mut self, cmd: &Cmd) -> (exchange: MultiplexedExchange)
        ensures
            exchange.message.input@ == crate::cmd::packed_command(cmd@),
            exchange.message.response_count == 1,
            exchange.offset == 0,
            exchange.receiver.channel() == exchange.message.output.channel(),
    {
        let (message, receiver) = send(cmd.get_packed_command());
        MultiplexedExchange { message, receiver, offset: 0 }
    }

    fn req_packed_commands(&mut self, cmd: &Pipeline, offset: usize, count: usize) -> (exchange:
        MultiplexedExchange)
        ensures
            exchange.message.input@ == crate::cmd::packed_pipeline(cmd@),
            exchange.message.response_count == offset + count,
            exchange.offset == offset,
            exchange.receiver.channel() == exchange.message.output.channel(),
    {
        let (message, receiver) = send_recv_multiple(cmd.get_packed_pipeline(), offset + count);
        MultiplexedExchange { message, receiver, offset }
    }

    fn get_db(&self) -> (db: i64) {
        self.db
    }
}

} // verus!
