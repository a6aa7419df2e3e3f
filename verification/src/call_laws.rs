//! What callers of the library can rely on, from what they hand to a function to what they get
//! back from it.

use vstd::prelude::*;

use crate::aio::{
    Connection, ConnectionLike, Exchange, MultiplexedConnection, MultiplexedExchange, ReadStep,
    ReadStepView, Replies, ResponseStep,
};
use crate::cmd::{cmd, Cmd, Pipeline};
use crate::connection::{
    auth_reply, authenticate, connect_simple, first_address, select_reply, ActualConnection,
    AsyncStd, AuthStep, AuthStepView, ConnectStep, ConnectionAddr, ConnectionInfo, Tokio,
};
use crate::connection_laws::{
    law_authentication_says_what_it_was_told, law_failed_write_ends_the_request,
    law_failure_ends_the_request, law_request_hands_out_its_replies,
    law_shared_outcome_is_passed_on, picks, read_after,
};
use crate::parser::{
    decode, integer, parse_reply, value_view, Decoder, ParseView, ReplyView, ValueView,
};
use crate::parser_laws::{
    all_data, law_packed_command_is_read_back, law_packed_pipeline_is_read_back,
    law_response_is_what_came_in, law_what_is_read_is_taken, law_written_numbers_are_read,
    reads_as,
};
use crate::pipeline::{
    received_multiple, received_one, send, send_recv_multiple, Forward, Pending, PipelineMessage,
    PipelineSink, Reply, SinkAction, BUFFER_SIZE,
};
use crate::pipeline_laws::all_ok;
use crate::response::ResponseReceiver;
use crate::types::{ErrorKind, IoError, IoErrorKind, Polled, RedisError, RedisResult, Value};

verus! {

/// A host is looked up by its name and port, and a unix socket is reached by its path; where
/// the platform has no unix sockets, that is refused.
pub proof fn law_servers_are_reached_where_they_listen(
    connection_info: ConnectionInfo,
    has_unix_sockets: bool,
    r: RedisResult<ConnectStep<'_>>,
)
    requires
        call_ensures(connect_simple, (&connection_info, has_unix_sockets), r),
    ensures
        match *connection_info.addr {
            ConnectionAddr::Tcp(name, number) => r matches Ok(step) && (
            step matches ConnectStep::Resolve { host, port } && *host == name && port == number),
            ConnectionAddr::Unix(place) => if has_unix_sockets {
                r matches Ok(step) && (step matches ConnectStep::ConnectUnix { path } && *path
                    == place)
            } else {
                r matches Err(err) && err == RedisError::WithDescription(
                    ErrorKind::InvalidClientConfig,
                    "Cannot connect to unix sockets on this platform",
                )
            },
        },
{
}

/// Of the addresses of a host the first one is used.
pub proof fn law_first_address_is_used<A>(resolved: Result<Vec<A>, IoError>, r: RedisResult<A>)
    requires
        call_ensures(first_address::<A>, (resolved,), r),
    ensures
        match resolved {
            Ok(addresses) => if addresses.len() > 0 {
                r == Ok::<A, RedisError>(addresses[0])
            } else {
                r matches Err(err) && err == RedisError::WithDescription(
                    ErrorKind::InvalidClientConfig,
                    "No address found for host",
                )
            },
            Err(err) => r == Err::<A, RedisError>(RedisError::IoError(err)),
        },
{
}

/// A connection is of the runtime and of the kind that it was made with, and is the one that
/// the attempt to connect gave; a failure of the attempt is passed on.
pub proof fn law_connections_are_what_was_made<TT, UT, TA, UA>(
    tcp_tokio: Result<TT, IoError>,
    unix_tokio: Result<UT, IoError>,
    tcp_async_std: Result<TA, IoError>,
    unix_async_std: Result<UA, IoError>,
    made: (
        RedisResult<ActualConnection<TT, UT, TA, UA>>,
        RedisResult<ActualConnection<TT, UT, TA, UA>>,
        RedisResult<ActualConnection<TT, UT, TA, UA>>,
        RedisResult<ActualConnection<TT, UT, TA, UA>>,
    ),
)
    requires
        call_ensures(Tokio::connect_tcp::<TT, UT, TA, UA>, (tcp_tokio,), made.0),
        call_ensures(Tokio::connect_unix::<TT, UT, TA, UA>, (unix_tokio,), made.1),
        call_ensures(AsyncStd::connect_tcp::<TT, UT, TA, UA>, (tcp_async_std,), made.2),
        call_ensures(AsyncStd::connect_unix::<TT, UT, TA, UA>, (unix_async_std,), made.3),
    ensures
        match tcp_tokio {
            Ok(con) => made.0 matches Ok(c) && c == ActualConnection::<TT, UT, TA, UA>::TcpTokio(
                con,
            ),
            Err(e) => made.0 matches Err(err) && err == RedisError::IoError(e),
        },
        match unix_tokio {
            Ok(con) => made.1 matches Ok(c) && c == ActualConnection::<TT, UT, TA, UA>::UnixTokio(
                con,
            ),
            Err(e) => made.1 matches Err(err) && err == RedisError::IoError(e),
        },
        match tcp_async_std {
            Ok(con) => made.2 matches Ok(c) && c
                == ActualConnection::<TT, UT, TA, UA>::TcpAsyncStd(con),
            Err(e) => made.2 matches Err(err) && err == RedisError::IoError(e),
        },
        match unix_async_std {
            Ok(con) => made.3 matches Ok(c) && c
                == ActualConnection::<TT, UT, TA, UA>::UnixAsyncStd(con),
            Err(e) => made.3 matches Err(err) && err == RedisError::IoError(e),
        },
{
}

/// Whether `step` picks database `db`.
pub open spec fn picks_database(step: AuthStep, db: i64) -> bool {
    match step {
        AuthStep::Auth(_) => false,
        AuthStep::Select(c) => db != 0 && picks(AuthStepView::Select(c@), db),
        AuthStep::Done(outcome) => db == 0 && outcome == Ok::<(), RedisError>(()),
    }
}

/// The first step of an authentication gives exactly the password, where there is one, and
/// else picks exactly the database.
pub proof fn law_authentication_begins_with_the_password(
    connection_info: ConnectionInfo,
    step: AuthStep,
)
    requires
        call_ensures(authenticate, (&connection_info,), step),
    ensures
        match connection_info.passwd {
            Some(passwd) => step matches AuthStep::Auth(c) && c@ == seq![
                vstd::utf8::encode_utf8("AUTH"@),
                vstd::utf8::encode_utf8(passwd@),
            ],
            None => picks_database(step, connection_info.db),
        },
{
    law_authentication_says_what_it_was_told(connection_info, Ok(Value::Okay));
    if let AuthStepView::Auth(args) = step@ {
        assert(args =~= seq![args[0], args[1]]);
    }
}

/// The password is taken exactly when the server answers `OK`; then exactly the database is
/// picked.
pub proof fn law_authentication_goes_on_to_the_database(
    connection_info: ConnectionInfo,
    reply: RedisResult<Value>,
    step: AuthStep,
)
    requires
        call_ensures(auth_reply, (&connection_info, reply), step),
    ensures
        match reply {
            Ok(Value::Okay) => picks_database(step, connection_info.db),
            _ => step == AuthStep::Done(
                Err(
                    RedisError::WithDescription(
                        ErrorKind::AuthenticationFailed,
                        "Password authentication failed",
                    ),
                ),
            ),
        },
{
    law_authentication_says_what_it_was_told(connection_info, reply);
}

/// The database is picked exactly when the server answers `OK`.
pub proof fn law_authentication_ends_with_the_database(
    reply: RedisResult<Value>,
    step: AuthStep,
)
    requires
        call_ensures(select_reply, (reply,), step),
    ensures
        match reply {
            Ok(Value::Okay) => step == AuthStep::Done(Ok(())),
            _ => step == AuthStep::Done(
                Err(
                    RedisError::WithDescription(
                        ErrorKind::ResponseError,
                        "Redis server refused to switch database",
                    ),
                ),
            ),
        },
{
}

/// A command is its name and then its arguments, in the order in which they were added; a
/// number that was added is read as that number.
pub proof fn law_commands_hold_what_was_added(
    name: &str,
    made: Cmd,
    first: &mut Cmd,
    bytes: &[u8],
    second: &mut Cmd,
    n: i64,
)
    requires
        call_ensures(cmd, (name,), made),
        call_ensures(Cmd::arg, (first, bytes), ()),
        call_ensures(Cmd::arg_int, (second, n), ()),
    ensures
        made@ == seq![vstd::utf8::encode_utf8(name@)],
        final(first)@ == old(first)@ + seq![bytes@],
        final(second)@.drop_last() == old(second)@,
        final(second)@.len() == old(second)@.len() + 1,
        integer(final(second)@.last()) == Some(n as int),
{
    law_written_numbers_are_read(n);
    assert(old(first)@.push(bytes@) =~= old(first)@ + seq![bytes@]);
    assert(final(second)@.drop_last() =~= old(second)@);
}

/// A packed command is read back as the list of its arguments, and a packed pipeline as those
/// of its commands, in their order, with nothing left of them.
pub proof fn law_what_is_packed_is_read_back(
    c: Cmd,
    packed: Vec<u8>,
    commands: Pipeline,
    all_packed: Vec<u8>,
)
    requires
        call_ensures(Cmd::get_packed_command, (&c,), packed),
        call_ensures(Pipeline::get_packed_pipeline, (&commands,), all_packed),
        can_be_read_back(c@),
        forall|i: int| 0 <= i < commands@.len() ==> can_be_read_back(#[trigger] commands@[i]),
    ensures
        parse_reply(packed@) == ParseView::Done(
            ReplyView::Value(ValueView::Bulk(all_data(c@))),
            Seq::empty(),
        ),
        reads_as(
            all_packed@,
            commands@.map_values(|args: Seq<Seq<u8>>| ValueView::Bulk(all_data(args))),
            Seq::empty(),
        ),
{
    let nothing = Seq::<u8>::empty();
    law_packed_command_is_read_back(c@, nothing);
    assert(packed@ + nothing =~= packed@);
    assert forall|i: int| 0 <= i < commands@.len() implies {
        &&& (#[trigger] commands@[i]).len() <= i64::MAX
        &&& forall|j: int|
            0 <= j < commands@[i].len() ==> (#[trigger] commands@[i][j]).len() <= i64::MAX
    } by {
        assert(can_be_read_back(commands@[i]));
    }
    law_packed_pipeline_is_read_back(commands@, nothing);
    assert(all_packed@ + nothing =~= all_packed@);
}

/// Whether the numbers of arguments and of their bytes are ones that are read.
pub open spec fn can_be_read_back(args: Seq<Seq<u8>>) -> bool {
    &&& args.len() <= i64::MAX
    &&& forall|j: int| 0 <= j < args.len() ==> (#[trigger] args[j]).len() <= i64::MAX
}

/// What is packed is appended to what is there, and is what is packed on its own; commands that
/// are added to a pipeline stand behind the others.
pub proof fn law_what_is_packed_is_appended(
    c: Cmd,
    packed: Vec<u8>,
    out: &mut Vec<u8>,
    commands: Pipeline,
    all_packed: Vec<u8>,
    all_out: &mut Vec<u8>,
    pipeline: &mut Pipeline,
    empty: Pipeline,
)
    requires
        call_ensures(Cmd::get_packed_command, (&c,), packed),
        call_ensures(Cmd::write_packed_command, (&c, out), ()),
        call_ensures(Pipeline::get_packed_pipeline, (&commands,), all_packed),
        call_ensures(Pipeline::write_packed_pipeline, (&commands, all_out), ()),
        call_ensures(Pipeline::add_command, (pipeline, c), ()),
        call_ensures(Pipeline::new, (), empty),
    ensures
        final(out)@ == old(out)@ + packed@,
        final(all_out)@ == old(all_out)@ + all_packed@,
        final(pipeline)@ == old(pipeline)@ + seq![c@],
        empty@.len() == 0,
{
    assert(old(pipeline)@.push(c@) =~= old(pipeline)@ + seq![c@]);
}

/// What is decoded is what the bytes begin with: a value, or the error that the server
/// signalled, and how many bytes that took.
pub proof fn law_what_is_read_is_decoded(
    bytes: &[u8],
    r: RedisResult<Option<(RedisResult<Value>, usize)>>,
)
    requires
        call_ensures(decode, (bytes,), r),
    ensures
        match r {
            Ok(None) => parse_reply(bytes@) is Incomplete,
            Ok(Some((Ok(value), end))) => parse_reply(bytes@) == ParseView::Done(
                ReplyView::Value(value_view(value)),
                bytes@.skip(end as int),
            ) && 0 < end <= bytes@.len(),
            Ok(Some((Err(err), end))) => err matches RedisError::WithDescriptionAndDetail(
                kind,
                description,
                detail,
            ) && kind == ErrorKind::ResponseError && description
                == "An error was signalled by the server" && parse_reply(bytes@)
                == ParseView::Done(ReplyView::Error(detail@), bytes@.skip(end as int)) && 0 < end
                <= bytes@.len(),
            Err(err) => parse_reply(bytes@) is Invalid && err == RedisError::WithDescription(
                ErrorKind::ResponseError,
                "parse error",
            ),
        },
{
}

/// A decoder takes replies from the front of the bytes that came into it, and keeps what is
/// behind them; bytes that come in go behind the others.
pub proof fn law_decoder_takes_replies_from_the_front(
    decoder: &mut Decoder,
    taken: RedisResult<Option<RedisResult<Value>>>,
    filled: &mut Decoder,
    bytes: &[u8],
    fresh: Decoder,
)
    requires
        call_ensures(Decoder::take_reply, (decoder,), taken),
        call_ensures(Decoder::fill, (filled, bytes), ()),
        call_ensures(Decoder::new, (), fresh),
    ensures
        taken matches Ok(Some(Ok(value))) ==> parse_reply(old(decoder)@) == ParseView::Done(
            ReplyView::Value(value_view(value)),
            final(decoder)@,
        ),
        taken matches Ok(Some(Err(err))) ==> (parse_reply(
            old(decoder)@,
        ) matches ParseView::Done(reply, rest) && reply is Error && rest == final(decoder)@),
        taken matches Ok(None) ==> parse_reply(old(decoder)@) is Incomplete && final(decoder)@
            == old(decoder)@,
        taken is Err ==> parse_reply(old(decoder)@) is Invalid && final(decoder)@
            == old(decoder)@,
        final(filled)@ == old(filled)@ + bytes@,
        fresh@.len() == 0,
{
    law_what_is_read_is_taken(old(decoder)@, taken, final(decoder)@);
}

/// A connection of its own answers a request with what the bytes that came in begin with, and
/// receives more exactly while bytes of that are missing. Bytes that come in go behind those
/// that wait. A failure of the socket, or its end, is the response.
pub proof fn law_connection_reads_what_came_in(
    con: &mut Connection,
    step: ResponseStep,
    receiving: &mut Connection,
    received: Result<&[u8], IoError>,
    next: ResponseStep,
)
    requires
        call_ensures(Connection::read_response, (con,), step),
        call_ensures(Connection::received, (receiving, received), next),
    ensures
        is_what_came_in(old(con).incoming(), step, final(con).incoming()),
        match received {
            Ok(bytes) => if bytes@.len() > 0 {
                is_what_came_in(
                    old(receiving).incoming() + bytes@,
                    next,
                    final(receiving).incoming(),
                )
            } else {
                &&& next == ResponseStep::Done(
                    Err(
                        RedisError::IoError(
                            IoError { kind: IoErrorKind::UnexpectedEof, detail: None },
                        ),
                    ),
                )
                &&& final(receiving).incoming() == old(receiving).incoming()
            },
            Err(err) => {
                &&& next == ResponseStep::Done(Err(RedisError::IoError(err)))
                &&& final(receiving).incoming() == old(receiving).incoming()
            },
        },
        final(con).db() == old(con).db(),
        final(con).buf() == old(con).buf(),
        final(receiving).db() == old(receiving).db(),
        final(receiving).buf() == old(receiving).buf(),
{
    law_response_is_what_came_in(old(con).incoming(), step, final(con).incoming());
    if let Ok(bytes) = received {
        if bytes@.len() > 0 {
            law_response_is_what_came_in(
                old(receiving).incoming() + bytes@,
                next,
                final(receiving).incoming(),
            );
        }
    }
}

/// Whether `step` is what `bytes` begin with, and `rest` what stands behind it.
pub open spec fn is_what_came_in(bytes: Seq<u8>, step: ResponseStep, rest: Seq<u8>) -> bool {
    match step {
        ResponseStep::Receive => parse_reply(bytes) is Incomplete && rest == bytes,
        ResponseStep::Done(Ok(value)) => parse_reply(bytes) == ParseView::Done(
            ReplyView::Value(value_view(value)),
            rest,
        ),
        ResponseStep::Done(Err(err)) => match parse_reply(bytes) {
            ParseView::Incomplete => false,
            ParseView::Invalid => rest == bytes && err == RedisError::WithDescription(
                ErrorKind::ResponseError,
                "parse error",
            ),
            ParseView::Done(reply, behind) => rest == behind && (
            err matches RedisError::WithDescriptionAndDetail(kind, description, detail) && kind
                == ErrorKind::ResponseError && description
                == "An error was signalled by the server" && reply == ReplyView::Error(detail@)),
        },
    }
}

/// A request on a connection of its own sends exactly its commands, and what was begun before
/// is not sent again. Once it is written, it reads exactly as many replies as it passes over
/// and asks for; its outcome is those that it asks for. It can only fail to be written, or with
/// the first failure among the replies.
pub proof fn law_request_on_a_connection_of_its_own(
    con: &mut Connection,
    commands: Pipeline,
    packed: Vec<u8>,
    offset: usize,
    count: usize,
    exchange: Exchange,
    written: Result<(), IoError>,
    step: ReadStep,
    values: Seq<Value>,
    err: RedisError,
)
    requires
        call_ensures(Connection::req_packed_commands, (con, &commands, offset, count), exchange),
        call_ensures(Pipeline::get_packed_pipeline, (&commands,), packed),
        call_ensures(Exchange::written, (exchange, written), step),
        values.len() <= offset + count,
    ensures
        final(con).buf() == packed@,
        final(con).incoming() == old(con).incoming(),
        final(con).db() == old(con).db(),
        match written {
            Err(e) => step == ReadStep::Done(Err(RedisError::IoError(e))),
            Ok(_) => if values.len() < offset + count {
                &&& read_after(step@, all_ok(values)) is Read
                &&& read_after(step@, all_ok(values).push(Err(err))) == ReadStepView::Done(
                    Err(err),
                )
            } else {
                read_after(step@, all_ok(values)) == ReadStepView::Done(
                    Ok(values.skip(offset as int)),
                )
            },
        },
{
    match written {
        Err(e) => {
            law_failed_write_ends_the_request(offset as nat, count as nat, e, Seq::empty());
        },
        Ok(_) => {
            law_request_hands_out_its_replies(offset as nat, count as nat, values);
            if values.len() < offset + count {
                law_failure_ends_the_request(
                    offset as nat,
                    count as nat,
                    values,
                    err,
                    Seq::empty(),
                );
                let failed = all_ok(values).push(Err::<Value, RedisError>(err));
                assert(failed + Seq::<RedisResult<Value>>::empty() =~= failed);
            }
        },
    }
}

/// A single command on a connection of its own is a request that passes over nothing and asks
/// for one reply.
pub proof fn law_command_on_a_connection_of_its_own(
    con: &mut Connection,
    c: Cmd,
    packed: Vec<u8>,
    exchange: Exchange,
    step: ReadStep,
    reply: RedisResult<Value>,
)
    requires
        call_ensures(Connection::req_packed_command, (con, &c), exchange),
        call_ensures(Cmd::get_packed_command, (&c,), packed),
        call_ensures(Exchange::written, (exchange, Ok(())), step),
    ensures
        final(con).buf() == packed@,
        final(con).incoming() == old(con).incoming(),
        final(con).db() == old(con).db(),
        step is Read,
        read_after(step@, seq![reply]) == ReadStepView::Done(
            match reply {
                Ok(value) => Ok(seq![value]),
                Err(err) => Err(err),
            },
        ),
{
    let nothing = Seq::<Value>::empty();
    law_request_hands_out_its_replies(0, 1, nothing);
    assert(all_ok::<Value, RedisError>(nothing) =~= Seq::empty());
    match reply {
        Ok(value) => {
            law_request_hands_out_its_replies(0, 1, seq![value]);
            assert(all_ok::<Value, RedisError>(seq![value]) =~= seq![reply]);
            assert(seq![value].skip(0) =~= seq![value]);
        },
        Err(err) => {
            law_failure_ends_the_request(0, 1, nothing, err, Seq::empty());
            assert(all_ok(nothing).push(Err::<Value, RedisError>(err)) + Seq::<
                RedisResult<Value>,
            >::empty() =~= seq![reply]);
        },
    }
}

/// A reply is read as the next of those that are missing.
pub proof fn law_replies_are_read_one_after_another(
    replies: Replies,
    reply: RedisResult<Value>,
    step: ReadStep,
)
    requires
        call_ensures(Replies::replied, (replies, reply), step),
    ensures
        step@ == read_after(ReadStepView::Read(replies@), seq![reply]),
        reply matches Err(err) ==> step == ReadStep::Done(Err(err)),
{
    assert(seq![reply].drop_last() =~= Seq::empty());
    assert(read_after(ReadStepView::Read(replies@), seq![reply].drop_last())
        == ReadStepView::Read(replies@));
}

/// A request on a shared connection sends exactly its commands as one message, which asks for
/// as many replies as are passed over and handed out, and its response comes out where it waits
/// for it.
pub proof fn law_request_on_a_shared_connection(
    con: &mut MultiplexedConnection,
    commands: Pipeline,
    all_packed: Vec<u8>,
    offset: usize,
    count: usize,
    exchange: MultiplexedExchange,
    single: &mut MultiplexedConnection,
    c: Cmd,
    packed: Vec<u8>,
    one: MultiplexedExchange,
)
    requires
        call_ensures(
            MultiplexedConnection::req_packed_commands,
            (con, &commands, offset, count),
            exchange,
        ),
        call_ensures(Pipeline::get_packed_pipeline, (&commands,), all_packed),
        call_ensures(MultiplexedConnection::req_packed_command, (single, &c), one),
        call_ensures(Cmd::get_packed_command, (&c,), packed),
        offset + count <= usize::MAX,
    ensures
        exchange.message.input@ == all_packed@,
        exchange.message.response_count == offset + count,
        exchange.offset == offset,
        exchange.receiver.channel() == exchange.message.output.channel(),
        final(con).db() == old(con).db(),
        one.message.input@ == packed@,
        one.message.response_count == 1,
        one.offset == 0,
        one.receiver.channel() == one.message.output.channel(),
        final(single).db() == old(single).db(),
{
}

/// A connection says that it is bound to the database that it was made for, be it one of its
/// own or one that is shared.
pub proof fn law_connections_know_their_database(
    connection_info: ConnectionInfo,
    own: Connection,
    own_db: i64,
    shared: MultiplexedConnection,
    shared_db: i64,
    packed: &[u8],
)
    requires
        call_ensures(Connection::new, (&connection_info,), own),
        call_ensures(Connection::get_db, (&own,), own_db),
        call_ensures(Connection::packed, (&own,), packed),
        call_ensures(MultiplexedConnection::new, (&connection_info,), shared),
        call_ensures(MultiplexedConnection::get_db, (&shared,), shared_db),
    ensures
        own_db == connection_info.db,
        shared_db == connection_info.db,
        packed@.len() == 0,
        own.incoming().len() == 0,
{
}

/// What the receiver of a message gave is what its caller gets, and nothing else is.
pub proof fn law_callers_get_what_was_received<I, E>(
    reply: Reply<I, E>,
    outcome: Result<Vec<I>, Option<E>>,
)
    requires
        call_ensures(received_multiple::<I, E>, (reply,), outcome),
    ensures
        match reply {
            Reply::Received(Ok(Ok(values))) => outcome == Ok::<Vec<I>, Option<E>>(values),
            Reply::Received(Ok(Err(err))) => outcome == Err::<Vec<I>, Option<E>>(Some(err)),
            Reply::Received(Err(_)) => outcome == Err::<Vec<I>, Option<E>>(None),
            Reply::Unsent => outcome == Err::<Vec<I>, Option<E>>(None),
        },
{
}

/// The caller of a single request gets the last reply of the list.
pub proof fn law_callers_get_one_reply<I, E>(outcome: Result<Vec<I>, E>, one: Result<I, E>)
    requires
        call_ensures(received_one::<I, E>, (outcome,), one),
        outcome matches Ok(values) ==> values.len() > 0,
    ensures
        match outcome {
            Ok(values) => one == Ok::<I, E>(values[values.len() - 1]),
            Err(err) => one == Err::<I, E>(err),
        },
{
}

/// A message carries its input and the number of replies that it asks for, and its response
/// comes out of the receiver that was made with it.
pub proof fn law_messages_carry_what_was_given<S, I, E>(
    input: S,
    count: usize,
    several: (PipelineMessage<S, I, E>, ResponseReceiver<I, E>),
    one: (PipelineMessage<S, I, E>, ResponseReceiver<I, E>),
)
    requires
        call_ensures(send_recv_multiple::<S, I, E>, (input, count), several),
        call_ensures(send::<S, I, E>, (input,), one),
    ensures
        several.0.input == input,
        several.0.response_count == count,
        several.0.output.channel() == several.1.channel(),
        one.0.input == input,
        one.0.response_count == 1,
        one.0.output.channel() == one.1.channel(),
{
}

/// What the pipeline gives for a request on a shared connection is what its caller gets, but
/// for the replies to pass over. That the pipeline has shut down is a broken pipe.
pub proof fn law_callers_of_a_shared_connection_get_the_outcome(
    outcome: Result<Vec<Value>, Option<RedisError>>,
    offset: usize,
    r: RedisResult<Vec<Value>>,
    one: Result<Value, Option<RedisError>>,
    single: RedisResult<Value>,
)
    requires
        call_ensures(MultiplexedConnection::commands_outcome, (outcome, offset), r),
        call_ensures(MultiplexedConnection::command_outcome, (one,), single),
        outcome matches Ok(values) ==> offset <= values@.len(),
    ensures
        ({
            let broken = RedisError::IoError(
                IoError { kind: IoErrorKind::BrokenPipe, detail: None },
            );
            &&& match outcome {
                Ok(values) => r matches Ok(rest) && values@.take(offset as int) + rest@ == values@
                    && rest@.len() + offset == values@.len(),
                Err(Some(err)) => r matches Err(e) && e == err,
                Err(None) => r matches Err(e) && e == broken,
            }
            &&& match one {
                Ok(value) => single == Ok::<Value, RedisError>(value),
                Err(Some(err)) => single matches Err(e) && e == err,
                Err(None) => single matches Err(e) && e == broken,
            }
        }),
{
    law_shared_outcome_is_passed_on(crate::response::response_view(outcome), offset as nat);
}

/// The sink of a pipeline begins with no request, no failure and no response, and changes with
/// what it is told exactly as its state does.
pub proof fn law_sink_follows_its_state<S, I, E>(
    fresh: PipelineSink<I, E>,
    given: &mut PipelineSink<I, E>,
    result: Result<I, E>,
    ready: &mut PipelineSink<I, E>,
    outcome: Polled<Result<(), E>>,
    is_ready: Polled<Result<(), ()>>,
    bringing: &mut PipelineSink<I, E>,
    message: PipelineMessage<S, I, E>,
    brought: Result<Forward<S, I, E>, ()>,
    writing: &mut PipelineSink<I, E>,
    pending: Pending<I, E>,
    taken: Result<(), E>,
    written: Result<(), ()>,
)
    requires
        call_ensures(PipelineSink::<I, E>::new, (), fresh),
        call_ensures(PipelineSink::<I, E>::send_result, (given, result), ()),
        call_ensures(PipelineSink::<I, E>::poll_ready, (ready, outcome), is_ready),
        call_ensures(PipelineSink::<I, E>::start_send::<S>, (bringing, message), brought),
        call_ensures(PipelineSink::<I, E>::start_sent, (writing, pending, taken), written),
    ensures
        fresh@.in_flight.len() == 0 && fresh@.error is None && fresh@.sent.len() == 0,
        final(given)@ == old(given)@.send_result(result),
        final(ready)@ == old(ready)@.poll_ready(outcome),
        match outcome {
            Polled::Pending => is_ready is Pending,
            Polled::Ready(_) => is_ready matches Polled::Ready(r) && r is Ok,
        },
        final(bringing)@ == old(bringing)@.start_send(message.output),
        match old(bringing)@.error {
            Some(_) => brought is Err,
            None => brought matches Ok(forward) && forward.input == message.input
                && forward.pending.output == message.output && forward.pending.response_count
                == message.response_count,
        },
        final(writing)@ == old(writing)@.start_sent(
            pending.output,
            pending.response_count as nat,
            taken,
        ),
        written is Ok <==> taken is Ok,
{
}

/// A flush reads what the connection has once all that was written has gone out, and waits
/// while it has nothing. It fails if the connection fails to flush, or ends; a close goes on to
/// close the connection when it ends, and at once where no request waits. Its outcome is that
/// of the connection.
pub proof fn law_sink_asks_the_connection<I, E>(
    flushing: &mut PipelineSink<I, E>,
    closing: bool,
    flushed: Polled<Result<(), E>>,
    after_flush: SinkAction,
    reading: &mut PipelineSink<I, E>,
    next: Polled<Option<Result<I, E>>>,
    after_read: SinkAction,
    open: PipelineSink<I, E>,
    first: SinkAction,
    ending: &mut PipelineSink<I, E>,
    closed: Polled<Result<(), E>>,
    after_close: SinkAction,
)
    requires
        call_ensures(
            PipelineSink::<I, E>::poll_flush,
            (flushing, closing, flushed),
            after_flush,
        ),
        call_ensures(PipelineSink::<I, E>::poll_read, (reading, closing, next), after_read),
        call_ensures(PipelineSink::<I, E>::poll_close, (&open,), first),
        call_ensures(PipelineSink::<I, E>::closed, (ending, closed), after_close),
    ensures
        final(flushing)@ == old(flushing)@.poll_flush(flushed),
        after_flush == (match flushed {
            Polled::Pending => SinkAction::Return(Polled::Pending),
            Polled::Ready(Ok(_)) => SinkAction::PollNext { closing },
            Polled::Ready(Err(_)) => SinkAction::Return(Polled::Ready(Err(()))),
        }),
        final(reading)@ == old(reading)@.poll_read(next),
        after_read == (match next {
            Polled::Pending => SinkAction::Return(Polled::Pending),
            Polled::Ready(Some(_)) => SinkAction::PollNext { closing },
            Polled::Ready(None) => if closing {
                SinkAction::PollClose
            } else {
                SinkAction::Return(Polled::Ready(Err(())))
            },
        }),
        first == if open@.in_flight.len() == 0 {
            SinkAction::PollClose
        } else {
            SinkAction::PollFlush { closing: true }
        },
        final(ending)@ == old(ending)@.closed(closed),
        after_close == (match closed {
            Polled::Pending => SinkAction::Return(Polled::Pending),
            Polled::Ready(Ok(_)) => SinkAction::Return(Polled::Ready(Ok(()))),
            Polled::Ready(Err(_)) => SinkAction::Return(Polled::Ready(Err(()))),
        }),
{
}

/// A request on a connection of its own can be made with any numbers of replies to pass over
/// and to hand out, and one on a shared connection with any that can be counted together. There
/// is room for fifty messages before whoever brings more has to wait.
pub proof fn law_requests_can_be_made(
    con: &mut Connection,
    shared: &mut MultiplexedConnection,
    commands: Pipeline,
    offset: usize,
    count: usize,
)
    ensures
        call_requires(Connection::req_packed_commands, (con, &commands, offset, count)),
        offset + count <= usize::MAX ==> call_requires(
            MultiplexedConnection::req_packed_commands,
            (shared, &commands, offset, count),
        ),
        BUFFER_SIZE == 50,
{
}

} // verus!
