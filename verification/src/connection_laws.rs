//! What holds of connections over several requests and replies.

use vstd::prelude::*;

use crate::aio::{
    after_write, commands_result, pipeline_failure, ReadStep, ReadStepView, RepliesView,
};
use crate::cmd::signed_decimal;
use crate::cmd_laws::{law_signed_decimal_is_the_number, value_of};
use crate::connection::{
    auth_command, database_refused, first_step, is_okay, password_refused, select_command,
    step_after_auth, step_after_select, AuthStep, AuthStepView, ConnectionInfo,
};
use crate::parser::integer;
use crate::parser_laws::law_written_numbers_are_read;
use crate::pipeline::{action_after_flush, reply_outcome, Reply, SinkAction, SinkView};
use crate::pipeline_laws::{
    all_ok, law_replies_reach_their_requests, lemma_replies_gather, lemma_take_in_all_split,
    responses,
};
use crate::response::{response_view, PipelineOutput, Sent};
use crate::types::{
    broken_pipe, unexpected_eof, ErrorKind, IoError, IoErrorKind, Polled, RedisError, RedisResult,
    Value,
};

verus! {

/// The step that follows when the server answers `reply` to what `step` sends.
pub open spec fn next_step(
    connection_info: ConnectionInfo,
    step: AuthStepView,
    reply: RedisResult<Value>,
) -> AuthStepView {
    match step {
        AuthStepView::Auth(_) => step_after_auth(connection_info.db, reply),
        AuthStepView::Select(_) => step_after_select(reply),
        AuthStepView::Done(_) => step,
    }
}

/// The step after the server answered `replies`, one after another.
pub open spec fn step_after(
    connection_info: ConnectionInfo,
    replies: Seq<RedisResult<Value>>,
) -> AuthStepView
    decreases replies.len(),
{
    if replies.len() == 0 {
        first_step(connection_info)
    } else {
        next_step(
            connection_info,
            step_after(connection_info, replies.drop_last()),
            replies.last(),
        )
    }
}

/// The commands that an authentication sends when the server takes all of them.
pub open spec fn auth_commands(connection_info: ConnectionInfo) -> Seq<Seq<Seq<u8>>> {
    let auth = match connection_info.passwd {
        Some(passwd) => seq![auth_command(passwd@)],
        None => Seq::empty(),
    };
    let select = if connection_info.db == 0 {
        Seq::empty()
    } else {
        seq![select_command(connection_info.db)]
    };
    auth + select
}

/// What a step sends.
pub open spec fn sends(step: AuthStepView) -> Option<Seq<Seq<u8>>> {
    match step {
        AuthStepView::Auth(c) => Some(c),
        AuthStepView::Select(c) => Some(c),
        AuthStepView::Done(_) => None,
    }
}

/// An authentication sends the password first, where there is one, and then picks the
/// database, unless it is database 0. It sends each command after the server took the one
/// before it, and succeeds once the server has taken all of them; with no password and
/// database 0 it succeeds without sending anything.
pub proof fn law_authentication_succeeds(
    connection_info: ConnectionInfo,
    replies: Seq<RedisResult<Value>>,
)
    requires
        forall|i: int| 0 <= i < replies.len() ==> is_okay(#[trigger] replies[i]),
        replies.len() <= auth_commands(connection_info).len(),
    ensures
        ({
            let commands = auth_commands(connection_info);
            let step = step_after(connection_info, replies);
            if replies.len() < commands.len() {
                sends(step) == Some(commands[replies.len() as int])
            } else {
                step == AuthStepView::Done(Ok(()))
            }
        }),
    decreases replies.len(),
{
    if replies.len() > 0 {
        law_authentication_succeeds(connection_info, replies.drop_last());
        assert(is_okay(replies.last()));
        let commands = auth_commands(connection_info);
        if replies.len() == 2 {
            assert(sends(step_after(connection_info, replies.drop_last())) == Some(commands[1]));
            assert(replies.drop_last().drop_last().len() == 0);
            assert(is_okay(replies.drop_last().last()));
        }
    }
}

/// An authentication fails with the first command that the server does not take, and sends
/// nothing more: with a refused password when that is the one that gives it, else with a
/// refused database. What else the server says does not matter.
pub proof fn law_authentication_fails(
    connection_info: ConnectionInfo,
    replies: Seq<RedisResult<Value>>,
    refusal: RedisResult<Value>,
    more: Seq<RedisResult<Value>>,
)
    requires
        forall|i: int| 0 <= i < replies.len() ==> is_okay(#[trigger] replies[i]),
        replies.len() < auth_commands(connection_info).len(),
        !is_okay(refusal),
    ensures
        step_after(connection_info, replies.push(refusal) + more) == AuthStepView::Done(
            Err(
                if connection_info.passwd is Some && replies.len() == 0 {
                    password_refused()
                } else {
                    database_refused()
                },
            ),
        ),
    decreases more.len(),
{
    if more.len() == 0 {
        law_authentication_succeeds(connection_info, replies);
        assert(replies.push(refusal) + more =~= replies.push(refusal));
        assert(replies.push(refusal).drop_last() =~= replies);
        if replies.len() == 1 {
            assert(replies.drop_last().len() == 0);
            assert(is_okay(replies.last()));
        }
    } else {
        law_authentication_fails(connection_info, replies, refusal, more.drop_last());
        assert((replies.push(refusal) + more).drop_last() =~= replies.push(refusal)
            + more.drop_last());
    }
}

/// Whether `step` picks database `db`: nothing is to be done for database 0; for any other a
/// `SELECT` is sent whose argument is that number in decimal, without zeros in front of it.
pub open spec fn picks(step: AuthStepView, db: i64) -> bool {
    if db == 0 {
        step == AuthStepView::Done(Ok(()))
    } else {
        &&& step matches AuthStepView::Select(args)
        &&& args.len() == 2
        &&& args[0] == vstd::utf8::encode_utf8("SELECT"@)
        &&& integer(args[1]) == Some(db as int)
        &&& args[1][0] != 48
        &&& db < 0 ==> args[1][1] != 48
    }
}

/// An authentication gives exactly the password that it was told, and picks exactly the
/// database that it was told: the number that it sends is read as that database. Only the
/// value for `OK` lets it go on; anything else that the server answers, be it another value or
/// an error, ends it with the failure of the command that was sent.
pub proof fn law_authentication_says_what_it_was_told(
    connection_info: ConnectionInfo,
    reply: RedisResult<Value>,
)
    ensures
        match connection_info.passwd {
            Some(passwd) => first_step(connection_info) matches AuthStepView::Auth(args)
                && args.len() == 2 && args[0] == vstd::utf8::encode_utf8("AUTH"@) && args[1]
                == vstd::utf8::encode_utf8(passwd@),
            None => picks(first_step(connection_info), connection_info.db),
        },
        match reply {
            Ok(Value::Okay) => {
                &&& picks(step_after_auth(connection_info.db, reply), connection_info.db)
                &&& step_after_select(reply) == AuthStepView::Done(Ok(()))
            },
            _ => {
                &&& step_after_auth(connection_info.db, reply) == AuthStepView::Done(
                    Err(
                        RedisError::WithDescription(
                            ErrorKind::AuthenticationFailed,
                            "Password authentication failed",
                        ),
                    ),
                )
                &&& step_after_select(reply) == AuthStepView::Done(
                    Err(
                        RedisError::WithDescription(
                            ErrorKind::ResponseError,
                            "Redis server refused to switch database",
                        ),
                    ),
                )
            },
        },
{
    let db = connection_info.db;
    law_written_numbers_are_read(db);
    law_signed_decimal_is_the_number(db as int);
    let digits = signed_decimal(db as int);
    if db < 0 {
        assert(digits.skip(1)[0] == digits[1]);
    }
    if db != 0 {
        let all = if db < 0 {
            digits.skip(1)
        } else {
            digits
        };
        if all.len() == 1 {
            assert(all.drop_last() =~= Seq::empty());
            assert(value_of(all.drop_last()) == 0);
            assert(value_of(all) == all[0] - 48);
        }
    }
}

/// Connections to different databases send different commands to pick them.
pub proof fn law_different_databases_are_picked_differently(
    first: ConnectionInfo,
    second: ConnectionInfo,
    reply: RedisResult<Value>,
)
    requires
        first.db != second.db,
        is_okay(reply),
    ensures
        step_after_auth(first.db, reply) != step_after_auth(second.db, reply),
        first.passwd is None && second.passwd is None ==> first_step(first) != first_step(second),
{
    law_authentication_says_what_it_was_told(first, reply);
    law_authentication_says_what_it_was_told(second, reply);
}

/// Different passwords are given with different commands.
pub proof fn law_different_passwords_are_given_differently(
    first: ConnectionInfo,
    second: ConnectionInfo,
)
    requires
        first.passwd matches Some(passwd) && second.passwd matches Some(other) && passwd@
            != other@,
    ensures
        first_step(first) != first_step(second),
{
    law_authentication_says_what_it_was_told(first, Ok(Value::Okay));
    law_authentication_says_what_it_was_told(second, Ok(Value::Okay));
    vstd::utf8::encode_utf8_decode_utf8(first.passwd->0@);
    vstd::utf8::encode_utf8_decode_utf8(second.passwd->0@);
}

/// A step of the authentication sends, or ends with, exactly what it shows.
pub proof fn law_authentication_step_is_what_it_shows(step: AuthStep)
    ensures
        match step {
            AuthStep::Auth(c) => step@ == AuthStepView::Auth(c@),
            AuthStep::Select(c) => step@ == AuthStepView::Select(c@),
            AuthStep::Done(outcome) => step@ == AuthStepView::Done(outcome),
        },
{
}

/// What is to be done after `replies` were read, one after another, from `step` on.
pub open spec fn read_after(
    step: ReadStepView,
    replies: Seq<RedisResult<Value>>,
) -> ReadStepView
    decreases replies.len(),
{
    if replies.len() == 0 {
        step
    } else {
        match read_after(step, replies.drop_last()) {
            ReadStepView::Read(missing) => missing.replied(replies.last()),
            ReadStepView::Done(outcome) => ReadStepView::Done(outcome),
        }
    }
}

/// The replies that a request on a connection of its own reads, once it was written.
pub open spec fn to_read(offset: nat, count: nat) -> ReadStepView {
    RepliesView { offset, count, values: Seq::empty() }.next()
}

/// After some of its replies, a request waits for the others.
proof fn lemma_read_some(offset: nat, count: nat, values: Seq<Value>)
    requires
        values.len() <= offset + count,
    ensures
        read_after(to_read(offset, count), all_ok(values)) == (if values.len() <= offset {
            RepliesView { offset: (offset - values.len()) as nat, count, values: Seq::empty() }
        } else {
            RepliesView {
                offset: 0,
                count: (offset + count - values.len()) as nat,
                values: values.skip(offset as int),
            }
        }).next(),
    decreases values.len(),
{
    if values.len() > 0 {
        let earlier = values.drop_last();
        lemma_read_some(offset, count, earlier);
        assert(all_ok::<Value, RedisError>(values).drop_last() =~= all_ok(earlier));
        if values.len() > offset {
            if earlier.len() == offset {
                assert(earlier.skip(offset as int) =~= Seq::empty());
            }
            assert(values.skip(offset as int) =~= earlier.skip(offset as int).push(
                values.last(),
            ));
        }
    }
}

/// Once it is written, a request that passes over `offset` replies and asks for `count` reads
/// exactly `offset + count` replies, and its outcome is those behind the first `offset`.
pub proof fn law_request_hands_out_its_replies(offset: nat, count: nat, values: Seq<Value>)
    requires
        values.len() <= offset + count,
    ensures
        if values.len() < offset + count {
            read_after(after_write(offset, count, Ok(())), all_ok(values)) is Read
        } else {
            read_after(after_write(offset, count, Ok(())), all_ok(values)) == ReadStepView::Done(
                Ok(values.skip(offset as int)),
            )
        },
{
    lemma_read_some(offset, count, values);
    if values.len() == offset {
        assert(values.skip(offset as int) =~= Seq::empty());
    }
}

/// The first failure among the replies to a request is its outcome, also where the reply
/// would have been passed over, and nothing more is read for it.
pub proof fn law_failure_ends_the_request(
    offset: nat,
    count: nat,
    values: Seq<Value>,
    err: RedisError,
    more: Seq<RedisResult<Value>>,
)
    requires
        values.len() < offset + count,
    ensures
        read_after(
            after_write(offset, count, Ok(())),
            all_ok(values).push(Err::<Value, RedisError>(err)) + more,
        ) == ReadStepView::Done(Err(err)),
    decreases more.len(),
{
    let failed = all_ok(values).push(Err::<Value, RedisError>(err));
    if more.len() == 0 {
        law_request_hands_out_its_replies(offset, count, values);
        assert(failed + more =~= failed);
        assert(failed.drop_last() =~= all_ok(values));
    } else {
        law_failure_ends_the_request(offset, count, values, err, more.drop_last());
        assert((failed + more).drop_last() =~= failed + more.drop_last());
    }
}

/// The state once a request for `response_count` replies was written behind those that wait,
/// all of it went out, and `results` came in.
pub open spec fn written_then(
    state: SinkView<Value, RedisError>,
    output: PipelineOutput<Value, RedisError>,
    response_count: nat,
    results: Seq<RedisResult<Value>>,
) -> SinkView<Value, RedisError> {
    state.start_sent(output, response_count, Ok(())).poll_flush(
        Polled::Ready(Ok(())),
    ).take_in_all(results)
}

/// Whether `groups` are, for each request that waits, as many replies as it still lacks.
pub open spec fn complete(
    state: SinkView<Value, RedisError>,
    groups: Seq<Seq<Value>>,
) -> bool {
    &&& groups.len() == state.in_flight.len()
    &&& forall|i: int|
        0 <= i < groups.len() ==> state.in_flight[i].buffer.len() + (#[trigger] groups[i]).len()
            == state.in_flight[i].response_count
}

/// A caller gets the same from a connection of its own and from one that is shared, for any
/// number of replies, none included: when the request has gone out and the replies come in
/// that earlier requests lack and then those to this one, the pipeline answers it with all of
/// these, and the outcome is what a connection of its own hands out.
pub proof fn law_shared_connection_agrees(
    state: SinkView<Value, RedisError>,
    output: PipelineOutput<Value, RedisError>,
    groups: Seq<Seq<Value>>,
    offset: nat,
    count: nat,
    values: Seq<Value>,
)
    requires
        state.wf(),
        complete(state, groups),
        values.len() == offset + count,
    ensures
        ({
            let after = written_then(
                state,
                output,
                offset + count,
                all_ok(groups.flatten()) + all_ok(values),
            );
            let response = Sent { output, response: Ok::<Seq<Value>, RedisError>(values) };
            &&& after.in_flight.len() == 0
            &&& after.sent == (state.sent + responses(state.in_flight, groups)).push(response)
        }),
        ReadStepView::Done(commands_result(Ok(values), offset)) == read_after(
            after_write(offset, count, Ok(())),
            all_ok(values),
        ),
{
    law_request_hands_out_its_replies(offset, count, values);
    let taken = state.start_sent(output, offset + count, Ok(()));
    let all = groups.push(values);
    groups.lemma_flatten_push(values);
    assert(all_ok::<Value, RedisError>(all.flatten()) =~= all_ok(groups.flatten()) + all_ok(
        values,
    ));
    law_replies_reach_their_requests(taken, all);
    assert(taken.in_flight.last().buffer + values =~= values);
    assert(taken.sent + responses(taken.in_flight, all) =~= (state.sent + responses(
        state.in_flight,
        groups,
    )).push(Sent { output, response: Ok(values) }));
}

/// A caller gets the same from a connection of its own and from one that is shared when the
/// connection fails before all replies came in: the pipeline answers the request with the
/// failure, and the outcome is that failure on either. A request for no reply has all of
/// them when it has gone out, so this is not about it.
pub proof fn law_shared_connection_agrees_on_failure(
    state: SinkView<Value, RedisError>,
    output: PipelineOutput<Value, RedisError>,
    groups: Seq<Seq<Value>>,
    offset: nat,
    count: nat,
    values: Seq<Value>,
    err: RedisError,
)
    requires
        state.wf(),
        complete(state, groups),
        values.len() < offset + count,
    ensures
        ({
            let failed = all_ok(values).push(Err::<Value, RedisError>(err));
            let after = written_then(
                state,
                output,
                offset + count,
                all_ok(groups.flatten()) + failed,
            );
            let response = Sent { output, response: Err::<Seq<Value>, RedisError>(err) };
            &&& after.in_flight.len() == 0
            &&& after.sent == (state.sent + responses(state.in_flight, groups)).push(response)
            &&& commands_result(Err(Some(err)), offset) == Err::<Seq<Value>, RedisError>(err)
            &&& read_after(after_write(offset, count, Ok(())), failed) == ReadStepView::Done(
                commands_result(Err(Some(err)), offset),
            )
        }),
{
    let failed = all_ok(values).push(Err::<Value, RedisError>(err));
    law_failure_ends_the_request(offset, count, values, err, Seq::empty());
    assert(failed + Seq::<RedisResult<Value>>::empty() =~= failed);
    let taken = state.start_sent(output, offset + count, Ok(()));
    let flushed = taken.poll_flush(Polled::Ready(Ok(())));
    lemma_take_in_all_split(flushed, all_ok::<Value, RedisError>(groups.flatten()), failed);
    law_replies_reach_their_requests(taken, groups);
    let reached = flushed.take_in_all(all_ok(groups.flatten()));
    assert(responses(taken.in_flight, groups) =~= responses(state.in_flight, groups));
    assert(reached.in_flight.len() == 1);
    lemma_replies_gather(reached, values);
    assert(failed.drop_last() =~= all_ok(values));
    let gathered = reached.take_in_all(all_ok(values));
    assert(gathered.settle() == gathered);
    let answered = gathered.send_result(Err(err));
    assert(answered.settle() == answered);
}

/// A caller gets the same from a connection of its own and from one that is shared when the
/// request cannot be written out, whatever number of replies it asks for, none included: the
/// outcome is that failure on either. On the shared one this is so when no other request
/// waits. Otherwise the failure is the response to the oldest one; this one is left waiting,
/// and learns that the pipeline has shut down.
pub proof fn law_shared_connection_agrees_on_failed_write(
    state: SinkView<Value, RedisError>,
    output: PipelineOutput<Value, RedisError>,
    offset: nat,
    count: nat,
    err: IoError,
)
    ensures
        ({
            let failure = RedisError::IoError(err);
            let failed = Polled::<RedisResult<()>>::Ready(Err(failure));
            let written = state.start_sent(output, offset + count, Ok(()));
            let after = written.poll_flush(failed);
            &&& state.in_flight.len() == 0 ==> after == state.respond(output, Err(failure))
            &&& state.in_flight.len() > 0 ==> {
                &&& after.in_flight.last() == written.in_flight.last()
                &&& after.sent == state.sent.push(
                    Sent { output: state.in_flight[0].output, response: Err(failure) },
                )
            }
            &&& action_after_flush(false, failed) == SinkAction::Return(Polled::Ready(Err(())))
            &&& after_write(offset, count, Err(err)) == ReadStepView::Done(
                commands_result(Err(Some(failure)), offset),
            )
        }),
{
    let written = state.start_sent(output, offset + count, Ok(()));
    if state.in_flight.len() == 0 {
        assert(written.in_flight.drop_first() =~= state.in_flight);
    }
}

/// A request that cannot be written ends with that failure of the connection, and reads
/// nothing.
pub proof fn law_failed_write_ends_the_request(
    offset: nat,
    count: nat,
    err: IoError,
    replies: Seq<RedisResult<Value>>,
)
    ensures
        read_after(after_write(offset, count, Err(err)), replies) == ReadStepView::Done(
            Err(RedisError::IoError(err)),
        ),
    decreases replies.len(),
{
    if replies.len() > 0 {
        law_failed_write_ends_the_request(offset, count, err, replies.drop_last());
    }
}

/// A step of the reading is over, with these replies or with this failure, exactly when it
/// shows that.
pub proof fn law_read_step_is_what_it_shows(step: ReadStep)
    ensures
        match step {
            ReadStep::Read(replies) => step@ == ReadStepView::Read(replies@),
            ReadStep::Done(Ok(values)) => step@ == ReadStepView::Done(Ok(values@)),
            ReadStep::Done(Err(err)) => step@ == ReadStepView::Done(Err(err)),
        },
{
}

/// What the pipeline gives for commands on a shared connection is all that the caller gets,
/// but for the first `offset` responses; a failure of the connection is passed on as it is, and
/// a pipeline that has shut down is a broken pipe.
pub proof fn law_shared_outcome_is_passed_on(
    outcome: Result<Seq<Value>, Option<RedisError>>,
    offset: nat,
)
    requires
        outcome matches Ok(values) ==> offset <= values.len(),
    ensures
        match outcome {
            Ok(values) => commands_result(outcome, offset) matches Ok(rest) && rest.len() + offset
                == values.len() && values.take(offset as int) + rest == values,
            Err(Some(err)) => commands_result(outcome, offset) == Err::<Seq<Value>, RedisError>(
                err,
            ) && pipeline_failure(Some(err)) == err,
            Err(None) => {
                let broken = RedisError::IoError(
                    IoError { kind: IoErrorKind::BrokenPipe, detail: None },
                );
                &&& commands_result(outcome, offset) == Err::<Seq<Value>, RedisError>(broken)
                &&& pipeline_failure(None) == broken
            },
        },
{
    if let Ok(values) = outcome {
        assert(values.take(offset as int) + values.skip(offset as int) =~= values);
    }
}

/// A connection that ends too early, and a pipeline that has shut down, are failures of the
/// connection of different kinds.
pub proof fn law_ends_are_told_apart()
    ensures
        unexpected_eof() == RedisError::IoError(
            IoError { kind: IoErrorKind::UnexpectedEof, detail: None },
        ),
        broken_pipe() == RedisError::IoError(
            IoError { kind: IoErrorKind::BrokenPipe, detail: None },
        ),
{
}

/// The response that the pipeline sends to a request is what its caller gets, whatever its
/// length: the replies behind the first `offset`, or the failure.
pub proof fn law_response_reaches_the_caller(
    sent: Sent<Value, RedisError>,
    response: Result<Vec<Value>, RedisError>,
    offset: nat,
)
    requires
        response_view(response) == sent.response,
    ensures
        commands_result(
            response_view(reply_outcome(Reply::Received(Ok(response)))),
            offset,
        ) == match sent.response {
            Ok(values) => Ok::<Seq<Value>, RedisError>(values.skip(offset as int)),
            Err(err) => Err(err),
        },
{
}

} // verus!
