use redis_aio::aio::{
    Connection, ConnectionLike, Exchange, MultiplexedConnection, ReadStep, ResponseStep,
};
use redis_aio::cmd::{cmd, Pipeline};
use redis_aio::connection::{ConnectionAddr, ConnectionInfo};
use redis_aio::pipeline::{received_multiple, received_one, PipelineSink, Reply};
use redis_aio::types::{
    ErrorKind, IoError, IoErrorKind, Polled, RedisError, RedisResult, Value,
};

const PING: &[u8] = b"*1\r\n$4\r\nPING\r\n";

fn info(db: i64) -> ConnectionInfo {
    ConnectionInfo {
        addr: Box::new(ConnectionAddr::Tcp("localhost".to_string(), 6379)),
        db,
        passwd: None,
    }
}

fn pings(n: usize) -> Pipeline {
    let mut pipeline = Pipeline::new();
    for _ in 0..n {
        pipeline.add_command(cmd("PING"));
    }
    pipeline
}

fn io_error(kind: IoErrorKind) -> RedisError {
    RedisError::IoError(IoError { kind, detail: None })
}

/// Reads for a request that was written; gives its outcome and how many replies it read.
fn read(exchange: Exchange, replies: Vec<RedisResult<Value>>) -> (RedisResult<Vec<Value>>, usize) {
    let mut replies = replies.into_iter();
    let mut n = 0;
    let mut step = exchange.written(Ok(()));
    loop {
        step = match step {
            ReadStep::Read(missing) => {
                n += 1;
                missing.replied(replies.next().unwrap())
            }
            ReadStep::Done(outcome) => return (outcome, n),
        }
    }
}

fn ints(range: std::ops::Range<i64>) -> Vec<RedisResult<Value>> {
    range.map(|n| Ok(Value::Int(n))).collect()
}

#[test]
fn the_database_is_remembered() {
    let mut con = Connection::new(&info(5));
    assert_eq!(con.get_db(), 5);
    con.req_packed_command(&cmd("PING"));
    assert_eq!(con.get_db(), 5);
    let mut con = MultiplexedConnection::new(&info(-1));
    assert_eq!(con.get_db(), -1);
    con.req_packed_command(&cmd("PING"));
    assert_eq!(con.get_db(), -1);
    assert_eq!(con.clone().get_db(), -1);
}

#[test]
fn a_command_on_a_connection_of_its_own() {
    let mut con = Connection::new(&info(0));
    assert_eq!(con.packed(), b"");
    let exchange = con.req_packed_command(&cmd("PING"));
    assert_eq!(con.packed(), PING);
    assert_eq!(read(exchange, ints(7..9)), (Ok(vec![Value::Int(7)]), 1));
    let exchange = con.req_packed_command(&cmd("QUIT"));
    assert_eq!(con.packed(), b"*1\r\n$4\r\nQUIT\r\n");
    assert_eq!(received_one(read(exchange, ints(3..4)).0), Ok(Value::Int(3)));
}

#[test]
fn multiple_commands_on_a_connection_of_its_own() {
    let mut con = Connection::new(&info(0));
    let exchange = con.req_packed_commands(&pings(2), 2, 3);
    assert_eq!(con.packed(), [PING, PING].concat().as_slice());
    assert_eq!(
        read(exchange, ints(0..9)),
        (
            Ok(vec![Value::Int(2), Value::Int(3), Value::Int(4)]),
            5
        )
    );
}

#[test]
fn no_replies_asked_for() {
    let mut con = Connection::new(&info(0));
    let exchange = con.req_packed_commands(&pings(0), 0, 0);
    assert_eq!(read(exchange, vec![]), (Ok(vec![]), 0));
    let exchange = con.req_packed_commands(&pings(1), 2, 0);
    assert_eq!(read(exchange, ints(0..9)), (Ok(vec![]), 2));
}

#[test]
fn any_offset_and_count_can_be_asked_for() {
    let mut con = Connection::new(&info(0));
    let exchange = con.req_packed_commands(&pings(1), usize::MAX, usize::MAX);
    let failed = vec![Err(io_error(IoErrorKind::TimedOut))];
    assert_eq!(
        read(exchange, failed),
        (Err(io_error(IoErrorKind::TimedOut)), 1)
    );
}

#[test]
fn the_first_failure_ends_the_reading() {
    let mut con = Connection::new(&info(0));
    for at in 0..4 {
        let mut replies = ints(0..at);
        replies.push(Err(io_error(IoErrorKind::ConnectionReset)));
        replies.extend(ints(0..9));
        let exchange = con.req_packed_commands(&pings(2), 2, 2);
        assert_eq!(
            read(exchange, replies),
            (
                Err(io_error(IoErrorKind::ConnectionReset)),
                at as usize + 1
            )
        );
    }
}

#[test]
fn a_request_that_is_not_written() {
    let mut con = Connection::new(&info(0));
    let exchange = con.req_packed_command(&cmd("PING"));
    let failed = IoError {
        kind: IoErrorKind::WriteZero,
        detail: Some("short".to_string()),
    };
    match exchange.written(Err(failed)) {
        ReadStep::Done(Err(RedisError::IoError(err))) => {
            assert_eq!(err.kind, IoErrorKind::WriteZero);
            assert_eq!(err.detail, Some("short".to_string()));
        }
        _ => panic!("goes on"),
    }
}

#[test]
fn responses_are_read_from_bytes() {
    let mut con = Connection::new(&info(0));
    assert!(matches!(con.read_response(), ResponseStep::Receive));
    assert!(matches!(con.received(Ok(b":1")), ResponseStep::Receive));
    match con.received(Ok(b"2\r\n-ERR no\r\n+O")) {
        ResponseStep::Done(response) => assert_eq!(response, Ok(Value::Int(12))),
        ResponseStep::Receive => panic!("not read"),
    }
    match con.read_response() {
        ResponseStep::Done(Err(RedisError::WithDescriptionAndDetail(kind, _, detail))) => {
            assert_eq!(kind, ErrorKind::ResponseError);
            assert_eq!(detail, "ERR no");
        }
        _ => panic!("not read"),
    }
    assert!(matches!(con.read_response(), ResponseStep::Receive));
    con.req_packed_command(&cmd("PING"));
    match con.received(Ok(b"K\r\n")) {
        ResponseStep::Done(response) => assert_eq!(response, Ok(Value::Okay)),
        ResponseStep::Receive => panic!("not read"),
    }
}

#[test]
fn a_socket_that_ends_or_fails() {
    let mut con = Connection::new(&info(0));
    match con.received(Ok(b"")) {
        ResponseStep::Done(response) => {
            assert_eq!(response, Err(io_error(IoErrorKind::UnexpectedEof)))
        }
        ResponseStep::Receive => panic!("goes on"),
    }
    let reset = IoError {
        kind: IoErrorKind::ConnectionReset,
        detail: None,
    };
    match con.received(Err(reset)) {
        ResponseStep::Done(response) => {
            assert_eq!(response, Err(io_error(IoErrorKind::ConnectionReset)))
        }
        ResponseStep::Receive => panic!("goes on"),
    }
    match con.received(Ok(b"?")) {
        ResponseStep::Done(response) => assert_eq!(
            response,
            Err(RedisError::WithDescription(
                ErrorKind::ResponseError,
                "parse error"
            ))
        ),
        ResponseStep::Receive => panic!("goes on"),
    }
}

#[test]
fn a_command_on_a_shared_connection() {
    let mut con = MultiplexedConnection::new(&info(0));
    let mut sink: PipelineSink<Value, RedisError> = PipelineSink::new();
    let exchange = con.req_packed_command(&cmd("PING"));
    assert_eq!(exchange.message.input, PING.to_vec());
    assert_eq!(exchange.message.response_count, 1);
    let forward = match sink.start_send(exchange.message) {
        Ok(forward) => forward,
        Err(()) => panic!("refused"),
    };
    assert_eq!(sink.start_sent(forward.pending, Ok(())), Ok(()));
    sink.send_result(Ok(Value::Okay));
    let response = exchange.receiver.into_inner().try_recv().unwrap();
    let outcome = received_one(received_multiple(Reply::Received(Ok(response))));
    assert_eq!(
        MultiplexedConnection::command_outcome(outcome),
        Ok(Value::Okay)
    );
}

#[test]
fn shared_connections_give_what_others_give() {
    for offset in 0..4 {
        for count in 0..4 {
            let total = (offset + count) as i64;
            let mut own = Connection::new(&info(0));
            let exchange = own.req_packed_commands(&pings(2), offset, count);
            let expected = read(exchange, ints(0..total)).0;

            let mut con = MultiplexedConnection::new(&info(0));
            let mut sink: PipelineSink<Value, RedisError> = PipelineSink::new();
            let exchange = con.req_packed_commands(&pings(2), offset, count);
            assert_eq!(exchange.message.input, own.packed().to_vec());
            assert_eq!(exchange.message.response_count, offset + count);
            assert_eq!(exchange.offset, offset);
            let forward = match sink.start_send(exchange.message) {
                Ok(forward) => forward,
                Err(()) => panic!("refused"),
            };
            assert_eq!(sink.start_sent(forward.pending, Ok(())), Ok(()));
            sink.poll_flush(false, Polled::Ready(Ok(())));
            for reply in ints(0..total) {
                sink.poll_read(false, Polled::Ready(Some(reply)));
            }
            let response = exchange.receiver.into_inner().try_recv().unwrap();
            let outcome = received_multiple(Reply::Received(Ok(response)));
            assert_eq!(
                MultiplexedConnection::commands_outcome(outcome, offset),
                expected
            );
        }
    }
}

#[test]
fn shared_connections_fail_as_others_do() {
    let reset = || io_error(IoErrorKind::ConnectionReset);
    for offset in 0..3 {
        for count in 0..3 {
            for replies in 0..(offset + count) as i64 {
                let mut results = ints(0..replies);
                results.push(Err(reset()));
                let mut own = Connection::new(&info(0));
                let exchange = own.req_packed_commands(&pings(2), offset, count);
                let expected = read(exchange, results).0;
                assert_eq!(expected, Err(reset()));

                let mut con = MultiplexedConnection::new(&info(0));
                let mut sink: PipelineSink<Value, RedisError> = PipelineSink::new();
                let exchange = con.req_packed_commands(&pings(2), offset, count);
                let forward = match sink.start_send(exchange.message) {
                    Ok(forward) => forward,
                    Err(()) => panic!("refused"),
                };
                assert_eq!(sink.start_sent(forward.pending, Ok(())), Ok(()));
                sink.poll_flush(false, Polled::Ready(Ok(())));
                for reply in ints(0..replies) {
                    sink.poll_read(false, Polled::Ready(Some(reply)));
                }
                sink.poll_read(false, Polled::Ready(Some(Err(reset()))));
                let response = exchange.receiver.into_inner().try_recv().unwrap();
                let outcome = received_multiple(Reply::Received(Ok(response)));
                assert_eq!(
                    MultiplexedConnection::commands_outcome(outcome, offset),
                    expected
                );
            }
        }
    }
}

#[test]
fn a_request_for_no_response_on_a_shared_connection() {
    let reset = || io_error(IoErrorKind::ConnectionReset);
    for (flushed, expected) in vec![(Ok(()), Ok(vec![])), (Err(reset()), Err(reset()))] {
        let mut con = MultiplexedConnection::new(&info(0));
        let mut sink: PipelineSink<Value, RedisError> = PipelineSink::new();
        let exchange = con.req_packed_commands(&pings(2), 0, 0);
        assert_eq!(exchange.message.response_count, 0);
        let forward = match sink.start_send(exchange.message) {
            Ok(forward) => forward,
            Err(()) => panic!("refused"),
        };
        assert_eq!(forward.input, [PING, PING].concat());
        assert_eq!(sink.start_sent(forward.pending, Ok(())), Ok(()));
        sink.poll_flush(false, Polled::Ready(flushed));
        let response = exchange.receiver.into_inner().try_recv().unwrap();
        let outcome = received_multiple(Reply::Received(Ok(response)));
        assert_eq!(
            MultiplexedConnection::commands_outcome(outcome, 0),
            expected
        );
    }
}

#[test]
fn shared_connections_fail_to_write_as_others_do() {
    let broken = || IoError {
        kind: IoErrorKind::ConnectionReset,
        detail: None,
    };
    for offset in 0..2 {
        for count in 0..2 {
            let mut own = Connection::new(&info(0));
            let exchange = own.req_packed_commands(&pings(2), offset, count);
            let expected = match exchange.written(Err(broken())) {
                ReadStep::Done(outcome) => outcome,
                ReadStep::Read(_) => panic!("goes on"),
            };
            assert_eq!(expected, Err(RedisError::IoError(broken())));

            let mut con = MultiplexedConnection::new(&info(0));
            let mut sink: PipelineSink<Value, RedisError> = PipelineSink::new();
            let exchange = con.req_packed_commands(&pings(2), offset, count);
            let forward = match sink.start_send(exchange.message) {
                Ok(forward) => forward,
                Err(()) => panic!("refused"),
            };
            assert_eq!(sink.start_sent(forward.pending, Ok(())), Ok(()));
            sink.poll_flush(false, Polled::Ready(Err(RedisError::IoError(broken()))));
            let response = exchange.receiver.into_inner().try_recv().unwrap();
            let outcome = received_multiple(Reply::Received(Ok(response)));
            assert_eq!(
                MultiplexedConnection::commands_outcome(outcome, offset),
                expected
            );
        }
    }
}

#[test]
fn a_pipeline_that_has_shut_down_is_a_broken_pipe() {
    assert_eq!(
        MultiplexedConnection::command_outcome(Err(None)),
        Err(io_error(IoErrorKind::BrokenPipe))
    );
    assert_eq!(
        MultiplexedConnection::commands_outcome(Err(None), 3),
        Err(io_error(IoErrorKind::BrokenPipe))
    );
}

#[test]
fn other_failures_are_passed_on() {
    let reset = || io_error(IoErrorKind::ConnectionReset);
    assert_eq!(
        MultiplexedConnection::command_outcome(Err(Some(reset()))),
        Err(reset())
    );
    assert_eq!(
        MultiplexedConnection::commands_outcome(Err(Some(reset())), 3),
        Err(reset())
    );
}
