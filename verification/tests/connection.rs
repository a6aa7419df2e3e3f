use redis_aio::connection::{
    auth_reply, authenticate, connect_simple, first_address, select_reply, ActualConnection,
    AsyncStd, AuthStep, ConnectStep, ConnectionAddr, ConnectionInfo, Tokio,
};
use redis_aio::types::{ErrorKind, IoError, IoErrorKind, RedisError, RedisResult, Value};
use std::path::PathBuf;

fn info(passwd: Option<&str>, db: i64) -> ConnectionInfo {
    ConnectionInfo {
        addr: Box::new(ConnectionAddr::Tcp("localhost".to_string(), 6379)),
        db,
        passwd: passwd.map(|passwd| passwd.to_string()),
    }
}

fn refused() -> IoError {
    IoError {
        kind: IoErrorKind::ConnectionRefused,
        detail: None,
    }
}

/// The packed commands that an authentication sends, and its outcome.
fn run(
    info: &ConnectionInfo,
    replies: Vec<RedisResult<Value>>,
) -> (Vec<Vec<u8>>, RedisResult<()>) {
    let mut sent = Vec::new();
    let mut replies = replies.into_iter();
    let mut step = authenticate(info);
    loop {
        step = match step {
            AuthStep::Auth(c) => {
                sent.push(c.get_packed_command());
                auth_reply(info, replies.next().unwrap())
            }
            AuthStep::Select(c) => {
                sent.push(c.get_packed_command());
                select_reply(replies.next().unwrap())
            }
            AuthStep::Done(outcome) => return (sent, outcome),
        }
    }
}

const AUTH: &[u8] = b"*2\r\n$4\r\nAUTH\r\n$6\r\nsecret\r\n";
const SELECT: &[u8] = b"*2\r\n$6\r\nSELECT\r\n$2\r\n12\r\n";

#[test]
fn nothing_to_authenticate() {
    assert_eq!(run(&info(None, 0), vec![]), (vec![], Ok(())));
}

#[test]
fn password_then_database() {
    let sent = vec![AUTH.to_vec(), SELECT.to_vec()];
    assert_eq!(
        run(
            &info(Some("secret"), 12),
            vec![Ok(Value::Okay), Ok(Value::Okay)]
        ),
        (sent, Ok(()))
    );
}

#[test]
fn password_alone_and_database_alone() {
    assert_eq!(
        run(&info(Some("secret"), 0), vec![Ok(Value::Okay)]),
        (vec![AUTH.to_vec()], Ok(()))
    );
    assert_eq!(
        run(&info(None, 12), vec![Ok(Value::Okay)]),
        (vec![SELECT.to_vec()], Ok(()))
    );
}

#[test]
fn a_negative_database_is_asked_for() {
    let sent = b"*2\r\n$6\r\nSELECT\r\n$2\r\n-3\r\n".to_vec();
    assert_eq!(
        run(&info(None, -3), vec![Ok(Value::Okay)]),
        (vec![sent], Ok(()))
    );
}

#[test]
fn a_refused_password() {
    for reply in vec![
        Ok(Value::Nil),
        Ok(Value::Status("QUEUED".to_string())),
        Err(RedisError::IoError(refused())),
    ] {
        assert_eq!(
            run(&info(Some("secret"), 12), vec![reply]),
            (
                vec![AUTH.to_vec()],
                Err(RedisError::WithDescription(
                    ErrorKind::AuthenticationFailed,
                    "Password authentication failed"
                ))
            )
        );
    }
}

#[test]
fn a_refused_database() {
    let outcome = run(
        &info(Some("secret"), 12),
        vec![Ok(Value::Okay), Ok(Value::Int(1))],
    );
    assert_eq!(
        outcome,
        (
            vec![AUTH.to_vec(), SELECT.to_vec()],
            Err(RedisError::WithDescription(
                ErrorKind::ResponseError,
                "Redis server refused to switch database"
            ))
        )
    );
}

#[test]
fn a_host_is_looked_up() {
    let info = info(None, 0);
    match connect_simple(&info, false) {
        Ok(ConnectStep::Resolve { host, port }) => {
            assert_eq!(host, "localhost");
            assert_eq!(port, 6379);
        }
        _ => panic!("not looked up"),
    }
}

#[test]
fn a_unix_socket_needs_a_platform_that_has_them() {
    let mut info = info(None, 0);
    info.addr = Box::new(ConnectionAddr::Unix(PathBuf::from("/run/redis.sock")));
    match connect_simple(&info, true) {
        Ok(ConnectStep::ConnectUnix { path }) => {
            assert_eq!(path, &PathBuf::from("/run/redis.sock"));
        }
        _ => panic!("not connected"),
    }
    match connect_simple(&info, false) {
        Err(err) => {
            assert_eq!(
                err,
                RedisError::WithDescription(
                    ErrorKind::InvalidClientConfig,
                    "Cannot connect to unix sockets on this platform"
                )
            );
        }
        _ => panic!("connected"),
    }
}

#[test]
fn the_first_address_is_used() {
    assert_eq!(first_address(Ok(vec![3, 1, 2])), Ok(3));
    let none: Result<Vec<u8>, IoError> = Ok(vec![]);
    assert_eq!(
        first_address(none),
        Err(RedisError::WithDescription(
            ErrorKind::InvalidClientConfig,
            "No address found for host"
        ))
    );
    let failed: Result<Vec<u8>, IoError> = Err(refused());
    assert_eq!(first_address(failed), Err(RedisError::IoError(refused())));
}

#[test]
fn connections_of_each_runtime() {
    type Actual = ActualConnection<u8, u16, u32, u64>;
    let tcp: RedisResult<Actual> = Tokio::connect_tcp(Ok(1));
    assert_eq!(tcp, Ok(ActualConnection::TcpTokio(1)));
    let unix: RedisResult<Actual> = Tokio::connect_unix(Ok(2));
    assert_eq!(unix, Ok(ActualConnection::UnixTokio(2)));
    let tcp: RedisResult<Actual> = AsyncStd::connect_tcp(Ok(3));
    assert_eq!(tcp, Ok(ActualConnection::TcpAsyncStd(3)));
    let unix: RedisResult<Actual> = AsyncStd::connect_unix(Ok(4));
    assert_eq!(unix, Ok(ActualConnection::UnixAsyncStd(4)));
    let failed: RedisResult<Actual> = Tokio::connect_tcp(Err(refused()));
    assert_eq!(failed, Err(RedisError::IoError(refused())));
    let failed: RedisResult<Actual> = Tokio::connect_unix(Err(refused()));
    assert_eq!(failed, Err(RedisError::IoError(refused())));
    let failed: RedisResult<Actual> = AsyncStd::connect_tcp(Err(refused()));
    assert_eq!(failed, Err(RedisError::IoError(refused())));
    let failed: RedisResult<Actual> = AsyncStd::connect_unix(Err(refused()));
    assert_eq!(failed, Err(RedisError::IoError(refused())));
}
