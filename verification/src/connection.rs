//! Where a server is, how it is reached, and how a fresh connection makes itself known to it.

use std::path::PathBuf;
use vstd::prelude::*;

use crate::cmd::{cmd, Cmd};
use crate::types::{ErrorKind, IoError, RedisError, RedisResult, Value};

verus! {

/// A path of the file system, from std. It is carried through and not looked into.
#[verifier::external_type_specification]
#[verifier::external_body]
pub struct ExPathBuf(PathBuf);

/// Where a server listens.
pub enum ConnectionAddr {
    /// The name of a host and a port.
    Tcp(String, u16),
    /// A path to a unix socket.
    Unix(PathBuf),
}

/// What is needed to connect to a server.
pub struct ConnectionInfo {
    /// Where the server listens.
    pub addr: Box<ConnectionAddr>,
    /// The database to use.
    pub db: i64,
    /// The password to give, where one is needed.
    pub passwd: Option<String>,
}

/// An open connection, TCP or unix, of tokio or of async-std.
#[derive(Debug, PartialEq, Eq)]
pub enum ActualConnection<TT, UT, TA, UA> {
    /// A TCP connection of tokio.
    TcpTokio(TT),
    /// A unix connection of tokio.
    UnixTokio(UT),
    /// A TCP connection of async-std.
    TcpAsyncStd(TA),
    /// A unix connection of async-std.
    UnixAsyncStd(UA),
}

/// Connections of async-std.
pub struct AsyncStd;

/// Connections of tokio.
pub struct Tokio;

impl AsyncStd {
    /// The connection that an attempt to connect by TCP gave.
    pub fn connect_tcp<TT, UT, TA, UA>(connected: Result<TA, IoError>) -> (r: RedisResult<
        ActualConnection<TT, UT, TA, UA>,
    >)
        ensures
            r == (match connected {
                Ok(con) => Ok::<_, RedisError>(
                    ActualConnection::<TT, UT, TA, UA>::TcpAsyncStd(con),
                ),
                Err(err) => Err(RedisError::IoError(err)),
            }),
    {
        match connected {
            Ok(con) => Ok(ActualConnection::TcpAsyncStd(con)),
            Err(err) => Err(RedisError::IoError(err)),
        }
    }

    /// The connection that an attempt to connect to a unix socket gave.
    pub fn connect_unix<TT, UT, TA, UA>(connected: Result<UA, IoError>) -> (r: RedisResult<
        ActualConnection<TT, UT, TA, UA>,
    >)
        ensures
            r == (match connected {
                Ok(con) => Ok::<_, RedisError>(
                    ActualConnection::<TT, UT, TA, UA>::UnixAsyncStd(con),
                ),
                Err(err) => Err(RedisError::IoError(err)),
            }),
    {
        match connected {
            Ok(con) => Ok(ActualConnection::UnixAsyncStd(con)),
            Err(err) => Err(RedisError::IoError(err)),
        }
    }
}

impl Tokio {
    /// The connection that an attempt to connect by TCP gave.
    pub fn connect_tcp<TT, UT, TA, UA>(connected: Result<TT, IoError>) -> (r: RedisResult<
        ActualConnection<TT, UT, TA, UA>,
    >)
        ensures
            r == (match connected {
                Ok(con) => Ok::<_, RedisError>(ActualConnection::<TT, UT, TA, UA>::TcpTokio(con)),
                Err(err) => Err(RedisError::IoError(err)),
            }),
    {
        match connected {
            Ok(con) => Ok(ActualConnection::TcpTokio(con)),
            Err(err) => Err(RedisError::IoError(err)),
        }
    }

    /// The connection that an attempt to connect to a unix socket gave.
    pub fn connect_unix<TT, UT, TA, UA>(connected: Result<UT, IoError>) -> (r: RedisResult<
        ActualConnection<TT, UT, TA, UA>,
    >)
        ensures
            r == (match connected {
                Ok(con) => Ok::<_, RedisError>(ActualConnection::<TT, UT, TA, UA>::UnixTokio(con)),
                Err(err) => Err(RedisError::IoError(err)),
            }),
    {
        match connected {
            Ok(con) => Ok(ActualConnection::UnixTokio(con)),
            Err(err) => Err(RedisError::IoError(err)),
        }
    }
}

/// What is to be done to reach a server.
pub enum ConnectStep<'a> {
    /// Look up the addresses of `host`, hand them to `first_address`, and connect to the one
    /// that it picks.
    Resolve { host: &'a String, port: u16 },
    /// Connect to this unix socket.
    ConnectUnix { path: &'a PathBuf },
}

/// How to reach the server. Unix sockets can be reached where the platform has them.
pub fn connect_simple(connection_info: &ConnectionInfo, has_unix_sockets: bool) -> (r: RedisResult<
    ConnectStep<'_>,
>)
    ensures
        r == (match *connection_info.addr {
            ConnectionAddr::Tcp(host, port) => Ok::<_, RedisError>(
                ConnectStep::Resolve { host: &host, port },
            ),
            ConnectionAddr::Unix(path) => if has_unix_sockets {
                Ok(ConnectStep::ConnectUnix { path: &path })
            } else {
                Err(
                    RedisError::WithDescription(
                        ErrorKind::InvalidClientConfig,
                        "Cannot connect to unix sockets on this platform",
                    ),
                )
            },
        }),
{
    match &*connection_info.addr {
        ConnectionAddr::Tcp(host, port) => Ok(ConnectStep::Resolve { host, port: *port }),
        ConnectionAddr::Unix(path) => if has_unix_sockets {
            Ok(ConnectStep::ConnectUnix { path })
        } else {
            Err(
                RedisError::WithDescription(
                    ErrorKind::InvalidClientConfig,
                    "Cannot connect to unix sockets on this platform",
                ),
            )
        },
    }
}

/// The address to connect to: the first one that the look-up of the host gave.
pub fn first_address<A>(resolved: Result<Vec<A>, IoError>) -> (r: RedisResult<A>)
    ensures
        r == (match resolved {
            Err(err) => Err::<A, RedisError>(RedisError::IoError(err)),
            Ok(addresses) => if addresses@.len() == 0 {
                Err(
                    RedisError::WithDescription(
                        ErrorKind::InvalidClientConfig,
                        "No address found for host",
                    ),
                )
            } else {
                Ok(addresses@[0])
            },
        }),
{
    match resolved {
        Err(err) => Err(RedisError::IoError(err)),
        Ok(mut addresses) => if addresses.len() == 0 {
            Err(
                RedisError::WithDescription(
                    ErrorKind::InvalidClientConfig,
                    "No address found for host",
                ),
            )
        } else {
            Ok(addresses.swap_remove(0))
        },
    }
}

/// What is to be done next to make a fresh connection known to the server.
pub enum AuthStep {
    /// Send this command, and hand the reply to `auth_reply`.
    Auth(Cmd),
    /// Send this command, and hand the reply to `select_reply`.
    Select(Cmd),
    /// It is over, with this outcome.
    Done(RedisResult<()>),
}

/// A step of the authentication, as a mathematical value.
pub enum AuthStepView {
    Auth(Seq<Seq<u8>>),
    Select(Seq<Seq<u8>>),
    Done(RedisResult<()>),
}

impl View for AuthStep {
    type V = AuthStepView;

    open spec fn view(&self) -> AuthStepView {
        match *self {
            AuthStep::Auth(c) => AuthStepView::Auth(c@),
            AuthStep::Select(c) => AuthStepView::Select(c@),
            AuthStep::Done(outcome) => AuthStepView::Done(outcome),
        }
    }
}

/// The command that gives a password.
pub open spec fn auth_command(passwd: Seq<char>) -> Seq<Seq<u8>> {
    seq![vstd::utf8::encode_utf8("AUTH"@), vstd::utf8::encode_utf8(passwd)]
}

/// The command that picks a database.
pub open spec fn select_command(db: i64) -> Seq<Seq<u8>> {
    seq![vstd::utf8::encode_utf8("SELECT"@), crate::cmd::signed_decimal(db as int)]
}

/// The step that picks the database: none is needed for database 0.
pub open spec fn select_step(db: i64) -> AuthStepView {
    if db == 0 {
        AuthStepView::Done(Ok(()))
    } else {
        AuthStepView::Select(select_command(db))
    }
}

/// Whether a reply is the one that lets the authentication go on.
pub open spec fn is_okay(reply: RedisResult<Value>) -> bool {
    reply == Ok::<Value, RedisError>(Value::Okay)
}

/// Why an authentication fails when the server does not take the password.
pub open spec fn password_refused() -> RedisError {
    RedisError::WithDescription(ErrorKind::AuthenticationFailed, "Password authentication failed")
}

/// Why an authentication fails when the server does not switch to the database.
pub open spec fn database_refused() -> RedisError {
    RedisError::WithDescription(
        ErrorKind::ResponseError,
        "Redis server refused to switch database",
    )
}

/// The first step: give the password where there is one, else pick the database.
pub open spec fn first_step(connection_info: ConnectionInfo) -> AuthStepView {
    match connection_info.passwd {
        Some(passwd) => AuthStepView::Auth(auth_command(passwd@)),
        None => select_step(connection_info.db),
    }
}

/// The step after the server answered to the password.
pub open spec fn step_after_auth(db: i64, reply: RedisResult<Value>) -> AuthStepView {
    if is_okay(reply) {
        select_step(db)
    } else {
        AuthStepView::Done(Err(password_refused()))
    }
}

/// The step after the server answered to the choice of the database.
pub open spec fn step_after_select(reply: RedisResult<Value>) -> AuthStepView {
    if is_okay(reply) {
        AuthStepView::Done(Ok(()))
    } else {
        AuthStepView::Done(Err(database_refused()))
    }
}

/// The first step: give the password where there is one, else pick the database.
pub fn authenticate(connection_info: &ConnectionInfo) -> (step: AuthStep)
    ensures
        step@ == first_step(*connection_info),
{
    match &connection_info.passwd {
        Some(passwd) => {
            let mut c = cmd("AUTH");
            c.arg(passwd.as_str().as_bytes());
            assert(c@ =~= auth_command(passwd@));
            AuthStep::Auth(c)
        },
        None => select_database(connection_info.db),
    }
}

/// The step after the server answered to the password.
pub fn auth_reply(connection_info: &ConnectionInfo, reply: RedisResult<Value>) -> (step: AuthStep)
    ensures
        step@ == step_after_auth(connection_info.db, reply),
{
    match reply {
        Ok(Value::Okay) => select_database(connection_info.db),
        _ => AuthStep::Done(
            Err(
                RedisError::WithDescription(
                    ErrorKind::AuthenticationFailed,
                    "Password authentication failed",
                ),
            ),
        ),
    }
}

/// The step that picks the database.
fn select_database(db: i64) -> (step: AuthStep)
    ensures
        step@ == select_step(db),
{
    if db != 0 {
        let mut c = cmd("SELECT");
        c.arg_int(db);
        assert(c@ =~= select_command(db));
        AuthStep::Select(c)
    } else {
        AuthStep::Done(Ok(()))
    }
}

/// The last step, after the server answered to the choice of the database.
pub fn select_reply(reply: RedisResult<Value>) -> (step: AuthStep)
    ensures
        step@ == step_after_select(reply),
{
    match reply {
        Ok(Value::Okay) => AuthStep::Done(Ok(())),
        _ => AuthStep::Done(
            Err(
                RedisError::WithDescription(
                    ErrorKind::ResponseError,
                    "Redis server refused to switch database",
                ),
            ),
        ),
    }
}

} // verus!
