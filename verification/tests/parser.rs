use redis_aio::cmd::cmd;
use redis_aio::parser::{decode, Decoder};
use redis_aio::types::{ErrorKind, RedisError, RedisResult, Value};

/// The reply that the bytes are, all of them.
fn whole(bytes: &[u8]) -> RedisResult<Value> {
    match decode(bytes) {
        Ok(Some((reply, end))) => {
            assert_eq!(end, bytes.len());
            reply
        }
        other => panic!("{:?}", other),
    }
}

fn server_error(line: &str) -> RedisError {
    RedisError::WithDescriptionAndDetail(
        ErrorKind::ResponseError,
        "An error was signalled by the server",
        line.to_string(),
    )
}

#[test]
fn replies_of_each_kind() {
    assert_eq!(whole(b"+OK\r\n"), Ok(Value::Okay));
    assert_eq!(whole(b"+PONG\r\n"), Ok(Value::Status("PONG".to_string())));
    assert_eq!(whole(b"+\r\n"), Ok(Value::Status(String::new())));
    assert_eq!(
        whole("+h\u{e9}\r\n".as_bytes()),
        Ok(Value::Status("h\u{e9}".to_string()))
    );
    assert_eq!(whole(b":42\r\n"), Ok(Value::Int(42)));
    assert_eq!(whole(b":-7\r\n"), Ok(Value::Int(-7)));
    assert_eq!(whole(b":9223372036854775807\r\n"), Ok(Value::Int(i64::MAX)));
    assert_eq!(
        whole(b":-9223372036854775808\r\n"),
        Ok(Value::Int(i64::MIN))
    );
    assert_eq!(
        whole(b"$5\r\nab\r\nc\r\n"),
        Ok(Value::Data(b"ab\r\nc".to_vec()))
    );
    assert_eq!(whole(b"$0\r\n\r\n"), Ok(Value::Data(vec![])));
    assert_eq!(whole(b"$-1\r\n"), Ok(Value::Nil));
    assert_eq!(whole(b"*-1\r\n"), Ok(Value::Nil));
    assert_eq!(whole(b"*0\r\n"), Ok(Value::Bulk(vec![])));
    assert_eq!(
        whole(b"*3\r\n:1\r\n*1\r\n+OK\r\n$-1\r\n"),
        Ok(Value::Bulk(vec![
            Value::Int(1),
            Value::Bulk(vec![Value::Okay]),
            Value::Nil
        ]))
    );
    assert_eq!(
        whole(b"-ERR no such key\r\n"),
        Err(server_error("ERR no such key"))
    );
}

#[test]
fn an_error_in_a_list_stands_for_the_list() {
    assert_eq!(
        whole(b"*3\r\n:1\r\n-ERR first\r\n-ERR second\r\n"),
        Err(server_error("ERR first"))
    );
}

#[test]
fn invalid_bytes() {
    let wrong: Vec<&[u8]> = vec![
        b"x",
        b"?\r\n",
        b":\r\n",
        b":-\r\n",
        b":1a\r\n",
        b":9223372036854775808\r\n",
        b":-9223372036854775809\r\n",
        b":99999999999999999999999999999999999999999999\r\n",
        b"$x\r\n",
        b"$1\r\nabc",
        b"+\xff\r\n",
        b"-\xff\r\n",
        b"*1\r\nx",
    ];
    for bytes in wrong {
        assert_eq!(
            decode(bytes),
            Err(RedisError::WithDescription(
                ErrorKind::ResponseError,
                "parse error"
            ))
        );
    }
}

#[test]
fn a_reply_is_read_when_its_last_byte_is_there() {
    let bytes = b"*2\r\n$3\r\nabc\r\n:-12\r\n";
    for len in 0..bytes.len() {
        assert_eq!(decode(&bytes[..len]), Ok(None));
    }
    assert_eq!(
        whole(bytes),
        Ok(Value::Bulk(vec![
            Value::Data(b"abc".to_vec()),
            Value::Int(-12)
        ]))
    );
}

#[test]
fn what_follows_a_reply_does_not_matter() {
    assert_eq!(decode(b":1\r\nxyz"), Ok(Some((Ok(Value::Int(1)), 4))));
}

#[test]
fn a_packed_command_is_read_back() {
    let mut c = cmd("SET");
    c.arg(b"k\r\n");
    c.arg_int(-5);
    assert_eq!(
        whole(&c.get_packed_command()),
        Ok(Value::Bulk(vec![
            Value::Data(b"SET".to_vec()),
            Value::Data(b"k\r\n".to_vec()),
            Value::Data(b"-5".to_vec())
        ]))
    );
}

#[test]
fn a_decoder_takes_replies_out_of_chunks() {
    let bytes = b"+OK\r\n:7\r\n$2\r\nhi\r\n";
    for size in 1..bytes.len() {
        let mut decoder = Decoder::new();
        let mut replies = Vec::new();
        for chunk in bytes.chunks(size) {
            decoder.fill(chunk);
            while let Ok(Some(reply)) = decoder.take_reply() {
                replies.push(reply);
            }
        }
        assert_eq!(
            replies,
            vec![
                Ok(Value::Okay),
                Ok(Value::Int(7)),
                Ok(Value::Data(b"hi".to_vec()))
            ]
        );
    }
}

#[test]
fn a_decoder_keeps_bytes_that_follow_no_rule() {
    let mut decoder = Decoder::new();
    decoder.fill(b"nonsense");
    assert!(decoder.take_reply().is_err());
    decoder.fill(b"+OK\r\n");
    assert!(decoder.take_reply().is_err());
}
