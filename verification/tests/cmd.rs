use redis_aio::cmd::{cmd, Pipeline};

#[test]
fn a_command_is_packed() {
    let mut c = cmd("SET");
    c.arg(b"key");
    c.arg_int(42);
    assert_eq!(
        c.get_packed_command(),
        b"*3\r\n$3\r\nSET\r\n$3\r\nkey\r\n$2\r\n42\r\n".to_vec()
    );
}

#[test]
fn a_packed_command_is_appended() {
    let mut out = b"x".to_vec();
    cmd("PING").write_packed_command(&mut out);
    assert_eq!(out, b"x*1\r\n$4\r\nPING\r\n".to_vec());
}

#[test]
fn arguments_may_be_any_bytes() {
    let mut c = cmd("ECHO");
    c.arg(&[0, 13, 10, 255]);
    c.arg(b"");
    assert_eq!(
        c.get_packed_command(),
        b"*3\r\n$4\r\nECHO\r\n$4\r\n\x00\r\n\xff\r\n$0\r\n\r\n".to_vec()
    );
}

#[test]
fn long_arguments_have_long_counts() {
    let mut c = cmd("ECHO");
    c.arg(&[7; 1234]);
    let packed = c.get_packed_command();
    assert_eq!(&packed[..21], b"*2\r\n$4\r\nECHO\r\n$1234\r\n");
    assert_eq!(packed.len(), 4 + 10 + 7 + 1234 + 2);
}

#[test]
fn numbers_are_decimal() {
    for n in vec![0, 7, -1, 10, -90, i64::MAX, i64::MIN] {
        let mut c = cmd("N");
        c.arg_int(n);
        let mut plain = cmd("N");
        plain.arg(format!("{}", n).as_bytes());
        assert_eq!(c.get_packed_command(), plain.get_packed_command());
    }
}

#[test]
fn a_pipeline_is_its_commands_one_after_another() {
    let mut pipeline = Pipeline::new();
    assert_eq!(pipeline.get_packed_pipeline(), b"".to_vec());
    pipeline.add_command(cmd("PING"));
    pipeline.add_command(cmd("QUIT"));
    assert_eq!(
        pipeline.get_packed_pipeline(),
        b"*1\r\n$4\r\nPING\r\n*1\r\n$4\r\nQUIT\r\n".to_vec()
    );
    let mut out = b"x".to_vec();
    pipeline.write_packed_pipeline(&mut out);
    assert_eq!(out, b"x*1\r\n$4\r\nPING\r\n*1\r\n$4\r\nQUIT\r\n".to_vec());
}
