//! End-to-end request pipelines: bytes in, bytes out, against a
//! server whose clock is the test's to control.
use rust_redis::config::AppConfig;
use rust_redis::errors::RustRedisError;
use rust_redis::event_loop::{command_as_str, parse_commands, Server};
use rust_redis::resp::Resp;

fn fresh_server() -> Server {
    Server::new(&AppConfig { dir: None, dbfilename: None }, None)
}

#[test]
fn should_reply_to_ping() {
    const INPUT: &str = "*1\r\n$4\r\nPING\r\n";
    const EXPECT: &str = "+PONG\r\n";
    let mut server = fresh_server();
    let out = server.handle_chunk(INPUT.as_bytes(), 0);
    assert_eq!(out, EXPECT.as_bytes())
}

#[test]
fn should_reply_to_multiple_ping() {
    const INPUT: &str = "*1\r\n$4\r\nPING\r\n*1\r\n$4\r\nPING\r\n";
    const EXPECT: &str = "+PONG\r\n+PONG\r\n";
    let mut server = fresh_server();
    let out = server.handle_chunk(INPUT.as_bytes(), 0);
    assert_eq!(out, EXPECT.as_bytes())
}

#[test]
fn should_handle_echo_command() {
    const EXPECT: &str = "$3\r\nhey\r\n";
    const INPUT: &str = "*2\r\n$4\r\nECHO\r\n$3\r\nhey\r\n";
    let mut server = fresh_server();
    let out = server.handle_chunk(INPUT.as_bytes(), 0);
    assert_eq!(out, EXPECT.as_bytes())
}

#[test]
fn should_reply_error_if_invalid_commands_parse() {
    const INPUT: &str = "\r\n$4\r\nECHO\r\n$3\r\nhey\r\n";
    const EXPECT: &str = "-ERR invalid resp prefix\r\n";
    let mut server = fresh_server();
    let out = server.handle_chunk(INPUT.as_bytes(), 0);
    assert_eq!(out, EXPECT.as_bytes())
}

#[test]
fn should_reply_ok_on_set_successfull() {
    const INPUT: &str = "*3\r\n$3\r\nSET\r\n$5\r\nhello\r\n$5\r\nworld\r\n";
    const EXPECT: &str = "+OK\r\n";
    let mut server = fresh_server();
    let out = server.handle_chunk(INPUT.as_bytes(), 0);
    assert_eq!(out, EXPECT.as_bytes())
}

#[test]
fn should_reply_to_get_command() {
    const SET: &str = "*3\r\n$3\r\nSET\r\n$5\r\nhello\r\n$5\r\nworld\r\n";
    const GET: &str = "*2\r\n$3\r\nGET\r\n$5\r\nhello\r\n";
    const EXPECT: &str = "$5\r\nworld\r\n";
    let mut server = fresh_server();
    assert_eq!(server.handle_chunk(SET.as_bytes(), 0), b"+OK\r\n".to_vec());
    let out = server.handle_chunk(GET.as_bytes(), 0);
    assert_eq!(out, EXPECT.as_bytes())
}

#[test]
fn shoudl_reply_null_bulk_string_if_no_data() {
    const INPUT: &str = "*2\r\n$3\r\nGET\r\n$5\r\nhello\r\n";
    const EXPECT: &str = "$-1\r\n";
    let mut server = fresh_server();
    let out = server.handle_chunk(INPUT.as_bytes(), 0);
    assert_eq!(out, EXPECT.as_bytes())
}

#[test]
fn should_set_data_with_expiry() {
    const INPUT: &str = "*5\r\n$3\r\nSET\r\n$5\r\nhello\r\n$5\r\nworld\r\n$2\r\nPX\r\n$1\r\n1\r\n";
    const EXPECT: &str = "+OK\r\n";
    let mut server = fresh_server();
    let out = server.handle_chunk(INPUT.as_bytes(), 0);
    assert_eq!(out, EXPECT.as_bytes())
}

#[test]
fn should_reply_null_bulk_string_if_expired_date() {
    const SET: &str = "*5\r\n$3\r\nSET\r\n$5\r\nhello\r\n$5\r\nworld\r\n$2\r\nPX\r\n$1\r\n1\r\n";
    const GET: &str = "*2\r\n$3\r\nGET\r\n$5\r\nhello\r\n";
    const EXPECT: &str = "$-1\r\n";
    let mut server = fresh_server();
    assert_eq!(server.handle_chunk(SET.as_bytes(), 0), b"+OK\r\n".to_vec());
    let out = server.handle_chunk(GET.as_bytes(), 2);
    assert_eq!(out, EXPECT.as_bytes())
}

#[test]
fn should_reply_dir_to_get_config() {
    const EXPECT: &str = "*2\r\n$3\r\ndir\r\n$16\r\n/tmp/redis-files\r\n";
    const INPUT: &str = "*2\r\n$10\r\nCONFIG GET\r\n$3\r\ndir\r\n";
    let mut server = Server::new(
        &AppConfig { dir: Some("/tmp/redis-files".to_owned()), dbfilename: None },
        None,
    );
    let out = server.handle_chunk(INPUT.as_bytes(), 0);
    assert_eq!(out, EXPECT.as_bytes())
}

#[test]
fn should_reply_dbfilename_to_get_config() {
    const EXPECT: &str = "*2\r\n$10\r\ndbfilename\r\n$9\r\nredis.rdb\r\n";
    const INPUT: &str = "*2\r\n$10\r\nCONFIG GET\r\n$10\r\ndbfilename\r\n";
    let mut server = Server::new(
        &AppConfig { dir: None, dbfilename: Some("redis.rdb".to_owned()) },
        None,
    );
    let out = server.handle_chunk(INPUT.as_bytes(), 0);
    assert_eq!(out, EXPECT.as_bytes())
}

#[test]
fn should_reply_null_for_unset_config_field() {
    const EXPECT: &str = "*2\r\n$3\r\ndir\r\n$-1\r\n";
    const INPUT: &str = "*2\r\n$10\r\nCONFIG GET\r\n$3\r\ndir\r\n";
    let mut server = fresh_server();
    let out = server.handle_chunk(INPUT.as_bytes(), 0);
    assert_eq!(out, EXPECT.as_bytes())
}

#[test]
fn every_connection_of_many_gets_pong() {
    const INPUT: &str = "*1\r\n$4\r\nPING\r\n";
    const EXPECT: &str = "+PONG\r\n";
    let mut busy = fresh_server();
    busy.handle_chunk(b"*3\r\n$3\r\nSET\r\n$1\r\nk\r\n$1\r\nv\r\n", 0);
    for _client in 0..6 {
        let out = busy.handle_chunk(INPUT.as_bytes(), 0);
        assert_eq!(out, EXPECT.as_bytes());
    }
}

#[test]
fn responses_keep_request_order() {
    const INPUT: &str = "*1\r\n$4\r\nPING\r\n*2\r\n$4\r\nECHO\r\n$1\r\na\r\n*1\r\n$4\r\nPING\r\n";
    const EXPECT: &str = "+PONG\r\n$1\r\na\r\n+PONG\r\n";
    let mut server = fresh_server();
    let out = server.handle_chunk(INPUT.as_bytes(), 0);
    assert_eq!(out, EXPECT.as_bytes())
}

#[test]
fn dispatch_is_case_insensitive_end_to_end() {
    const INPUT: &str = "*1\r\n$4\r\npInG\r\n";
    const EXPECT: &str = "+PONG\r\n";
    let mut server = fresh_server();
    let out = server.handle_chunk(INPUT.as_bytes(), 0);
    assert_eq!(out, EXPECT.as_bytes())
}

#[test]
fn unknown_command_is_reported_by_name() {
    const INPUT: &str = "*1\r\n$5\r\nHELLO\r\n";
    const EXPECT: &str = "-ERR unknown command 'HELLO'\r\n";
    let mut server = fresh_server();
    let out = server.handle_chunk(INPUT.as_bytes(), 0);
    assert_eq!(out, EXPECT.as_bytes())
}

#[test]
fn non_utf8_command_name_is_invalid() {
    let mut server = fresh_server();
    let out = server.handle_chunk(b"*1\r\n$2\r\n\xff\xfe\r\n", 0);
    assert_eq!(out, b"-ERR invalid command 'invalid utf-8 sequence'\r\n".to_vec());
}

#[test]
fn parse_commands_splits_back_to_back_requests() {
    let input = b"*1\r\n$4\r\nPING\r\n+OK\r\n:42\r\n";
    let commands = parse_commands(input).unwrap();
    assert_eq!(
        commands,
        vec![
            Resp::Array(vec![Resp::BulkString(b"PING".to_vec())]),
            Resp::SimpleString(b"OK".to_vec()),
            Resp::Integers(42),
        ]
    );
}

#[test]
fn parse_commands_reports_first_error() {
    let err = parse_commands(b"*1\r\n$4\r\nPING\r\n&oops\r\n").unwrap_err();
    match err {
        RustRedisError::DeserializeError(e) => {
            assert_eq!(e.message(), "ERR invalid resp prefix")
        },
        _ => panic!(),
    }
}

#[test]
fn command_as_str_decodes_the_name() {
    assert_eq!(command_as_str(b"CONFIG GET").unwrap(), "CONFIG GET");
    let err = command_as_str(&[0x80]).unwrap_err();
    assert_eq!(err.message(), "ERR invalid command 'invalid utf-8 sequence'");
}

#[test]
fn bad_expiry_is_reported_through_the_pipeline() {
    const INPUT: &str = "*5\r\n$3\r\nSET\r\n$1\r\nk\r\n$1\r\nv\r\n$2\r\nPX\r\n$2\r\nxy\r\n";
    const EXPECT: &str = "-Could not parse expiration to a valid number\r\n";
    let mut server = fresh_server();
    let out = server.handle_chunk(INPUT.as_bytes(), 0);
    assert_eq!(out, EXPECT.as_bytes())
}

#[test]
fn wrong_px_marker_is_reported_through_the_pipeline() {
    const INPUT: &str = "*5\r\n$3\r\nSET\r\n$1\r\nk\r\n$1\r\nv\r\n$2\r\nEX\r\n$1\r\n1\r\n";
    const EXPECT: &str = "-Invalid arg for command SET expected PX got EX\r\n";
    let mut server = fresh_server();
    let out = server.handle_chunk(INPUT.as_bytes(), 0);
    assert_eq!(out, EXPECT.as_bytes())
}

#[test]
fn bad_length_field_is_reported() {
    const INPUT: &str = "$x\r\nzz\r\n";
    const EXPECT: &str = "-ERR invalid length\r\n";
    let mut server = fresh_server();
    let out = server.handle_chunk(INPUT.as_bytes(), 0);
    assert_eq!(out, EXPECT.as_bytes())
}

#[test]
fn truncated_chunk_is_reported_as_crlf_error() {
    const INPUT: &str = "*1\r\n$4\r\nPI";
    const EXPECT: &str = "-ERR invalid crlf\r\n";
    let mut server = fresh_server();
    let out = server.handle_chunk(INPUT.as_bytes(), 0);
    assert_eq!(out, EXPECT.as_bytes())
}
