//! The registry and the individual command handlers.
use rust_redis::commands::command_registry::{CommandRegistry, CommandStep, RegisteredHandler};
use rust_redis::commands::echo::EchoCommand;
use rust_redis::commands::get::GetCommandHandler;
use rust_redis::commands::get_config::GetConfigCommandHandler;
use rust_redis::commands::ping::PingCommand;
use rust_redis::commands::set::SetCommandHandler;
use rust_redis::config::{AppConfig, ConfigField};
use rust_redis::errors::RustRedisError;
use rust_redis::resp::Resp;

#[test]
fn should_register_command() {
    let mut registry = CommandRegistry::new();
    registry.register("PING", RegisteredHandler::Ping(PingCommand));
    assert!(registry.command_handler("PING").is_ok())
}

#[test]
fn should_get_command_handler_from_registry() {
    let mut registry = CommandRegistry::new();
    registry.register("PING", RegisteredHandler::Ping(PingCommand));
    let handler = registry.command_handler("PING");
    assert!(handler.is_ok())
}

#[test]
fn should_throw_error_for_unknown_command() {
    let mut registry = CommandRegistry::new();
    registry.register("PING", RegisteredHandler::Ping(PingCommand));
    let handler = registry.command_handler("PONG");
    assert!(handler.is_err())
}

#[test]
fn shoudl_return_command_case_insensitive() {
    let mut registry = CommandRegistry::new();
    registry.register("PiNg", RegisteredHandler::Ping(PingCommand));
    let handler = registry.command_handler("PING");
    assert!(handler.is_ok())
}

#[test]
fn should_reply_to_ping_command() {
    let handler = PingCommand;
    let result = handler.handle(&[]).unwrap();
    assert_eq!(result, Resp::simple_string_from_str("PONG"))
}

#[test]
fn should_reply_to_echo() {
    let handler = EchoCommand::new();
    let result = handler.handle(&[Resp::BulkString(b"HELLO WORLD".to_vec())]);
    assert_eq!(result.unwrap(), Resp::BulkString(b"HELLO WORLD".to_vec()))
}

#[test]
fn should_throw_error_for_invalid_arg_lenght() {
    let handler = EchoCommand::new();
    let result = handler.handle(&[
        Resp::BulkString(b"HELLO WORLD".to_vec()),
        Resp::BulkString(b"HELLO WORLD".to_vec()),
    ]);
    assert!(result.is_err())
}

#[test]
fn get_should_retrieve_data() {
    let handler = GetCommandHandler::new();
    let message = handler.handle(&[Resp::bulk_string_from_str("HELLO")]).unwrap();
    assert_eq!(message.key, Resp::bulk_string_from_str("HELLO").serialize().unwrap());
}

#[test]
fn get_should_throw_error_if_not_enough_args() {
    let handler = GetCommandHandler::new();
    let result = handler.handle(&[]);
    assert!(result.is_err());
    assert_eq!(
        result.unwrap_err().message(),
        RustRedisError::InvalidArgLength(
            "GET".to_owned(),
            "1".to_owned(),
            "0".to_owned(),
        )
        .message()
    );
}

#[test]
fn should_insert_data() {
    let handler = SetCommandHandler::new();
    let message = handler
        .handle(&[
            Resp::bulk_string_from_str("HELLO"),
            Resp::bulk_string_from_str("WORLD"),
        ])
        .unwrap();
    assert_eq!(message.key, Resp::bulk_string_from_str("HELLO").serialize().unwrap());
    assert_eq!(message.value, Resp::bulk_string_from_str("WORLD").serialize().unwrap());
    assert_eq!(message.expiry, None);
}

#[test]
fn set_should_throw_error_if_not_enough_args() {
    let handler = SetCommandHandler::new();
    let result = handler.handle(&[Resp::bulk_string_from_str("HELLO")]);
    assert!(result.is_err());
    assert_eq!(
        result.unwrap_err().message(),
        RustRedisError::InvalidArgLength(
            "SET".to_owned(),
            "1".to_owned(),
            "2".to_owned(),
        )
        .message()
    );
}

#[test]
fn should_set_key_with_expiryt() {
    let handler = SetCommandHandler::new();
    let message = handler
        .handle(&[
            Resp::bulk_string_from_str("HELLO"),
            Resp::bulk_string_from_str("WORLD"),
            Resp::bulk_string_from_str("PX"),
            Resp::bulk_string_from_str("1000"),
        ])
        .unwrap();
    assert_eq!(message.expiry, Some(1000));
}

#[test]
fn should_throw_error_for_missing_expiry_arg() {
    let handler = SetCommandHandler::new();
    let result = handler.handle(&[
        Resp::bulk_string_from_str("HELLO"),
        Resp::bulk_string_from_str("WORLD"),
        Resp::bulk_string_from_str("PX"),
    ]);
    assert!(result.is_err());
    assert_eq!(
        result.unwrap_err().message(),
        RustRedisError::InvalidArgLength(
            "SET with EXPIRY".to_owned(),
            "3".to_owned(),
            "4".to_owned(),
        )
        .message()
    )
}

#[test]
fn should_throw_error_if_third_args_is_not_px() {
    let handler = SetCommandHandler::new();
    let result = handler.handle(&[
        Resp::bulk_string_from_str("HELLO"),
        Resp::bulk_string_from_str("WORLD"),
        Resp::bulk_string_from_str("XYZ"),
        Resp::bulk_string_from_str("1000"),
    ]);
    assert!(result.is_err());
    assert_eq!(
        result.unwrap_err().message(),
        RustRedisError::InvalidArg("SET".to_owned(), "PX".to_owned(), "XYZ".to_owned()).message()
    )
}

#[test]
fn should_throw_error_if_couldnot_parse_expiry() {
    let handler = SetCommandHandler::new();
    let result = handler.handle(&[
        Resp::bulk_string_from_str("HELLO"),
        Resp::bulk_string_from_str("WORLD"),
        Resp::bulk_string_from_str("PX"),
        Resp::bulk_string_from_str("dqlskdml"),
    ]);
    assert!(result.is_err());
    assert_eq!(
        result.unwrap_err().message(),
        "Could not parse expiration to a valid number".to_owned()
    )
}

#[test]
fn should_get_config_field() {
    let config = AppConfig { dir: None, dbfilename: Some("redis.rdb".to_owned()) };
    let handler = GetConfigCommandHandler::new(&config);
    let arg = Resp::bulk_string_from_str("dbfilename");

    let result = handler.handle(&[arg]).unwrap();
    assert_eq!(
        result,
        Resp::Array(vec![
            Resp::bulk_string_from_str("dbfilename"),
            Resp::bulk_string_from_str("redis.rdb"),
        ])
    )
}

#[test]
fn should_throw_error_for_non_bulk_string_arg() {
    let config = AppConfig { dir: None, dbfilename: Some("redis.rdb".to_owned()) };
    let handler = GetConfigCommandHandler::new(&config);
    let arg = Resp::simple_string_from_str("HELLO");

    let result = handler.handle(&[arg]);
    assert_eq!(
        result.unwrap_err().message(),
        RustRedisError::InvalidArgType("bulk string".to_owned()).message()
    )
}

#[test]
fn should_throw_error_for_invalid_arg_length() {
    let config = AppConfig { dir: None, dbfilename: Some("redis.rdb".to_owned()) };
    let handler = GetConfigCommandHandler::new(&config);

    let result = handler.handle(&[]);
    assert_eq!(
        result.unwrap_err().message(),
        RustRedisError::InvalidArgLength(
            "CONFIG GET".to_owned(),
            "1".to_owned(),
            "0".to_owned(),
        )
        .message()
    )
}

#[test]
fn should_throw_error_for_unknown_config_field() {
    let config = AppConfig { dir: None, dbfilename: None };
    let handler = GetConfigCommandHandler::new(&config);
    let arg = Resp::bulk_string_from_str("maxmemory");

    let result = handler.handle(&[arg]);
    assert_eq!(
        result.unwrap_err().message(),
        "ERR invalid config field 'maxmemory'".to_owned()
    )
}

#[test]
fn config_field_reads_known_names() {
    assert_eq!(
        ConfigField::try_from_resp(&Resp::bulk_string_from_str("dir")).unwrap(),
        ConfigField::Dir
    );
    assert_eq!(
        ConfigField::try_from_resp(&Resp::bulk_string_from_str("dbfilename")).unwrap(),
        ConfigField::Dbfilename
    );
}

#[test]
fn no_args_command_equals_command_with_empty_args() {
    let mut registry = CommandRegistry::new();
    registry.register("PING", RegisteredHandler::Ping(PingCommand));
    let direct = registry.no_args_command("ping");
    let via_args = registry.command_with_args("ping", &[]);
    match (direct.unwrap(), via_args.unwrap()) {
        (CommandStep::Reply(a), CommandStep::Reply(b)) => {
            assert_eq!(a, Resp::simple_string_from_str("PONG"));
            assert_eq!(b, Resp::simple_string_from_str("PONG"));
        },
        _ => panic!(),
    }
}

#[test]
fn command_with_args_reports_unknown_names() {
    let registry = CommandRegistry::new();
    let result = registry.command_with_args("NOPE", &[]);
    assert_eq!(
        result.unwrap_err().message(),
        RustRedisError::UnknownCommand("NOPE".to_owned()).message()
    );
}
