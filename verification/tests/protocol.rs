use blobnom_protocol::RedisCommand;
use blobnom_protocol::RespValue;
use blobnom_protocol::parse_command;
use blobnom_protocol::parse_resp_with_remaining;
use blobnom_protocol::serialize_frame;

#[test]
fn test_parse_get_command() {
    let input = b"*2\r\n$3\r\nGET\r\n$7\r\nmykey42\r\n";
    let (resp, _) = parse_resp_with_remaining(input).unwrap();
    let command = parse_command(resp).unwrap();
    assert_eq!(
        command,
        RedisCommand::Get {
            key: "mykey42".to_string()
        }
    );
}

#[test]
fn test_parse_set_command() {
    let input = b"*3\r\n$3\r\nSET\r\n$5\r\nmykey\r\n$11\r\nhello world\r\n";
    let (resp, _) = parse_resp_with_remaining(input).unwrap();
    let command = parse_command(resp).unwrap();
    assert_eq!(
        command,
        RedisCommand::SetValue {
            key: "mykey".to_string(),
            value: b"hello world".to_vec()
        }
    );
}

#[test]
fn test_parse_del_command() {
    let input = b"*2\r\n$3\r\nDEL\r\n$5\r\nmykey\r\n";
    let (resp, _) = parse_resp_with_remaining(input).unwrap();
    let command = parse_command(resp).unwrap();
    assert_eq!(
        command,
        RedisCommand::Del {
            key: "mykey".to_string()
        }
    );
}

#[test]
fn test_parse_exists_command() {
    let input = b"*2\r\n$6\r\nEXISTS\r\n$5\r\nmykey\r\n";
    let (resp, _) = parse_resp_with_remaining(input).unwrap();
    let command = parse_command(resp).unwrap();
    assert_eq!(
        command,
        RedisCommand::Exists {
            key: "mykey".to_string()
        }
    );
}

#[test]
fn test_parse_ping_command() {
    // PING without message
    let input = b"*1\r\n$4\r\nPING\r\n";
    let (resp, _) = parse_resp_with_remaining(input).unwrap();
    let command = parse_command(resp).unwrap();
    assert_eq!(command, RedisCommand::Ping { message: None });

    // PING with message
    let input = b"*2\r\n$4\r\nPING\r\n$5\r\nhello\r\n";
    let (resp, _) = parse_resp_with_remaining(input).unwrap();
    let command = parse_command(resp).unwrap();
    assert_eq!(
        command,
        RedisCommand::Ping {
            message: Some("hello".to_string())
        }
    );
}

#[test]
fn test_parse_info_command() {
    // INFO without section
    let input = b"*1\r\n$4\r\nINFO\r\n";
    let (resp, _) = parse_resp_with_remaining(input).unwrap();
    let command = parse_command(resp).unwrap();
    assert_eq!(command, RedisCommand::Info { section: None });

    // INFO with section
    let input = b"*2\r\n$4\r\nINFO\r\n$6\r\nserver\r\n";
    let (resp, _) = parse_resp_with_remaining(input).unwrap();
    let command = parse_command(resp).unwrap();
    assert_eq!(
        command,
        RedisCommand::Info {
            section: Some("server".to_string())
        }
    );
}

#[test]
fn test_parse_quit_command() {
    let input = b"*1\r\n$4\r\nQUIT\r\n";
    let (resp, _) = parse_resp_with_remaining(input).unwrap();
    let command = parse_command(resp).unwrap();
    assert_eq!(command, RedisCommand::Quit);
}

#[test]
fn test_parse_command_command() {
    let input = b"*1\r\n$7\r\nCOMMAND\r\n";
    let (resp, _) = parse_resp_with_remaining(input).unwrap();
    let command = parse_command(resp).unwrap();
    assert_eq!(command, RedisCommand::Command);
}

#[test]
fn test_parse_unknown_command() {
    let input = b"*2\r\n$7\r\nUNKNOWN\r\n$3\r\narg\r\n";
    let (resp, _) = parse_resp_with_remaining(input).unwrap();
    let command = parse_command(resp).unwrap();
    assert_eq!(command, RedisCommand::Unknown("UNKNOWN".to_string()));
}

#[test]
fn test_parse_case_insensitive_commands() {
    let input = b"*2\r\n$3\r\nget\r\n$5\r\nmykey\r\n";
    let (resp, _) = parse_resp_with_remaining(input).unwrap();
    let command = parse_command(resp).unwrap();
    assert_eq!(
        command,
        RedisCommand::Get {
            key: "mykey".to_string()
        }
    );
}

#[test]
fn test_serialize_simple_string() {
    let value = RespValue::SimpleString(b"OK".to_vec());
    let serialized = serialize_frame(&value);
    assert_eq!(serialized.as_slice(), b"+OK\r\n");
}

#[test]
fn test_serialize_error() {
    let value = RespValue::Error(b"ERR something".to_vec());
    let serialized = serialize_frame(&value);
    assert_eq!(serialized.as_slice(), b"-ERR something\r\n");
}

#[test]
fn test_serialize_integer() {
    let value = RespValue::Integer(42);
    let serialized = serialize_frame(&value);
    assert_eq!(serialized.as_slice(), b":42\r\n");
}

#[test]
fn test_serialize_bulk_string() {
    let value = RespValue::BulkString(b"hello".to_vec());
    let serialized = serialize_frame(&value);
    assert_eq!(serialized.as_slice(), b"$5\r\nhello\r\n");
}

#[test]
fn test_serialize_null() {
    let value = RespValue::Null;
    let serialized = serialize_frame(&value);
    assert_eq!(serialized.as_slice(), b"$-1\r\n");
}

#[test]
fn test_serialize_array() {
    let value = RespValue::Array(vec![
        RespValue::BulkString(b"GET".to_vec()),
        RespValue::BulkString(b"key".to_vec()),
    ]);
    let serialized = serialize_frame(&value);
    assert_eq!(serialized.as_slice(), b"*2\r\n$3\r\nGET\r\n$3\r\nkey\r\n");
}
