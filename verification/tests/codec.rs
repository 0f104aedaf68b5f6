use blobnom_protocol::ParseError;
use blobnom_protocol::RedisCommand;
use blobnom_protocol::RespValue;
use blobnom_protocol::parse_command;
use blobnom_protocol::parse_resp_with_remaining;
use blobnom_protocol::serialize_frame;

fn bulk(s: &[u8]) -> RespValue {
    RespValue::BulkString(s.to_vec())
}

fn parse_bytes(input: &[u8]) -> Result<RedisCommand, ParseError> {
    let (resp, rem) = parse_resp_with_remaining(input).unwrap();
    assert!(rem.is_empty());
    parse_command(resp)
}

#[test]
fn round_trip_every_supported_command() {
    let frames = vec![
        (
            vec![bulk(b"GET"), bulk(b"k1")],
            RedisCommand::Get {
                key: "k1".to_string(),
            },
        ),
        (
            vec![bulk(b"SET"), bulk(b"k1"), bulk(b"v\x00v")],
            RedisCommand::SetValue {
                key: "k1".to_string(),
                value: b"v\x00v".to_vec(),
            },
        ),
        (
            vec![bulk(b"DEL"), bulk(b"k1")],
            RedisCommand::Del {
                key: "k1".to_string(),
            },
        ),
        (
            vec![bulk(b"EXISTS"), bulk(b"k1")],
            RedisCommand::Exists {
                key: "k1".to_string(),
            },
        ),
        (
            vec![bulk(b"PING")],
            RedisCommand::Ping { message: None },
        ),
        (
            vec![bulk(b"PING"), bulk(b"hey")],
            RedisCommand::Ping {
                message: Some("hey".to_string()),
            },
        ),
        (
            vec![bulk(b"INFO")],
            RedisCommand::Info { section: None },
        ),
        (
            vec![bulk(b"INFO"), bulk(b"server")],
            RedisCommand::Info {
                section: Some("server".to_string()),
            },
        ),
        (vec![bulk(b"COMMAND")], RedisCommand::Command),
        (vec![bulk(b"QUIT")], RedisCommand::Quit),
    ];
    for (elements, expected) in frames {
        let wire = serialize_frame(&RespValue::Array(elements));
        let (resp, rem) = parse_resp_with_remaining(wire.as_slice()).unwrap();
        assert!(rem.is_empty());
        assert_eq!(parse_command(resp).unwrap(), expected);
    }
}

#[test]
fn case_insensitive_variants_parse_identically() {
    for name in [&b"GET"[..], b"get", b"GeT", b"gEt"] {
        let mut wire = b"*2\r\n$3\r\n".to_vec();
        wire.extend_from_slice(name);
        wire.extend_from_slice(b"\r\n$5\r\nmykey\r\n");
        let command = parse_bytes(&wire).unwrap();
        assert_eq!(
            command,
            RedisCommand::Get {
                key: "mykey".to_string()
            }
        );
    }
}

#[test]
fn fixed_arity_mismatch_is_invalid() {
    let cases: Vec<(&[u8], &str)> = vec![
        (b"*1\r\n$3\r\nGET\r\n", "GET requires exactly 1 argument"),
        (
            b"*3\r\n$3\r\nGET\r\n$1\r\na\r\n$1\r\nb\r\n",
            "GET requires exactly 1 argument",
        ),
        (b"*1\r\n$3\r\nDEL\r\n", "DEL requires exactly 1 argument"),
        (
            b"*3\r\n$3\r\nDEL\r\n$1\r\na\r\n$1\r\nb\r\n",
            "DEL requires exactly 1 argument",
        ),
        (
            b"*1\r\n$6\r\nEXISTS\r\n",
            "EXISTS requires exactly 1 argument",
        ),
        (
            b"*2\r\n$3\r\nSET\r\n$1\r\nk\r\n",
            "SET requires exactly 2 arguments",
        ),
        (
            b"*4\r\n$3\r\nSET\r\n$1\r\nk\r\n$1\r\nv\r\n$1\r\nx\r\n",
            "SET requires exactly 2 arguments",
        ),
    ];
    for (input, expected) in cases {
        match parse_bytes(input) {
            Err(ParseError::Invalid(m)) => assert_eq!(m, expected),
            other => panic!("expected Invalid, got {:?}", other),
        }
    }
}

#[test]
fn ping_and_info_ignore_extra_arguments() {
    let command = parse_bytes(b"*3\r\n$4\r\nPING\r\n$2\r\nhi\r\n$5\r\nextra\r\n").unwrap();
    assert_eq!(
        command,
        RedisCommand::Ping {
            message: Some("hi".to_string())
        }
    );
    let command = parse_bytes(b"*3\r\n$4\r\nINFO\r\n$3\r\ncpu\r\n$5\r\nextra\r\n").unwrap();
    assert_eq!(
        command,
        RedisCommand::Info {
            section: Some("cpu".to_string())
        }
    );
}

#[test]
fn null_argument_is_invalid_for_text_and_bytes() {
    // Text-extraction path.
    match parse_bytes(b"*2\r\n$3\r\nGET\r\n$-1\r\n") {
        Err(ParseError::Invalid(m)) => assert_eq!(m, "Cannot use null as string argument"),
        other => panic!("expected Invalid, got {:?}", other),
    }
    match parse_bytes(b"*2\r\n$4\r\nPING\r\n$-1\r\n") {
        Err(ParseError::Invalid(m)) => assert_eq!(m, "Cannot use null as string argument"),
        other => panic!("expected Invalid, got {:?}", other),
    }
    // Byte-extraction path (SET's value).
    match parse_bytes(b"*3\r\n$3\r\nSET\r\n$1\r\nk\r\n$-1\r\n") {
        Err(ParseError::Invalid(m)) => assert_eq!(m, "Cannot use null as byte argument"),
        other => panic!("expected Invalid, got {:?}", other),
    }
}

#[test]
fn truncated_prefixes_are_incomplete() {
    let full = b"*2\r\n$3\r\nGET\r\n$7\r\nmykey42\r\n";
    for cut in 0..full.len() {
        match parse_resp_with_remaining(&full[..cut]) {
            Err(ParseError::Incomplete) => {}
            other => panic!("cut {} expected Incomplete, got {:?}", cut, other),
        }
    }
}

#[test]
fn truncated_second_element_is_incomplete() {
    let input = b"*2\r\n$3\r\nGET\r\n";
    match parse_resp_with_remaining(input) {
        Err(ParseError::Incomplete) => {}
        other => panic!("expected Incomplete, got {:?}", other),
    }
}

#[test]
fn unknown_lower_case_name_is_upper_cased() {
    let command = parse_bytes(b"*1\r\n$5\r\nhello\r\n").unwrap();
    assert_eq!(command, RedisCommand::Unknown("HELLO".to_string()));
}

#[test]
fn non_array_and_empty_array_are_invalid() {
    let (resp, _) = parse_resp_with_remaining(b":1\r\n").unwrap();
    match parse_command(resp) {
        Err(ParseError::Invalid(m)) => assert_eq!(m, "Commands must be arrays"),
        other => panic!("expected Invalid, got {:?}", other),
    }
    let (resp, _) = parse_resp_with_remaining(b"*0\r\n").unwrap();
    match parse_command(resp) {
        Err(ParseError::Invalid(m)) => assert_eq!(m, "Empty command array"),
        other => panic!("expected Invalid, got {:?}", other),
    }
}

#[test]
fn non_string_command_name_is_invalid() {
    let (resp, _) = parse_resp_with_remaining(b"*1\r\n:5\r\n").unwrap();
    match parse_command(resp) {
        Err(ParseError::Invalid(m)) => assert_eq!(m, "Command name must be a string"),
        other => panic!("expected Invalid, got {:?}", other),
    }
}

#[test]
fn non_string_argument_is_invalid() {
    let (resp, _) = parse_resp_with_remaining(b"*2\r\n$3\r\nGET\r\n:5\r\n").unwrap();
    match parse_command(resp) {
        Err(ParseError::Invalid(m)) => assert_eq!(m, "Expected string argument"),
        other => panic!("expected Invalid, got {:?}", other),
    }
    let (resp, _) = parse_resp_with_remaining(b"*3\r\n$3\r\nSET\r\n$1\r\nk\r\n:5\r\n").unwrap();
    match parse_command(resp) {
        Err(ParseError::Invalid(m)) => assert_eq!(m, "Expected string/bytes argument"),
        other => panic!("expected Invalid, got {:?}", other),
    }
}

#[test]
fn malformed_framing_is_invalid() {
    let cases: Vec<&[u8]> = vec![
        b"x1\r\n",                // unrecognized type tag
        b"*a\r\n",                // non-numeric count
        b"$-2\r\n",               // negative length other than -1
        b"$2x\r\n",               // junk after length digits
        b"$1\r\nab\r\n",          // payload longer than declared
        b":12a\r\n",              // junk after integer digits
        b":-\r\n",                // sign without digits
        b":99999999999999999999999999\r\n", // out of 64-bit range
    ];
    for input in cases {
        match parse_resp_with_remaining(input) {
            Err(ParseError::Invalid(_)) => {}
            other => panic!("{:?} expected Invalid, got {:?}", input, other),
        }
    }
}

#[test]
fn pipelined_frames_leave_the_remainder() {
    let input = b"+OK\r\n:7\r\n";
    let (first, rem) = parse_resp_with_remaining(input).unwrap();
    assert_eq!(first, RespValue::SimpleString(b"OK".to_vec()));
    assert_eq!(rem, b":7\r\n");
    let (second, rem2) = parse_resp_with_remaining(rem).unwrap();
    assert_eq!(second, RespValue::Integer(7));
    assert!(rem2.is_empty());
}

#[test]
fn decode_covers_every_frame_kind() {
    let (v, _) = parse_resp_with_remaining(b"-ERR nope\r\n").unwrap();
    assert_eq!(v, RespValue::Error(b"ERR nope".to_vec()));
    let (v, _) = parse_resp_with_remaining(b":-42\r\n").unwrap();
    assert_eq!(v, RespValue::Integer(-42));
    let (v, _) = parse_resp_with_remaining(b"$0\r\n\r\n").unwrap();
    assert_eq!(v, RespValue::BulkString(Vec::new()));
    let (v, _) = parse_resp_with_remaining(b"$-1\r\n").unwrap();
    assert_eq!(v, RespValue::Null);
    let (v, _) = parse_resp_with_remaining(b"*-1\r\n").unwrap();
    assert_eq!(v, RespValue::Null);
    let (v, _) = parse_resp_with_remaining(b"*2\r\n*1\r\n:1\r\n$1\r\nx\r\n").unwrap();
    assert_eq!(
        v,
        RespValue::Array(vec![
            RespValue::Array(vec![RespValue::Integer(1)]),
            RespValue::BulkString(b"x".to_vec()),
        ])
    );
}

#[test]
fn serialize_covers_integer_extremes_and_nesting() {
    assert_eq!(
        serialize_frame(&RespValue::Integer(i64::MIN)).as_slice(),
        b":-9223372036854775808\r\n"
    );
    assert_eq!(
        serialize_frame(&RespValue::Integer(i64::MAX)).as_slice(),
        b":9223372036854775807\r\n"
    );
    assert_eq!(
        serialize_frame(&RespValue::Integer(0)).as_slice(),
        b":0\r\n"
    );
    let nested = RespValue::Array(vec![
        RespValue::Array(vec![RespValue::Integer(1)]),
        RespValue::Null,
    ]);
    assert_eq!(
        serialize_frame(&nested).as_slice(),
        b"*2\r\n*1\r\n:1\r\n$-1\r\n"
    );
    assert_eq!(
        serialize_frame(&RespValue::Array(Vec::new())).as_slice(),
        b"*0\r\n"
    );
}

#[test]
fn invalid_utf8_key_is_replaced_not_rejected() {
    // The two bytes are not valid UTF-8: the lossy policy replaces each
    // with U+FFFD instead of failing.
    let command = parse_bytes(b"*2\r\n$3\r\nGET\r\n$2\r\n\xff\xfe\r\n").unwrap();
    assert_eq!(
        command,
        RedisCommand::Get {
            key: "\u{fffd}\u{fffd}".to_string()
        }
    );
}

#[test]
fn binary_bulk_string_round_trips_exactly() {
    let payload: Vec<u8> = (0u8..=255u8).collect();
    let wire = serialize_frame(&RespValue::BulkString(payload.clone()));
    let (v, rem) = parse_resp_with_remaining(wire.as_slice()).unwrap();
    assert!(rem.is_empty());
    assert_eq!(v, RespValue::BulkString(payload));
}

#[test]
fn error_messages_describe_both_kinds() {
    let e = parse_resp_with_remaining(b"*1\r\n").unwrap_err();
    assert_eq!(e.message(), "Incomplete data");
    let e = parse_bytes(b"*1\r\n$3\r\nGET\r\n").unwrap_err();
    assert_eq!(e.message(), "Invalid protocol: GET requires exactly 1 argument");
}
