use redis_lite::commands::{
    args_to_command, parse_command, serialize_command, turn_arg_to_string, Command, CommandError,
};
use redis_lite::resp::RespType;

fn bulk(s: &[u8]) -> RespType {
    RespType::BulkString(Some(s.to_vec()))
}

fn frame(parts: &[&[u8]]) -> RespType {
    RespType::Array(parts.iter().map(|p| bulk(p)).collect())
}

#[test]
fn parses_each_command() {
    assert_eq!(parse_command(frame(&[b"PING"])), Ok(Command::Ping));
    assert_eq!(parse_command(frame(&[b"echo", b"hey"])), Ok(Command::Echo(b"hey".to_vec())));
    assert_eq!(
        parse_command(frame(&[b"SET", b"foo", b"bar"])),
        Ok(Command::SetKey(b"foo".to_vec(), b"bar".to_vec(), None))
    );
    assert_eq!(
        parse_command(frame(&[b"set", b"foo", b"bar", b"px", b"100"])),
        Ok(Command::SetKey(b"foo".to_vec(), b"bar".to_vec(), Some(100)))
    );
    assert_eq!(parse_command(frame(&[b"GET", b"foo"])), Ok(Command::Get(b"foo".to_vec())));
    assert_eq!(parse_command(frame(&[b"INFO"])), Err(CommandError::MalformedCommand));
    assert_eq!(
        parse_command(frame(&[b"INFO", b"replication"])),
        Ok(Command::Info(b"replication".to_vec()))
    );
    assert_eq!(
        parse_command(frame(&[b"REPLCONF", b"GETACK", b"*"])),
        Ok(Command::ReplConf(b"GETACK".to_vec(), Some(b"*".to_vec())))
    );
    assert_eq!(
        parse_command(frame(&[b"REPLCONF", b"x"])),
        Ok(Command::ReplConf(b"x".to_vec(), None))
    );
    assert_eq!(
        parse_command(frame(&[b"PSYNC", b"?", b"-1"])),
        Ok(Command::Psync(b"?".to_vec(), b"-1".to_vec()))
    );
    assert_eq!(parse_command(frame(&[b"WAIT", b"1", b"500"])), Ok(Command::Wait(1, 500)));
}

#[test]
fn simple_string_arguments_count_as_strings() {
    let f = RespType::Array(vec![bulk(b"GET"), RespType::SimpleString(b"k".to_vec())]);
    assert_eq!(parse_command(f), Ok(Command::Get(b"k".to_vec())));
}

#[test]
fn rejects_unknown_and_malformed_commands() {
    assert_eq!(parse_command(frame(&[b"FLY"])), Err(CommandError::UnsupportedCommand));
    assert_eq!(parse_command(frame(&[b"GET"])), Err(CommandError::MalformedCommand));
    assert_eq!(parse_command(frame(&[b"PING", b"x"])), Err(CommandError::MalformedCommand));
    assert_eq!(
        parse_command(frame(&[b"SET", b"k", b"v", b"EX", b"1"])),
        Err(CommandError::MalformedCommand)
    );
    assert_eq!(
        parse_command(frame(&[b"SET", b"k", b"v", b"PX", b"-1"])),
        Err(CommandError::MalformedCommand)
    );
    assert_eq!(parse_command(frame(&[b"WAIT", b"1", b"x"])), Err(CommandError::MalformedCommand));
    assert_eq!(parse_command(RespType::Array(vec![])), Err(CommandError::MalformedCommand));
    assert_eq!(parse_command(bulk(b"PING")), Err(CommandError::MalformedCommand));
    let f = RespType::Array(vec![bulk(b"ECHO"), RespType::Integer(1)]);
    assert_eq!(parse_command(f), Err(CommandError::MalformedCommand));
}

#[test]
fn args_to_command_ignores_case() {
    assert_eq!(args_to_command(&b"pInG".to_vec(), &vec![]), Ok(Command::Ping));
    assert_eq!(
        Command::string_to_command(&b"Echo".to_vec(), &vec![bulk(b"x")]),
        Ok(Command::Echo(b"x".to_vec()))
    );
}

#[test]
fn only_set_is_a_write() {
    assert!(Command::SetKey(b"k".to_vec(), b"v".to_vec(), None).is_write());
    assert!(!Command::Get(b"k".to_vec()).is_write());
    assert!(!Command::Ping.is_write());
    assert!(!Command::Wait(0, 0).is_write());
}

#[test]
fn turns_string_arguments_to_bytes() {
    assert_eq!(turn_arg_to_string(&bulk(b"ab")), Some(b"ab".to_vec()));
    assert_eq!(turn_arg_to_string(&RespType::SimpleString(b"cd".to_vec())), Some(b"cd".to_vec()));
    assert_eq!(turn_arg_to_string(&RespType::BulkString(None)), None);
    assert_eq!(turn_arg_to_string(&RespType::Integer(1)), None);
}

#[test]
fn serializes_commands_as_arrays_of_bulk_strings() {
    assert_eq!(
        serialize_command(&Command::SetKey(b"k".to_vec(), b"v".to_vec(), None)),
        b"*3\r\n$3\r\nSET\r\n$1\r\nk\r\n$1\r\nv\r\n".to_vec()
    );
    assert_eq!(
        serialize_command(&Command::SetKey(b"k".to_vec(), b"v".to_vec(), Some(100))),
        b"*5\r\n$3\r\nSET\r\n$1\r\nk\r\n$1\r\nv\r\n$2\r\nPX\r\n$3\r\n100\r\n".to_vec()
    );
    assert_eq!(
        serialize_command(&Command::ReplConf(b"GETACK".to_vec(), Some(b"*".to_vec()))),
        b"*3\r\n$8\r\nREPLCONF\r\n$6\r\nGETACK\r\n$1\r\n*\r\n".to_vec()
    );
    assert_eq!(
        serialize_command(&Command::ReplConf(b"x".to_vec(), None)),
        b"*2\r\n$8\r\nREPLCONF\r\n$1\r\nx\r\n".to_vec()
    );
    assert_eq!(
        serialize_command(&Command::Wait(-1, 20)),
        b"*3\r\n$4\r\nWAIT\r\n$2\r\n-1\r\n$2\r\n20\r\n".to_vec()
    );
}

#[test]
fn getack_frame_is_thirty_seven_bytes() {
    let f = serialize_command(&Command::ReplConf(b"GETACK".to_vec(), Some(b"*".to_vec())));
    assert_eq!(f.len(), 37);
}

#[test]
fn serialized_command_parses_back() {
    let cmds = vec![
        Command::Ping,
        Command::Echo(b"e".to_vec()),
        Command::SetKey(b"k".to_vec(), b"v".to_vec(), Some(7)),
        Command::Get(b"k".to_vec()),
        Command::Info(b"all".to_vec()),
        Command::ReplConf(b"ACK".to_vec(), Some(b"5".to_vec())),
        Command::Psync(b"?".to_vec(), b"-1".to_vec()),
        Command::Wait(2, 300),
    ];
    for c in cmds {
        let bytes = serialize_command(&c);
        let mut d = redis_lite::decoder::RespParser::new();
        d.feed(&bytes);
        match d.next_value() {
            redis_lite::decoder::NextValue::Value(v, n) => {
                assert_eq!(n, bytes.len());
                assert_eq!(parse_command(v), Ok(c));
            }
            other => panic!("{:?}", other),
        }
    }
}

fn sample_commands() -> Vec<Command> {
    vec![
        Command::Ping,
        Command::Echo(b"hey".to_vec()),
        Command::SetKey(b"foo".to_vec(), b"bar".to_vec(), Some(100)),
        Command::Get(b"foo".to_vec()),
        Command::Info(b"replication".to_vec()),
        Command::ReplConf(b"GETACK".to_vec(), Some(b"*".to_vec())),
        Command::Psync(b"?".to_vec(), b"-1".to_vec()),
        Command::Wait(1, 500),
    ]
}

#[test]
fn parser_reads_back_each_serialized_command() {
    for c in sample_commands() {
        let bytes = serialize_command(&c);
        let mut p = redis_lite::decoder::RespParser::new();
        p.feed(&bytes);
        assert_eq!(
            p.parse_command(),
            redis_lite::decoder::NextCommand::Command(Ok(c), bytes.len())
        );
        assert_eq!(p.parse_command(), redis_lite::decoder::NextCommand::NeedMore);
    }
}

#[test]
fn parser_reads_commands_in_order_across_any_chunking() {
    let cmds = sample_commands();
    let mut stream = Vec::new();
    for c in &cmds {
        stream.extend(serialize_command(c));
    }
    for chunk in [1usize, 2, 3, 7, 16, 1000] {
        let mut p = redis_lite::decoder::RespParser::new();
        let mut out = Vec::new();
        for piece in stream.chunks(chunk) {
            p.feed(piece);
            loop {
                match p.parse_command() {
                    redis_lite::decoder::NextCommand::Command(c, _) => out.push(c.unwrap()),
                    redis_lite::decoder::NextCommand::NeedMore => break,
                    redis_lite::decoder::NextCommand::Malformed => panic!("malformed"),
                }
            }
        }
        assert_eq!(out, sample_commands());
    }
}

#[test]
fn parser_reports_command_errors_with_frame_length() {
    let mut p = redis_lite::decoder::RespParser::new();
    p.feed(b"*1\r\n$4\r\nINFO\r\n");
    assert_eq!(
        p.parse_command(),
        redis_lite::decoder::NextCommand::Command(Err(CommandError::MalformedCommand), 14)
    );
    p.feed(b"!");
    assert_eq!(p.parse_command(), redis_lite::decoder::NextCommand::Malformed);
}
