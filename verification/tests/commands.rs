use mudb::command::{handle_frame, Command, CommandError};
use mudb::resp::types::RespType;
use mudb::storage::db::DB;

fn bulk(s: &str) -> RespType {
    RespType::BulkString(s.to_string())
}

fn run(db: &DB, words: &[&str]) -> RespType {
    let frame: Vec<RespType> = words.iter().map(|w| bulk(w)).collect();
    handle_frame(frame, db)
}

fn bytes_of(v: &RespType) -> Vec<u8> {
    v.to_bytes()
}

#[test]
fn ping_without_message_replies_pong() {
    let db = DB::new();
    let reply = run(&db, &["PING"]);
    assert_eq!(bytes_of(&reply), b"+PONG\r\n".to_vec());
}

#[test]
fn ping_with_message_echoes_it() {
    let db = DB::new();
    let reply = run(&db, &["PING", "hello"]);
    assert_eq!(bytes_of(&reply), b"$5\r\nhello\r\n".to_vec());
}

#[test]
fn command_names_are_case_insensitive() {
    let db = DB::new();
    let reply = run(&db, &["ping"]);
    assert_eq!(bytes_of(&reply), b"+PONG\r\n".to_vec());
    let reply = run(&db, &["PiNg"]);
    assert_eq!(bytes_of(&reply), b"+PONG\r\n".to_vec());
}

#[test]
fn unknown_command_names_the_offender() {
    let db = DB::new();
    let reply = run(&db, &["FOO"]);
    assert_eq!(bytes_of(&reply), b"-Unknown command: FOO\r\n".to_vec());

    let r = Command::from_resp_command_frame(vec![bulk("FOO")]);
    match r {
        Err(CommandError::UnknownCommand(e)) => assert_eq!(e.cmd, "FOO"),
        _ => panic!("expected an unknown-command error"),
    }
}

#[test]
fn non_bulk_command_name_is_invalid_format() {
    let r = Command::from_resp_command_frame(vec![RespType::Integer(5)]);
    assert!(matches!(r, Err(CommandError::InvalidFormat)));
}

#[test]
fn empty_frame_is_reported_not_panicked() {
    let db = DB::new();
    let reply = handle_frame(vec![], &db);
    assert_eq!(bytes_of(&reply), b"-Invalid command format\r\n".to_vec());
}

#[test]
fn get_without_key_is_an_arity_error() {
    let db = DB::new();
    let reply = run(&db, &["GET"]);
    assert_eq!(
        bytes_of(&reply),
        b"-Wrong number of arguments specified for 'GET' command\r\n".to_vec()
    );
}

#[test]
fn set_with_one_argument_is_an_arity_error() {
    let db = DB::new();
    let reply = run(&db, &["SET", "k"]);
    assert_eq!(
        bytes_of(&reply),
        b"-Wrong number of arguments specified for 'SET' command\r\n".to_vec()
    );
}

#[test]
fn lpush_without_values_is_an_arity_error() {
    let db = DB::new();
    let reply = run(&db, &["LPUSH", "k"]);
    assert_eq!(
        bytes_of(&reply),
        b"-Wrong number of arguments specified for 'LPUSH' command\r\n".to_vec()
    );
}

#[test]
fn lrange_needs_three_arguments() {
    let db = DB::new();
    let reply = run(&db, &["LRANGE", "k", "0"]);
    assert_eq!(
        bytes_of(&reply),
        b"-Wrong number of arguments specified for 'LRANGE' command\r\n".to_vec()
    );
}

#[test]
fn lrange_rejects_non_numeric_indices() {
    let db = DB::new();
    let reply = run(&db, &["LRANGE", "k", "zero", "1"]);
    assert_eq!(bytes_of(&reply), b"-Start index should be an integer\r\n".to_vec());
    let reply = run(&db, &["LRANGE", "k", "0", "one"]);
    assert_eq!(bytes_of(&reply), b"-End index should be an integer\r\n".to_vec());
}

#[test]
fn set_replies_ok_and_get_reads_it_back() {
    let db = DB::new();
    let reply = run(&db, &["SET", "k", "v"]);
    assert_eq!(bytes_of(&reply), b"$2\r\nOK\r\n".to_vec());
    let reply = run(&db, &["GET", "k"]);
    assert_eq!(bytes_of(&reply), b"$1\r\nv\r\n".to_vec());
}

#[test]
fn set_overwrites_a_string_value() {
    let db = DB::new();
    run(&db, &["SET", "k", "first"]);
    run(&db, &["SET", "k", "second"]);
    let reply = run(&db, &["GET", "k"]);
    assert_eq!(bytes_of(&reply), b"$6\r\nsecond\r\n".to_vec());
}

#[test]
fn get_on_missing_key_is_null_bulk_string() {
    let db = DB::new();
    let reply = run(&db, &["GET", "nothing"]);
    assert_eq!(bytes_of(&reply), b"$-1\r\n".to_vec());
}

#[test]
fn get_on_list_key_is_a_type_error() {
    let db = DB::new();
    run(&db, &["RPUSH", "k", "a"]);
    let reply = run(&db, &["GET", "k"]);
    assert_eq!(
        bytes_of(&reply),
        b"-WRONGTYPE Operation against a key holding the wrong kind of value\r\n".to_vec()
    );
}

#[test]
fn set_on_list_key_is_a_type_error_and_changes_nothing() {
    let db = DB::new();
    run(&db, &["RPUSH", "k", "a"]);
    let reply = run(&db, &["SET", "k", "v"]);
    assert_eq!(
        bytes_of(&reply),
        b"-WRONGTYPE Operation against a key holding the wrong kind of value\r\n".to_vec()
    );
    // The key still holds its list.
    let reply = run(&db, &["LRANGE", "k", "0", "0"]);
    assert_eq!(bytes_of(&reply), b"*1\r\n$1\r\na\r\n".to_vec());
}

#[test]
fn push_on_string_key_is_a_type_error() {
    let db = DB::new();
    run(&db, &["SET", "k", "v"]);
    let reply = run(&db, &["LPUSH", "k", "a"]);
    assert_eq!(
        bytes_of(&reply),
        b"-WRONGTYPE Operation against a key holding the wrong kind of value\r\n".to_vec()
    );
    let reply = run(&db, &["RPUSH", "k", "a"]);
    assert_eq!(
        bytes_of(&reply),
        b"-WRONGTYPE Operation against a key holding the wrong kind of value\r\n".to_vec()
    );
}

#[test]
fn lpush_returns_length_and_orders_head_first() {
    let db = DB::new();
    let reply = run(&db, &["LPUSH", "k", "a", "b", "c"]);
    assert_eq!(bytes_of(&reply), b":3\r\n".to_vec());
    let reply = run(&db, &["LRANGE", "k", "0", "2"]);
    assert_eq!(
        bytes_of(&reply),
        b"*3\r\n$1\r\nc\r\n$1\r\nb\r\n$1\r\na\r\n".to_vec()
    );
}

#[test]
fn rpush_returns_length_and_keeps_push_order() {
    let db = DB::new();
    let reply = run(&db, &["RPUSH", "k", "a", "b", "c"]);
    assert_eq!(bytes_of(&reply), b":3\r\n".to_vec());
    let reply = run(&db, &["LRANGE", "k", "0", "2"]);
    assert_eq!(
        bytes_of(&reply),
        b"*3\r\n$1\r\na\r\n$1\r\nb\r\n$1\r\nc\r\n".to_vec()
    );
}

#[test]
fn pushes_accumulate_on_both_ends() {
    let db = DB::new();
    run(&db, &["RPUSH", "k", "b"]);
    run(&db, &["LPUSH", "k", "a"]);
    let reply = run(&db, &["RPUSH", "k", "c"]);
    assert_eq!(bytes_of(&reply), b":3\r\n".to_vec());
    let reply = run(&db, &["LRANGE", "k", "0", "2"]);
    assert_eq!(
        bytes_of(&reply),
        b"*3\r\n$1\r\na\r\n$1\r\nb\r\n$1\r\nc\r\n".to_vec()
    );
}

#[test]
fn lrange_negative_indices_count_from_the_end() {
    let db = DB::new();
    run(&db, &["RPUSH", "k", "e1", "e2", "e3", "e4", "e5"]);
    let reply = run(&db, &["LRANGE", "k", "-2", "-1"]);
    assert_eq!(
        bytes_of(&reply),
        b"*2\r\n$2\r\ne4\r\n$2\r\ne5\r\n".to_vec()
    );
}

#[test]
fn lrange_zero_to_minus_one_is_empty_under_this_rounding() {
    // The raw stop index is compared with the raw start index before any
    // rounding, so 0 .. -1 is an empty window even on a populated list.
    let db = DB::new();
    run(&db, &["RPUSH", "k", "a", "b", "c"]);
    let reply = run(&db, &["LRANGE", "k", "0", "-1"]);
    assert_eq!(bytes_of(&reply), b"*0\r\n".to_vec());
}

#[test]
fn lrange_rounds_an_overlong_stop_back_to_the_last_element() {
    let db = DB::new();
    run(&db, &["RPUSH", "k", "a", "b", "c"]);
    let reply = run(&db, &["LRANGE", "k", "0", "99"]);
    assert_eq!(
        bytes_of(&reply),
        b"*3\r\n$1\r\na\r\n$1\r\nb\r\n$1\r\nc\r\n".to_vec()
    );
}

#[test]
fn lrange_on_missing_key_is_an_empty_array() {
    let db = DB::new();
    let reply = run(&db, &["LRANGE", "nothing", "0", "5"]);
    assert_eq!(bytes_of(&reply), b"*0\r\n".to_vec());
}

#[test]
fn lrange_on_string_key_is_a_type_error() {
    let db = DB::new();
    run(&db, &["SET", "k", "v"]);
    let reply = run(&db, &["LRANGE", "k", "0", "1"]);
    assert_eq!(
        bytes_of(&reply),
        b"-WRONGTYPE Operation against a key holding the wrong kind of value\r\n".to_vec()
    );
}

#[test]
fn build_command_reproduces_a_push_request() {
    let frame = vec![bulk("LPUSH"), bulk("k"), bulk("x"), bulk("y")];
    let cmd = Command::from_resp_command_frame(frame).unwrap();
    match cmd {
        Command::LPush(p) => {
            assert_eq!(
                p.build_command().to_bytes(),
                b"*4\r\n$5\r\nLPUSH\r\n$1\r\nk\r\n$1\r\nx\r\n$1\r\ny\r\n".to_vec()
            );
        }
        _ => panic!("expected an LPUSH command"),
    }

    let frame = vec![bulk("rpush"), bulk("k"), bulk("x")];
    let cmd = Command::from_resp_command_frame(frame).unwrap();
    match cmd {
        Command::RPush(p) => {
            assert_eq!(
                p.build_command().to_bytes(),
                b"*3\r\n$5\r\nRPUSH\r\n$1\r\nk\r\n$1\r\nx\r\n".to_vec()
            );
        }
        _ => panic!("expected an RPUSH command"),
    }
}

#[test]
fn command_error_messages() {
    assert_eq!(CommandError::InvalidFormat.message(), "Invalid command format");
    assert_eq!(
        CommandError::Other("boom".to_string()).message(),
        "boom"
    );
}
