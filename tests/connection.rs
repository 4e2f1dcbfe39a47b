use smol_pg::connection::{ConnectionState, Event, Phase, ProtocolError, Row, RowError};
use smol_pg::protocol::message::parsing::ParseError;
use smol_pg::protocol::message::server::Message;
use smol_pg::util::{CodecError, DecodeError, Unexpected};
use smol_pg::Error;

fn frame(tag: u8, body: &[u8]) -> Vec<u8> {
    let mut bytes = vec![tag];
    bytes.extend_from_slice(&((body.len() + 4) as i32).to_be_bytes());
    bytes.extend_from_slice(body);
    bytes
}

fn row_description(fields: &[(&str, i32, i16)]) -> Vec<u8> {
    let mut body = (fields.len() as i16).to_be_bytes().to_vec();
    for (name, type_oid, format) in fields {
        body.extend_from_slice(name.as_bytes());
        body.push(0);
        body.extend_from_slice(&0i32.to_be_bytes());
        body.extend_from_slice(&0i16.to_be_bytes());
        body.extend_from_slice(&type_oid.to_be_bytes());
        body.extend_from_slice(&4i16.to_be_bytes());
        body.extend_from_slice(&(-1i32).to_be_bytes());
        body.extend_from_slice(&format.to_be_bytes());
    }
    frame(b'T', &body)
}

fn data_row(values: &[Option<&[u8]>]) -> Vec<u8> {
    let mut body = (values.len() as i16).to_be_bytes().to_vec();
    for value in values {
        match value {
            Some(bytes) => {
                body.extend_from_slice(&(bytes.len() as i32).to_be_bytes());
                body.extend_from_slice(bytes);
            }
            None => body.extend_from_slice(&(-1i32).to_be_bytes()),
        }
    }
    frame(b'D', &body)
}

fn key_data(process_id: i32, secret_key: i32) -> Vec<u8> {
    let mut body = process_id.to_be_bytes().to_vec();
    body.extend_from_slice(&secret_key.to_be_bytes());
    frame(b'K', &body)
}

fn pending(result: Result<Event, Error>) {
    match result {
        Ok(Event::Pending) => {}
        Ok(Event::Ready) => panic!("unexpected ready"),
        Ok(Event::Rows(_)) => panic!("unexpected rows"),
        Err(e) => panic!("unexpected error {:?}", e),
    }
}

fn rows(result: Result<Event, Error>) -> Vec<Row> {
    match result {
        Ok(Event::Rows(rows)) => rows,
        Ok(_) => panic!("expected rows"),
        Err(e) => panic!("unexpected error {:?}", e),
    }
}

/// A connection that went through the handshake.
fn ready_connection() -> ConnectionState {
    let mut state = ConnectionState::new();
    assert_eq!(state.phase(), Phase::Handshaking);
    pending(state.receive(&frame(b'R', &0i32.to_be_bytes())));
    pending(state.receive(&frame(b'S', b"server_version\016.2\0")));
    pending(state.receive(&frame(b'S', b"client_encoding\0UTF8\0")));
    pending(state.receive(&key_data(77, 99)));
    assert!(!state.is_ready());
    match state.receive(&frame(b'Z', b"I")) {
        Ok(Event::Ready) => {}
        _ => panic!("expected ready"),
    }
    state
}

#[test]
fn handshake_then_select_one() {
    let mut state = ready_connection();
    assert!(state.is_ready());
    let key = state.key_data().unwrap();
    assert_eq!(key.process_id(), 77);
    assert_eq!(key.secret_key(), 99);

    let query = state.begin_query("SELECT 1").unwrap();
    let mut expected = vec![b'Q', 0, 0, 0, 13];
    expected.extend_from_slice(b"SELECT 1\0");
    assert_eq!(query, expected);
    assert_eq!(state.phase(), Phase::QueryInFlight);

    pending(state.receive(&row_description(&[("?column?", 23, 0)])));
    pending(state.receive(&data_row(&[Some(b"1")])));
    let rows = rows(state.receive(&frame(b'C', b"SELECT 1\0")));
    assert_eq!(rows.len(), 1);
    assert_eq!(rows[0].get_and_parse::<i32>("?column?").unwrap(), 1);
    assert!(state.is_ready());
}

#[test]
fn handshake_buffers_messages_in_order() {
    let mut state = ready_connection();
    assert_eq!(state.buffered_len(), 4);
    assert!(matches!(state.pop_buffered(), Some(Message::Authentication(_))));
    match state.pop_buffered() {
        Some(Message::ParameterStatus(status)) => assert_eq!(status.name(), "server_version"),
        _ => panic!("expected the first parameter status"),
    }
    match state.pop_buffered() {
        Some(Message::ParameterStatus(status)) => assert_eq!(status.name(), "client_encoding"),
        _ => panic!("expected the second parameter status"),
    }
    assert!(matches!(state.pop_buffered(), Some(Message::KeyData(_))));
    assert!(state.pop_buffered().is_none());
}

#[test]
fn lookup_and_typed_parse() {
    let mut state = ready_connection();
    state.begin_query("SELECT 1").unwrap();
    pending(state.receive(&row_description(&[("?column?", 23, 0)])));
    pending(state.receive(&data_row(&[Some(b"1")])));
    let rows = rows(state.receive(&frame(b'C', b"SELECT 1\0")));
    let row = &rows[0];
    assert_eq!(row.get_and_parse::<i32>("?column?").unwrap(), 1);
    assert_eq!(row.get("?column?").unwrap().bytes(), Some(&b"1"[..]));
    assert!(row.get("missing").is_none());
    match row.get_and_parse::<i32>("missing") {
        Err(RowError::FieldNotFound(field)) => assert_eq!(field.name(), "missing"),
        _ => panic!("expected FieldNotFound"),
    }
}

#[test]
fn rows_share_one_description_and_parse_by_format() {
    let mut state = ready_connection();
    state.begin_query("SELECT n, name, b FROM t").unwrap();
    pending(state.receive(&row_description(&[
        ("n", 23, 0),
        ("name", 25, 0),
        ("b", 23, 1),
        ("n", 23, 0),
    ])));
    pending(state.receive(&data_row(&[
        Some(b"-42"),
        Some("zoë".as_bytes()),
        Some(&[0, 0, 1, 0]),
        Some(b"7"),
    ])));
    pending(state.receive(&data_row(&[Some(b"+5"), None, Some(&[0xff, 0xff, 0xff, 0xfe]), None])));
    let rows = rows(state.receive(&frame(b'C', b"SELECT 2\0")));
    assert_eq!(rows.len(), 2);
    assert_eq!(rows[0].get_and_parse::<i32>("n").unwrap(), -42);
    assert_eq!(rows[0].get_and_parse::<String>("name").unwrap(), "zoë");
    assert_eq!(rows[0].get_and_parse::<i32>("b").unwrap(), 256);
    assert_eq!(rows[1].get_and_parse::<i32>("n").unwrap(), 5);
    assert_eq!(rows[1].get_and_parse::<i32>("b").unwrap(), -2);
    assert_eq!(
        rows[1].get_and_parse::<String>("name"),
        Err(RowError::Parse(ParseError::Null))
    );
    assert!(rows[1].get("name").unwrap().is_null());
}

#[test]
fn typed_parse_errors() {
    let mut state = ready_connection();
    state.begin_query("SELECT").unwrap();
    pending(state.receive(&row_description(&[
        ("big", 23, 0),
        ("word", 23, 0),
        ("short", 23, 1),
        ("bad", 25, 0),
        ("min", 23, 0),
        ("sign", 23, 0),
    ])));
    pending(state.receive(&data_row(&[
        Some(b"2147483648"),
        Some(b"12a"),
        Some(&[1, 2]),
        Some(&[0xc3, 0x28]),
        Some(b"-2147483648"),
        Some(b"-"),
    ])));
    let rows = rows(state.receive(&frame(b'C', b"SELECT 1\0")));
    let row = &rows[0];
    assert_eq!(row.get_and_parse::<i32>("big"), Err(RowError::Parse(ParseError::InvalidInteger)));
    assert_eq!(row.get_and_parse::<i32>("word"), Err(RowError::Parse(ParseError::InvalidInteger)));
    assert_eq!(row.get_and_parse::<i32>("short"), Err(RowError::Parse(ParseError::InvalidLength)));
    assert_eq!(row.get_and_parse::<String>("bad"), Err(RowError::Parse(ParseError::InvalidUtf8)));
    assert_eq!(row.get_and_parse::<i32>("min").unwrap(), i32::MIN);
    assert_eq!(row.get_and_parse::<i32>("sign"), Err(RowError::Parse(ParseError::InvalidInteger)));
}

#[test]
fn server_error_during_query_is_returned() {
    let mut state = ready_connection();
    state.begin_query("SELECT * FROM nonexistent").unwrap();
    let result = state.receive(&frame(
        b'E',
        b"SERROR\0C42P01\0Mrelation \"nonexistent\" does not exist\0\0",
    ));
    match result {
        Err(Error::ServerError(error)) => {
            assert_eq!(error.field(b'C').unwrap(), "42P01");
            assert_eq!(error.field(b'M').unwrap(), "relation \"nonexistent\" does not exist");
        }
        _ => panic!("expected a server error"),
    }
    assert_eq!(state.phase(), Phase::Closed);
    assert_eq!(state.buffered_len(), 4);
    assert!(matches!(
        state.begin_query("SELECT 1"),
        Err(Error::ProtocolError(ProtocolError::NotReady))
    ));
    assert!(matches!(
        state.receive(&frame(b'Z', b"I")),
        Err(Error::ProtocolError(ProtocolError::Closed))
    ));
}

#[test]
fn server_error_during_handshake_is_fatal() {
    let mut state = ConnectionState::new();
    let result = state.receive(&frame(b'E', b"SFATAL\0Mpassword authentication failed\0\0"));
    match result {
        Err(Error::ServerError(error)) => assert_eq!(error.field(b'S').unwrap(), "FATAL"),
        _ => panic!("expected a server error"),
    }
    assert_eq!(state.phase(), Phase::Closed);
}

#[test]
fn query_before_ready_is_refused() {
    let mut state = ConnectionState::new();
    assert!(matches!(
        state.begin_query("SELECT 1"),
        Err(Error::ProtocolError(ProtocolError::NotReady))
    ));
    assert_eq!(state.phase(), Phase::Handshaking);
}

#[test]
fn unknown_tag_closes_the_connection() {
    let mut state = ready_connection();
    state.begin_query("SELECT 1").unwrap();
    match state.receive(&frame(b'X', b"")) {
        Err(Error::CodecError(e)) => assert_eq!(
            e,
            CodecError::Decode(DecodeError::UnexpectedValue(Unexpected::MessageType(0x58)))
        ),
        _ => panic!("expected a decoding error"),
    }
    assert_eq!(state.phase(), Phase::Closed);
}

#[test]
fn command_without_rows_returns_no_rows() {
    let mut state = ready_connection();
    state.begin_query("CREATE TABLE t (x int)").unwrap();
    let rows = rows(state.receive(&frame(b'C', b"CREATE TABLE\0")));
    assert!(rows.is_empty());
    assert!(state.is_ready());
}

#[test]
fn empty_query_response_is_buffered() {
    let mut state = ready_connection();
    state.begin_query("").unwrap();
    pending(state.receive(&frame(b'I', b"")));
    assert_eq!(state.phase(), Phase::QueryInFlight);
    assert_eq!(state.buffered_len(), 5);
    pending(state.receive(&frame(b'Z', b"I")));
    assert_eq!(state.buffered_len(), 6);
    assert_eq!(state.phase(), Phase::QueryInFlight);
}

#[test]
fn data_rows_without_description_fail() {
    let mut state = ready_connection();
    state.begin_query("SELECT 1").unwrap();
    pending(state.receive(&data_row(&[Some(b"1")])));
    assert!(matches!(
        state.receive(&frame(b'C', b"SELECT 1\0")),
        Err(Error::ProtocolError(ProtocolError::MissingRowDescription))
    ));
    assert_eq!(state.phase(), Phase::Closed);
}

#[test]
fn second_row_description_fails() {
    let mut state = ready_connection();
    state.begin_query("SELECT 1").unwrap();
    pending(state.receive(&row_description(&[("a", 23, 0)])));
    assert!(matches!(
        state.receive(&row_description(&[("b", 23, 0)])),
        Err(Error::ProtocolError(ProtocolError::DuplicateRowDescription))
    ));
}

#[test]
fn queries_run_one_after_another() {
    let mut state = ready_connection();
    state.begin_query("SELECT 1").unwrap();
    pending(state.receive(&frame(b'N', b"SNOTICE\0Mhint\0\0")));
    pending(state.receive(&row_description(&[("a", 23, 0)])));
    pending(state.receive(&data_row(&[Some(b"1")])));
    assert_eq!(rows(state.receive(&frame(b'C', b"SELECT 1\0"))).len(), 1);
    // The server's ready-for-query after the command is kept for later.
    pending(state.receive(&frame(b'Z', b"I")));
    assert_eq!(state.buffered_len(), 6);
    state.begin_query("SELECT 2").unwrap();
    pending(state.receive(&row_description(&[("b", 23, 0)])));
    pending(state.receive(&data_row(&[Some(b"2")])));
    pending(state.receive(&data_row(&[Some(b"3")])));
    let rows = rows(state.receive(&frame(b'C', b"SELECT 2\0")));
    assert_eq!(rows.len(), 2);
    assert_eq!(rows[1].get_and_parse::<i32>("b").unwrap(), 3);
    assert!(rows[0].get("a").is_none());
}
