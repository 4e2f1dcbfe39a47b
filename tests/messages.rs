use smol_pg::connection::frame_body_length;
use smol_pg::protocol::message::client::{MessageType, Query, SaslInitialResponse, SaslResponse, Startup};
use smol_pg::protocol::message::server::{Authentication, BackendMessageType, FormatCode, Message};
use smol_pg::util::{CodecError, DecodeError, Reader, Unexpected};

fn frame(tag: u8, body: &[u8]) -> Vec<u8> {
    let mut bytes = vec![tag];
    bytes.extend_from_slice(&((body.len() + 4) as i32).to_be_bytes());
    bytes.extend_from_slice(body);
    bytes
}

fn decode(bytes: &[u8]) -> Result<Message, CodecError> {
    Message::decode(Reader::new(bytes))
}

fn field_descriptor(name: &str, type_oid: i32, format: i16) -> Vec<u8> {
    let mut bytes = name.as_bytes().to_vec();
    bytes.push(0);
    bytes.extend_from_slice(&0i32.to_be_bytes());
    bytes.extend_from_slice(&0i16.to_be_bytes());
    bytes.extend_from_slice(&type_oid.to_be_bytes());
    bytes.extend_from_slice(&4i16.to_be_bytes());
    bytes.extend_from_slice(&(-1i32).to_be_bytes());
    bytes.extend_from_slice(&format.to_be_bytes());
    bytes
}

#[test]
fn startup_message_bytes() {
    let message = Startup::new("postgres".to_string(), None, None);
    let bytes = message.encode().unwrap();
    let mut expected = vec![0, 0, 0, 23, 0, 3, 0, 0];
    expected.extend_from_slice(b"user\0postgres\0\0");
    assert_eq!(bytes, expected);
}

#[test]
fn startup_length_field_is_message_length() {
    let message = Startup::new(
        "alice".to_string(),
        Some("shop".to_string()),
        Some("-c geqo=off".to_string()),
    );
    let bytes = message.encode().unwrap();
    let mut reader = Reader::new(&bytes);
    assert_eq!(reader.read_i32().unwrap() as usize, bytes.len());
    assert_eq!(reader.read_i32().unwrap(), 0x0003_0000);
    let mut rest = Vec::new();
    rest.extend_from_slice(b"user\0alice\0database\0shop\0options\0-c geqo=off\0\0");
    assert_eq!(&bytes[8..], &rest[..]);
}

#[test]
fn query_message_bytes() {
    let bytes = Query::new("SELECT 1".to_string()).encode().unwrap();
    let mut expected = vec![b'Q', 0, 0, 0, 13];
    expected.extend_from_slice(b"SELECT 1\0");
    assert_eq!(bytes, expected);
}

#[test]
fn message_type_bytes() {
    assert_eq!(MessageType::Startup.type_byte(), None);
    assert_eq!(MessageType::SimpleQuery.type_byte(), Some(b'Q'));
}

#[test]
fn decodes_authentication_ok() {
    let bytes = frame(b'R', &0i32.to_be_bytes());
    assert!(matches!(
        decode(&bytes).unwrap(),
        Message::Authentication(Authentication::Success)
    ));
}

#[test]
fn authentication_ok_must_be_fully_consumed() {
    let mut body = 0i32.to_be_bytes().to_vec();
    body.push(1);
    let bytes = frame(b'R', &body);
    assert_eq!(
        decode(&bytes).err(),
        Some(CodecError::Decode(DecodeError::UnexpectedEof))
    );
}

#[test]
fn decodes_cleartext_password_request() {
    let bytes = frame(b'R', &3i32.to_be_bytes());
    assert!(matches!(
        decode(&bytes).unwrap(),
        Message::Authentication(Authentication::CleartextPassword)
    ));
}

#[test]
fn decodes_sasl_mechanisms() {
    let mut body = 10i32.to_be_bytes().to_vec();
    body.extend_from_slice(b"SCRAM-SHA-256-PLUS\0SCRAM-SHA-256\0\0");
    match decode(&frame(b'R', &body)).unwrap() {
        Message::Authentication(Authentication::Sasl(names)) => {
            assert_eq!(names, vec!["SCRAM-SHA-256-PLUS".to_string(), "SCRAM-SHA-256".to_string()]);
        }
        _ => panic!("expected a SASL request"),
    }
}

#[test]
fn decodes_sasl_continue_and_final() {
    let mut body = 11i32.to_be_bytes().to_vec();
    body.extend_from_slice(b"r=abc,s=xyz");
    match decode(&frame(b'R', &body)).unwrap() {
        Message::Authentication(Authentication::SaslContinue(data)) => {
            assert_eq!(data, b"r=abc,s=xyz".to_vec())
        }
        _ => panic!("expected SASL continue"),
    }
    let mut body = 12i32.to_be_bytes().to_vec();
    body.extend_from_slice(b"v=ok");
    match decode(&frame(b'R', &body)).unwrap() {
        Message::Authentication(Authentication::SaslFinal(data)) => assert_eq!(data, b"v=ok".to_vec()),
        _ => panic!("expected SASL final"),
    }
}

#[test]
fn unknown_authentication_type_is_rejected() {
    let bytes = frame(b'R', &5i32.to_be_bytes());
    assert_eq!(
        decode(&bytes).err(),
        Some(CodecError::Decode(DecodeError::UnexpectedValue(
            Unexpected::AuthenticationType(5)
        )))
    );
}

#[test]
fn decodes_error_fields() {
    let body = b"SERROR\0C42P01\0Mrelation \"nonexistent\" does not exist\0\0";
    match decode(&frame(b'E', body)).unwrap() {
        Message::Error(error) => {
            assert_eq!(error.field(b'S').unwrap(), "ERROR");
            assert_eq!(error.field(b'C').unwrap(), "42P01");
            assert_eq!(
                error.field(b'M').unwrap(),
                "relation \"nonexistent\" does not exist"
            );
            assert!(error.field(b'D').is_none());
        }
        _ => panic!("expected an error response"),
    }
}

#[test]
fn later_error_field_replaces_earlier() {
    let body = b"Mfirst\0Msecond\0\0";
    match decode(&frame(b'E', body)).unwrap() {
        Message::Error(error) => assert_eq!(error.field(b'M').unwrap(), "second"),
        _ => panic!("expected an error response"),
    }
}

#[test]
fn error_without_terminator_is_eof() {
    let body = b"SERROR\0";
    assert_eq!(
        decode(&frame(b'E', body)).err(),
        Some(CodecError::Decode(DecodeError::UnexpectedEof))
    );
}

#[test]
fn decodes_notice_fields() {
    let body = b"SNOTICE\0Mhello\0\0";
    match decode(&frame(b'N', body)).unwrap() {
        Message::Notice(notice) => assert_eq!(notice.field(b'M').unwrap(), "hello"),
        _ => panic!("expected a notice"),
    }
}

#[test]
fn decodes_parameter_status() {
    match decode(&frame(b'S', b"server_version\016.2\0")).unwrap() {
        Message::ParameterStatus(status) => {
            assert_eq!(status.name(), "server_version");
            assert_eq!(status.value(), "16.2");
        }
        _ => panic!("expected a parameter status"),
    }
}

#[test]
fn decodes_key_data() {
    let mut body = 4242i32.to_be_bytes().to_vec();
    body.extend_from_slice(&(-7i32).to_be_bytes());
    match decode(&frame(b'K', &body)).unwrap() {
        Message::KeyData(key) => {
            assert_eq!(key.process_id(), 4242);
            assert_eq!(key.secret_key(), -7);
        }
        _ => panic!("expected key data"),
    }
}

#[test]
fn decodes_ready_empty_and_complete() {
    assert!(matches!(decode(&frame(b'Z', b"I")).unwrap(), Message::ReadyForQuery));
    assert!(matches!(decode(&frame(b'I', b"")).unwrap(), Message::EmptyQuery));
    match decode(&frame(b'C', b"SELECT 1\0")).unwrap() {
        Message::CommandComplete(complete) => assert_eq!(complete.tag(), "SELECT 1"),
        _ => panic!("expected command complete"),
    }
}

#[test]
fn decodes_row_description() {
    let mut body = 2i16.to_be_bytes().to_vec();
    body.extend_from_slice(&field_descriptor("?column?", 23, 0));
    let mut second = field_descriptor("id", 20, 1);
    // A column of a table: table OID 16384, attribute number 1.
    second[3..7].copy_from_slice(&16384i32.to_be_bytes());
    second[7..9].copy_from_slice(&1i16.to_be_bytes());
    body.extend_from_slice(&second);
    match decode(&frame(b'T', &body)).unwrap() {
        Message::RowDescription(description) => {
            assert_eq!(description.fields.len(), 2);
            let first = &description.fields[0];
            assert_eq!(first.name, "?column?");
            assert_eq!(first.table_oid, None);
            assert_eq!(first.attribute_number, None);
            assert_eq!(first.data_type_oid, 23);
            assert_eq!(first.data_type_size, 4);
            assert_eq!(first.data_type_modifier, -1);
            assert_eq!(first.format_code, FormatCode::Text);
            let second = &description.fields[1];
            assert_eq!(second.name, "id");
            assert_eq!(second.table_oid, Some(16384));
            assert_eq!(second.attribute_number, Some(1));
            assert_eq!(second.format_code, FormatCode::Binary);
        }
        _ => panic!("expected a row description"),
    }
}

#[test]
fn unknown_format_code_is_rejected() {
    let mut body = 1i16.to_be_bytes().to_vec();
    body.extend_from_slice(&field_descriptor("a", 23, 2));
    assert_eq!(
        decode(&frame(b'T', &body)).err(),
        Some(CodecError::Decode(DecodeError::UnexpectedValue(Unexpected::FormatCode(2))))
    );
}

#[test]
fn data_row_values_match_row_description_arity() {
    let mut body = 3i16.to_be_bytes().to_vec();
    body.extend_from_slice(&1i32.to_be_bytes());
    body.push(b'1');
    body.extend_from_slice(&(-1i32).to_be_bytes());
    body.extend_from_slice(&0i32.to_be_bytes());
    match decode(&frame(b'D', &body)).unwrap() {
        Message::DataRow(row) => {
            assert_eq!(row.len(), 3);
            assert_eq!(row.get(0).unwrap().bytes(), Some(&b"1"[..]));
            assert!(row.get(1).unwrap().is_null());
            assert_eq!(row.get(1).unwrap().bytes(), None);
            assert!(!row.get(2).unwrap().is_null());
            assert_eq!(row.get(2).unwrap().bytes(), Some(&b""[..]));
            assert!(row.get(3).is_none());
        }
        _ => panic!("expected a data row"),
    }
}

#[test]
fn data_row_shorter_than_declared_is_eof() {
    let mut body = 1i16.to_be_bytes().to_vec();
    body.extend_from_slice(&5i32.to_be_bytes());
    body.extend_from_slice(b"abc");
    assert_eq!(
        decode(&frame(b'D', &body)).err(),
        Some(CodecError::Decode(DecodeError::UnexpectedEof))
    );
}

#[test]
fn negative_counts_are_rejected() {
    let body = (-1i16).to_be_bytes();
    assert_eq!(
        decode(&frame(b'D', &body)).err(),
        Some(CodecError::Decode(DecodeError::UnexpectedValue(Unexpected::FieldCount(-1))))
    );
    let body = (-3i16).to_be_bytes();
    assert_eq!(
        decode(&frame(b'T', &body)).err(),
        Some(CodecError::Decode(DecodeError::UnexpectedValue(Unexpected::FieldCount(-3))))
    );
}

#[test]
fn unknown_tag_is_rejected() {
    let bytes = frame(0x58, b"");
    assert_eq!(
        decode(&bytes).err(),
        Some(CodecError::Decode(DecodeError::UnexpectedValue(Unexpected::MessageType(0x58))))
    );
}

#[test]
fn empty_frame_is_eof() {
    assert_eq!(decode(&[]).err(), Some(CodecError::Decode(DecodeError::UnexpectedEof)));
}

#[test]
fn frame_body_length_from_header() {
    assert_eq!(frame_body_length(&[b'Z', 0, 0, 0, 5]).unwrap(), 1);
    assert_eq!(frame_body_length(&[b'I', 0, 0, 0, 4]).unwrap(), 0);
    assert_eq!(
        frame_body_length(&[b'Z', 0, 0, 0, 3]),
        Err(CodecError::Decode(DecodeError::UnexpectedValue(Unexpected::MessageLength(3))))
    );
    assert_eq!(
        frame_body_length(&[b'Z', 0xff, 0xff, 0xff, 0xff]),
        Err(CodecError::Decode(DecodeError::UnexpectedValue(Unexpected::MessageLength(-1))))
    );
    assert_eq!(
        frame_body_length(&[b'Z', 0, 0]),
        Err(CodecError::Decode(DecodeError::UnexpectedEof))
    );
}

#[test]
fn backend_message_types_by_byte() {
    assert_eq!(BackendMessageType::try_from(b'T').unwrap(), BackendMessageType::RowDescription);
    assert_eq!(BackendMessageType::try_from(b'v').unwrap(), BackendMessageType::NegotiateProtocolVersion);
    assert_eq!(BackendMessageType::ReadyForQuery.as_byte(), b'Z');
    assert_eq!(BackendMessageType::CopyBoth.as_byte(), b'W');
    assert_eq!(
        BackendMessageType::try_from(b'X'),
        Err(DecodeError::UnexpectedValue(Unexpected::MessageType(b'X')))
    );
}

#[test]
fn sasl_initial_response_bytes() {
    let message = SaslInitialResponse::new("SCRAM-SHA-256".to_string(), Some(b"n,,n=,r=abc".to_vec()));
    let bytes = message.encode().unwrap();
    let mut expected = vec![b'p', 0, 0, 0, 33];
    expected.extend_from_slice(b"SCRAM-SHA-256\0");
    expected.extend_from_slice(&[0, 0, 0, 11]);
    expected.extend_from_slice(b"n,,n=,r=abc");
    assert_eq!(bytes, expected);

    let bytes = SaslInitialResponse::new("PLAIN".to_string(), None).encode().unwrap();
    let mut expected = vec![b'p', 0, 0, 0, 14];
    expected.extend_from_slice(b"PLAIN\0");
    expected.extend_from_slice(&[0xff, 0xff, 0xff, 0xff]);
    assert_eq!(bytes, expected);
}

#[test]
fn sasl_response_bytes() {
    let bytes = SaslResponse::new(b"c=biws,r=abc,p=xyz".to_vec()).encode().unwrap();
    let mut expected = vec![b'p', 0, 0, 0, 22];
    expected.extend_from_slice(b"c=biws,r=abc,p=xyz");
    assert_eq!(bytes, expected);
}

#[test]
fn startup_with_options_only() {
    let bytes = Startup::new("bob".to_string(), None, Some("-c x=1".to_string()))
        .encode()
        .unwrap();
    let mut expected = vec![0, 0, 0, 33, 0, 3, 0, 0];
    expected.extend_from_slice(b"user\0bob\0options\0-c x=1\0\0");
    assert_eq!(bytes, expected);
}
