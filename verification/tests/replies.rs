//! The messages that come from the server.
use bytes::BytesMut;
use fallible_iterator::FallibleIterator;
use postgres_types::Type;
use sqlwire::backend::{get_msg_name, next_message, Message, Signal};
use sqlwire::postgres::{
    describe_columns, Awaited, Connection, Metadata, PrepareStep, Preparing, ReceiveError, Wait,
};
use std::collections::VecDeque;

fn frame(tag: u8, body: &[u8]) -> Vec<u8> {
    let mut bytes = vec![tag];
    bytes.extend_from_slice(&(body.len() as u32 + 4).to_be_bytes());
    bytes.extend_from_slice(body);
    bytes
}

fn connection() -> Connection {
    match Connection::checked_connect("postgres://jane@localhost:5432") {
        Some(Ok((conn, _))) => conn,
        _ => panic!("no connection"),
    }
}

fn received(bytes: &[u8]) -> Message {
    let mut conn = connection();
    conn.feed(bytes);
    match conn.receive_message() {
        Ok(Some(msg)) => msg,
        _ => panic!("no message"),
    }
}

fn name(bytes: &[u8]) -> &'static str {
    let mut buf = BytesMut::from(bytes);
    match next_message(&mut buf) {
        Ok(Some(msg)) => get_msg_name(&msg),
        _ => panic!("no message"),
    }
}

fn column(name: &str, type_oid: u32) -> Vec<u8> {
    let mut bytes = name.as_bytes().to_vec();
    bytes.push(0);
    bytes.extend_from_slice(&[9, 9, 9, 9, 8, 8]);
    bytes.extend_from_slice(&type_oid.to_be_bytes());
    bytes.extend_from_slice(&[7, 7, 6, 6, 6, 6, 0, 1]);
    bytes
}

fn row_description(columns: &[(&str, u32)]) -> Vec<u8> {
    let mut body = (columns.len() as u16).to_be_bytes().to_vec();
    for (name, type_oid) in columns {
        body.extend(column(name, *type_oid));
    }
    frame(b'T', &body)
}

fn data_row(value: &[u8]) -> Vec<u8> {
    let mut body = vec![0, 1];
    body.extend_from_slice(&(value.len() as u32).to_be_bytes());
    body.extend_from_slice(value);
    frame(b'D', &body)
}

#[test]
fn every_kind_of_message_has_its_name() {
    let auth = |code: u32, data: &[u8]| {
        let mut body = code.to_be_bytes().to_vec();
        body.extend_from_slice(data);
        frame(b'R', &body)
    };
    let cases: Vec<(Vec<u8>, &str)> = vec![
        (auth(0, b""), "AuthenticationOk"),
        (auth(2, b""), "AuthenticationKerberosV5"),
        (auth(3, b""), "AuthenticationCleartextPassword"),
        (auth(5, b"salt"), "AuthenticationMd5Password"),
        (auth(6, b""), "AuthenticationScmCredential"),
        (auth(7, b""), "AuthenticationGss"),
        (auth(8, b"xy"), "AuthenticationGssContinue"),
        (auth(9, b""), "AuthenticationSspi"),
        (auth(10, b"\0"), "AuthenticationSasl"),
        (auth(11, b"r"), "AuthenticationSaslContinue"),
        (auth(12, b"v"), "AuthenticationSaslFinal"),
        (frame(b'K', &[0; 8]), "BackendKeyData"),
        (frame(b'2', b""), "BindComplete"),
        (frame(b'3', b""), "CloseComplete"),
        (frame(b'C', b"SELECT 1\0"), "CommandComplete"),
        (frame(b'd', b"data"), "CopyData"),
        (frame(b'c', b""), "CopyDone"),
        (frame(b'G', &[0, 0, 0]), "CopyInResponse"),
        (frame(b'H', &[0, 0, 0]), "CopyOutResponse"),
        (data_row(b"x"), "DataRow"),
        (frame(b'I', b""), "EmptyQueryResponse"),
        (frame(b'E', b"\0"), "ErrorResponse"),
        (frame(b'n', b""), "NoData"),
        (frame(b'N', b"\0"), "NoticeResponse"),
        (frame(b'A', b"\0\0\0\x01c\0m\0"), "NotificationResponse"),
        (frame(b't', &[0, 0]), "ParameterDescription"),
        (frame(b'S', b"a\0b\0"), "ParameterStatus"),
        (frame(b'1', b""), "ParseComplete"),
        (frame(b's', b""), "PortalSuspended"),
        (frame(b'Z', b"I"), "ReadyForQuery"),
        (row_description(&[]), "RowDescription"),
    ];
    for (bytes, expected) in cases {
        assert_eq!(name(&bytes), expected);
    }
    assert_eq!(get_msg_name(&Message::Signal(Signal::Unknown)), "-- Unknown --");
}

#[test]
fn a_message_waits_for_its_last_byte() {
    let bytes = frame(b'Z', b"I");
    let mut conn = connection();
    for byte in &bytes[..bytes.len() - 1] {
        conn.feed(&[*byte]);
        assert!(matches!(conn.receive_message(), Ok(None)));
    }
    conn.feed(&bytes[bytes.len() - 1..]);
    assert!(matches!(conn.receive_message(), Ok(Some(Message::Signal(Signal::ReadyForQuery)))));
    assert!(matches!(conn.receive_message(), Ok(None)));
}

#[test]
fn reads_may_be_cut_anywhere() {
    let mut bytes = frame(b'1', b"");
    bytes.extend(frame(b't', &[0, 0]));
    bytes.extend(frame(b'n', b""));
    for cut in 0..bytes.len() {
        let mut conn = connection();
        let mut names: Vec<&str> = vec![];
        for part in [&bytes[..cut], &bytes[cut..]] {
            conn.feed(part);
            while let Ok(Some(msg)) = conn.receive_message() {
                names.push(get_msg_name(&msg));
            }
        }
        assert_eq!(names, vec!["ParseComplete", "ParameterDescription", "NoData"]);
    }
}

#[test]
fn an_impossible_length_is_an_error_that_stays() {
    let mut conn = connection();
    conn.feed(b"Z\x00\x00\x00\x03I");
    assert!(matches!(conn.receive_message(), Err(ReceiveError::Io(_))));
    conn.feed(&frame(b'1', b""));
    assert!(matches!(conn.receive_message(), Err(ReceiveError::Io(_))));
}

#[test]
fn a_frame_that_holds_no_message_is_taken_off() {
    let mut conn = connection();
    conn.feed(&frame(b'?', b"what"));
    conn.feed(&frame(b'1', b"too long"));
    conn.feed(&frame(b'Z', b"I"));
    assert!(matches!(conn.receive_message(), Err(ReceiveError::Io(_))));
    assert!(matches!(conn.receive_message(), Err(ReceiveError::Io(_))));
    assert!(matches!(conn.receive_message(), Ok(Some(Message::Signal(Signal::ReadyForQuery)))));
}

#[test]
fn an_error_of_the_server_is_reported_in_words() {
    let mut conn = connection();
    conn.feed(&frame(b'E', b"SERROR\0C42601\0Msyntax \"error\"\0\0"));
    conn.feed(&frame(b'1', b""));
    match conn.receive_message() {
        Err(ReceiveError::Server(text)) => assert_eq!(
            text,
            "server responded with error response. Provided error fields: \
             [\"ERROR\", \"42601\", \"syntax \\\"error\\\"\"]"
        ),
        _ => panic!("no error"),
    }
    assert!(matches!(conn.receive_message(), Ok(Some(Message::Signal(Signal::ParseComplete)))));
}

#[test]
fn an_error_without_fields() {
    let mut conn = connection();
    conn.feed(&frame(b'E', b"\0"));
    match conn.receive_message() {
        Err(ReceiveError::Server(text)) => {
            assert_eq!(text, "server responded with error response. Provided error fields: []")
        }
        _ => panic!("no error"),
    }
}

#[test]
fn an_error_with_malformed_fields_is_an_io_error() {
    for body in [&b"SERROR\0"[..], b"", b"SERROR", b"\0x", b"S\xff\0\0"] {
        let mut conn = connection();
        conn.feed(&frame(b'E', body));
        assert!(matches!(conn.receive_message(), Err(ReceiveError::Io(_))));
    }
}

#[test]
fn mechanisms_are_read() {
    match received(&frame(b'R', b"\0\0\0\x0aSCRAM-SHA-256-PLUS\0SCRAM-SHA-256\0\0")) {
        Message::AuthenticationSasl(Ok(list)) => {
            assert_eq!(list, vec!["SCRAM-SHA-256-PLUS", "SCRAM-SHA-256"])
        }
        _ => panic!("no offer"),
    }
    for body in [&b"\0\0\0\x0aSCRAM\0"[..], b"\0\0\0\x0aSCRAM\0\0x", b"\0\0\0\x0a"] {
        assert!(matches!(received(&frame(b'R', body)), Message::AuthenticationSasl(Err(_))));
    }
}

#[test]
fn exchange_data_is_read() {
    match received(&frame(b'R', b"\0\0\0\x0bchallenge")) {
        Message::AuthenticationSaslContinue(data) => assert_eq!(data, b"challenge".to_vec()),
        _ => panic!("no challenge"),
    }
    match received(&frame(b'R', b"\0\0\0\x0cdone")) {
        Message::AuthenticationSaslFinal(data) => assert_eq!(data, b"done".to_vec()),
        _ => panic!("no confirmation"),
    }
}

#[test]
fn columns_are_read() {
    match received(&row_description(&[("id", 23), ("name", 25)])) {
        Message::RowDescription(Ok(fields)) => {
            let read: Vec<(&str, u32)> =
                fields.iter().map(|f| (f.name.as_str(), f.type_oid)).collect();
            assert_eq!(read, vec![("id", 23), ("name", 25)]);
            let metadata = describe_columns(fields).unwrap();
            assert_eq!(metadata.col_names, vec!["id", "name"]);
            assert_eq!(metadata.col_types, vec![Type::INT4, Type::TEXT]);
        }
        _ => panic!("no columns"),
    }
}

#[test]
fn malformed_columns_have_no_place() {
    for body in [&b"\0\x01id\0"[..], b"\0\x01", b"\0\0rest"] {
        let msg = received(&frame(b'T', body));
        assert!(matches!(msg, Message::RowDescription(Err(_))));
        assert!(!Awaited::RowDescription.takes(&msg));
    }
}

#[test]
fn a_type_that_is_not_built_in_has_no_place() {
    let msg = received(&row_description(&[("id", 23), ("odd", 4_000_000_000)]));
    assert!(!Awaited::RowDescription.takes(&msg));
}

#[test]
fn new_metadata_has_no_columns() {
    let metadata = Metadata::new();
    assert!(metadata.col_names.is_empty());
    assert!(metadata.col_types.is_empty());
}

fn prepare(replies: &[Vec<u8>]) -> (Vec<u8>, Option<Metadata>) {
    let mut sent = vec![];
    let mut state = Preparing::Parsing;
    for reply in replies {
        match state.checked_step(Ok(received(reply))) {
            Some(Ok(PrepareStep::Send(bytes, next))) => {
                sent.extend(bytes);
                state = next;
            }
            Some(Ok(PrepareStep::Wait(next))) => state = next,
            Some(Ok(PrepareStep::Done(metadata))) => return (sent, Some(metadata)),
            _ => return (sent, None),
        }
    }
    (sent, None)
}

#[test]
fn preparation_yields_the_columns() {
    for count in 0..3 {
        let mut replies = vec![frame(b'1', b"")];
        for _ in 0..count {
            replies.push(frame(b't', &[0, 0]));
        }
        replies.push(row_description(&[("id", 23)]));
        let (sent, metadata) = prepare(&replies);
        assert_eq!(sent, b"D\x00\x00\x00\x06S\x00H\x00\x00\x00\x04".to_vec());
        assert_eq!(metadata.unwrap().col_names, vec!["id"]);
    }
}

#[test]
fn a_statement_without_result_has_no_columns() {
    let replies = [frame(b'1', b""), frame(b't', &[0, 0]), frame(b'n', b"")];
    let (_, metadata) = prepare(&replies);
    assert!(metadata.unwrap().col_names.is_empty());
}

#[test]
fn preparation_stops_at_what_has_no_place() {
    let (sent, metadata) = prepare(&[frame(b'Z', b"I")]);
    assert!(sent.is_empty() && metadata.is_none());
    let (sent, metadata) = prepare(&[frame(b'1', b""), frame(b'1', b"")]);
    assert!(sent.len() == 12 && metadata.is_none());
}

fn failure() -> Result<Message, ReceiveError> {
    Err(ReceiveError::Server("failed".to_string()))
}

fn is_failure<T>(r: Result<T, ReceiveError>) -> bool {
    matches!(r, Err(ReceiveError::Server(text)) if text == "failed")
}

#[test]
fn waiting_for_parse_complete() {
    let parsed = received(&frame(b'1', b""));
    assert!(Awaited::ParseComplete.takes(&parsed));
    assert!(Connection::wait_until_parse_complete(Ok(parsed)).is_ok());
    assert!(!Awaited::ParseComplete.takes(&received(&frame(b'2', b""))));
}

#[test]
fn waiting_for_columns() {
    let described = received(&row_description(&[("id", 23)]));
    assert!(Awaited::RowDescription.takes(&described));
    match Connection::wait_until_row_description(Ok(described)) {
        Ok(Wait::Done(metadata)) => assert_eq!(metadata.col_names, vec!["id"]),
        _ => panic!("no columns"),
    }
    let parameters = received(&frame(b't', &[0, 0]));
    assert!(Awaited::RowDescription.takes(&parameters));
    let wait = Connection::wait_until_row_description(Ok(parameters));
    assert!(matches!(wait, Ok(Wait::Continue)));
}

#[test]
fn waiting_for_ready() {
    let ready = received(&frame(b'Z', b"I"));
    assert!(Awaited::Ready.takes(&ready));
    assert!(Connection::wait_until_ready_for_query(Ok(ready)).is_ok());
    assert!(!Awaited::Ready.takes(&received(&frame(b'C', b"SELECT 1\0"))));
}

#[test]
fn an_error_ends_every_wait() {
    let mut rows = VecDeque::new();
    assert!(is_failure(Connection::wait_until_parse_complete(failure())));
    assert!(is_failure(Connection::wait_until_row_description(failure())));
    assert!(is_failure(Connection::receive_rows(&mut rows, failure())));
    assert!(is_failure(Connection::wait_until_ready_for_query(failure())));
    assert!(is_failure(Preparing::Parsing.checked_step(failure()).unwrap()));
    assert!(is_failure(Preparing::Describing.step(failure())));
}

#[test]
fn rows_arrive_in_order() {
    let mut conn = connection();
    for value in [&b"one"[..], b"two", b"three"] {
        conn.feed(&data_row(value));
    }
    conn.feed(&frame(b'Z', b"I"));
    let mut rows = VecDeque::new();
    let mut done = false;
    while let Ok(Some(msg)) = conn.receive_message() {
        assert!(Awaited::Rows.takes(&msg));
        match Connection::receive_rows(&mut rows, Ok(msg)) {
            Ok(Wait::Done(())) => done = true,
            Ok(Wait::Continue) => assert!(!done),
            Err(_) => panic!("no rows"),
        }
    }
    assert!(done);
    let values: Vec<Vec<u8>> = rows
        .iter()
        .map(|row| {
            let ranges: Vec<_> = row.ranges().collect().unwrap();
            row.buffer()[ranges[0].clone().unwrap()].to_vec()
        })
        .collect();
    assert_eq!(values, vec![b"one".to_vec(), b"two".to_vec(), b"three".to_vec()]);
}

#[test]
fn only_rows_and_ready_have_a_place_among_rows() {
    for bytes in [frame(b'2', b""), frame(b'C', b"SELECT 1\0"), row_description(&[])] {
        assert!(!Awaited::Rows.takes(&received(&bytes)));
    }
}

#[test]
fn a_frame_has_to_fit_its_tag_to_the_last_byte() {
    let refused: Vec<Vec<u8>> = vec![
        frame(b'D', b"\0"),
        frame(b'T', b"\0"),
        frame(b't', b""),
        frame(b'C', b"SELECT 1"),
        frame(b'C', b"SELECT 1\0\0"),
        frame(b'S', b"a\0"),
        frame(b'S', b"a\0b\0c\0"),
        frame(b'A', b"\0\0\0\x01c\0"),
        frame(b'A', b"\0\0\0"),
        frame(b'K', &[0; 7]),
        frame(b'K', &[0; 9]),
        frame(b'Z', b""),
        frame(b'Z', b"II"),
        frame(b'G', &[0, 0]),
        frame(b'H', &[0, 0]),
        frame(b'n', b"x"),
        frame(b'R', b"\0\0\0"),
        frame(b'R', b"\0\0\0\0x"),
        frame(b'R', b"\0\0\0\x05abc"),
        frame(b'R', b"\0\0\0\x0d"),
        frame(b'x', b""),
    ];
    for bytes in refused {
        let mut conn = connection();
        conn.feed(&bytes);
        conn.feed(&frame(b'1', b""));
        assert!(matches!(conn.receive_message(), Err(ReceiveError::Io(_))));
        assert!(matches!(conn.receive_message(), Ok(Some(Message::Signal(Signal::ParseComplete)))));
    }
}

#[test]
fn frames_whose_body_is_free() {
    for (bytes, expected) in [
        (frame(b'd', b""), "CopyData"),
        (frame(b'N', b""), "NoticeResponse"),
        (frame(b'E', b""), "ErrorResponse"),
        (frame(b'S', b"\0\0"), "ParameterStatus"),
        (frame(b'S', b"\xff\0\xff\0"), "ParameterStatus"),
        (frame(b'G', b"\x01\0\x05x"), "CopyInResponse"),
        (frame(b'D', b"\0\x05x"), "DataRow"),
    ] {
        assert_eq!(name(&bytes), expected);
    }
}

#[test]
fn the_error_of_a_frame_says_what_is_wrong() {
    let cases: [(&[u8], &str); 4] = [
        (b"Z\x00\x00\x00\x03I", "invalid message length: parsing u32"),
        (b"x\x00\x00\x00\x04", "unknown message tag `120`"),
        (b"n\x00\x00\x00\x05x", "invalid message length: expected buffer to be empty"),
        (b"E\x00\x00\x00\x06\x00x", "invalid message length: error fields is not drained"),
    ];
    for (bytes, expected) in cases {
        let mut conn = connection();
        conn.feed(bytes);
        match conn.receive_message() {
            Err(ReceiveError::Io(error)) => assert_eq!(error.to_string(), expected),
            _ => panic!("no error"),
        }
    }
}
