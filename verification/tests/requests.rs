//! The bytes that go to the server.
use sqlwire::params::{sort_by_index, sort_if_bindable, BindError, BoundParam, ParamValue};
use sqlwire::postgres::{Connection, Preparing};

fn connection(addr: &str) -> Connection {
    match Connection::checked_connect(addr) {
        Some(Ok((conn, _))) => conn,
        _ => panic!("no connection for {}", addr),
    }
}

fn text(index: usize, value: &str) -> BoundParam {
    BoundParam { index, value: ParamValue::Text(value.to_string()) }
}

fn null(index: usize) -> BoundParam {
    BoundParam { index, value: ParamValue::Null }
}

#[test]
fn startup_names_the_user() {
    let message = connection("postgres://jane@localhost:5432").send_startup().unwrap();
    assert_eq!(message, b"\x00\x00\x00\x13\x00\x03\x00\x00user\x00jane\x00\x00".to_vec());
}

#[test]
fn parse_carries_the_statement() {
    let message = Connection::send_parse("select 1").unwrap();
    assert_eq!(message, b"P\x00\x00\x00\x10\x00select 1\x00\x00\x00".to_vec());
}

#[test]
fn parse_carries_utf8() {
    let message = Connection::send_parse("\u{e9}").unwrap();
    assert_eq!(message, b"P\x00\x00\x00\x0a\x00\xc3\xa9\x00\x00\x00".to_vec());
}

#[test]
fn parse_refuses_a_zero_byte() {
    assert!(Connection::send_parse("select\0 1").is_err());
    assert!(Connection::prepare_stmt("select\0 1").is_err());
}

#[test]
fn describe_asks_for_the_unnamed_statement() {
    assert_eq!(Connection::send_describe(), b"D\x00\x00\x00\x06S\x00".to_vec());
}

#[test]
fn execute_runs_to_the_end() {
    assert_eq!(Connection::send_execute(), b"E\x00\x00\x00\x09\x00\x00\x00\x00\x00".to_vec());
}

#[test]
fn flush_and_sync_are_empty() {
    assert_eq!(Connection::send_flush(), b"H\x00\x00\x00\x04".to_vec());
    assert_eq!(Connection::send_sync(), b"S\x00\x00\x00\x04".to_vec());
}

#[test]
fn preparation_begins_with_parse_and_flush() {
    let (bytes, next) = Connection::prepare_stmt("select 1").unwrap();
    assert_eq!(bytes, b"P\x00\x00\x00\x10\x00select 1\x00\x00\x00H\x00\x00\x00\x04".to_vec());
    assert_eq!(next, Preparing::Parsing);
}

#[test]
fn bind_without_parameters() {
    let message = Connection::send_bind_params(vec![]).unwrap();
    assert_eq!(message, b"B\x00\x00\x00\x0e\x00\x00\x00\x00\x00\x00\x00\x01\x00\x01".to_vec());
}

#[test]
fn bind_text_and_null() {
    let message = Connection::send_bind_params(vec![text(1, "ab"), null(2)]).unwrap();
    let mut expected = b"B\x00\x00\x00\x1c\x00\x00".to_vec();
    expected.extend_from_slice(b"\x00\x02\x00\x00\x00\x01");
    expected.extend_from_slice(b"\x00\x02\x00\x00\x00\x02ab\xff\xff\xff\xff");
    expected.extend_from_slice(b"\x00\x01\x00\x01");
    assert_eq!(message, expected);
}

#[test]
fn binding_order_does_not_matter() {
    let a = Connection::send_bind_params(vec![text(3, "c"), null(1), text(2, "b")]).unwrap();
    let b = Connection::send_bind_params(vec![null(1), text(2, "b"), text(3, "c")]).unwrap();
    assert_eq!(a, b);
}

#[test]
fn index_order_keeps_the_order_within_an_index() {
    let ordered = sort_by_index(vec![text(2, "x"), text(1, "y"), text(2, "z"), null(1)]);
    let shown: Vec<String> = ordered.iter().map(|p| format!("{} {:?}", p.index, p.value)).collect();
    assert_eq!(shown, vec!["1 Text(\"y\")", "1 Null", "2 Text(\"x\")", "2 Text(\"z\")"]);
}

#[test]
fn bind_supports_text_and_null_only() {
    for value in [ParamValue::Integer(1), ParamValue::Real(0), ParamValue::Blob(vec![1])] {
        let params = vec![text(1, "a"), BoundParam { index: 2, value }];
        assert_eq!(Connection::checked_execute(params), None);
    }
}

#[test]
fn too_many_parameters_fail() {
    let params: Vec<BoundParam> = (0..40000).map(null).collect();
    assert_eq!(Connection::send_bind_params(params), Err(BindError));
}

#[test]
fn too_many_parameters_fail_whatever_their_values() {
    let params: Vec<BoundParam> =
        (0..40000).map(|index| BoundParam { index, value: ParamValue::Integer(1) }).collect();
    assert_eq!(Connection::checked_execute(params), Some(Err(BindError)));
}

#[test]
fn parameters_that_can_be_bound_come_back_in_order() {
    let ordered = sort_if_bindable(vec![text(2, "b"), null(1)]).unwrap();
    assert_eq!(ordered.iter().map(|p| p.index).collect::<Vec<usize>>(), vec![1, 2]);
    let blob = BoundParam { index: 0, value: ParamValue::Blob(vec![]) };
    assert!(sort_if_bindable(vec![text(2, "b"), blob]).is_none());
}

#[test]
fn as_many_parameters_as_can_be_counted() {
    let params: Vec<BoundParam> = (0..32767).map(null).collect();
    let message = Connection::send_bind_params(params).unwrap();
    assert_eq!(message.len(), 1 + 4 + 2 + 2 + 2 * 32767 + 2 + 4 * 32767 + 4);
}

#[test]
fn execution_is_bind_execute_sync() {
    let mut expected = Connection::send_bind_params(vec![text(1, "a")]).unwrap();
    expected.extend(Connection::send_execute());
    expected.extend(Connection::send_sync());
    assert_eq!(Connection::execute(vec![text(1, "a")]), Ok(expected.clone()));
    assert_eq!(Connection::checked_execute(vec![text(1, "a")]), Some(Ok(expected)));
}

#[test]
fn different_parameters_have_different_messages() {
    let lists = || {
        vec![
            vec![text(1, "ab"), text(2, "")],
            vec![text(1, "a"), text(2, "b")],
            vec![text(1, "ab"), null(2)],
            vec![text(1, "ab")],
            vec![null(1), text(2, "ab")],
        ]
    };
    let messages: Vec<Vec<u8>> =
        lists().into_iter().map(|list| Connection::send_bind_params(list).unwrap()).collect();
    for i in 0..messages.len() {
        for j in 0..i {
            assert_ne!(messages[i], messages[j]);
        }
    }
}

#[test]
fn different_statements_and_users_have_different_messages() {
    assert_ne!(Connection::send_parse("select 1").unwrap(), Connection::send_parse("select 2").unwrap());
    assert_ne!(
        connection("postgres://jane@localhost:5432").send_startup().unwrap(),
        connection("postgres://joan@localhost:5432").send_startup().unwrap()
    );
}

#[test]
fn long_lists_are_put_in_order() {
    let params: Vec<BoundParam> =
        (0..20000).map(|i: usize| text((i * 7919) % 1000, &i.to_string())).collect();
    let mut expected: Vec<(usize, String)> =
        (0..20000).map(|i: usize| ((i * 7919) % 1000, i.to_string())).collect();
    expected.sort_by_key(|p| p.0);
    let ordered: Vec<(usize, String)> = sort_by_index(params)
        .into_iter()
        .map(|p| match p.value {
            ParamValue::Text(text) => (p.index, text),
            _ => panic!("no text"),
        })
        .collect();
    assert_eq!(ordered, expected);
    assert!(sort_by_index(vec![]).is_empty());
}

#[test]
fn the_error_of_a_statement_says_what_is_wrong() {
    let error = Connection::send_parse("select\0 1").unwrap_err();
    assert_eq!(error.to_string(), "string contains embedded null");
    let error = Connection::prepare_stmt("select\0 1").unwrap_err();
    assert_eq!(error.to_string(), "string contains embedded null");
}
