//! What the parts of an HTTP payload come to.
use sqlwire::http::types::{
    ParamsVisitor, QueryField, QueryObject, QueryParams, QueryVisitor, ValueVisitor, VisitError,
};
use sqlwire::query::Value;

fn blob(text: &str) -> Result<Value, VisitError> {
    ValueVisitor::visit_map(Some(("blob", text)))
}

fn object(fields: &[&str]) -> Result<QueryObject, VisitError> {
    let mut visitor = QueryVisitor::begin();
    for field in fields {
        match visitor.key(field)? {
            QueryField::Q => visitor.set_q("select 1".to_string()),
            QueryField::Params => visitor.set_params(ParamsVisitor::visit_seq(vec![Value::Null])),
        }
    }
    visitor.end()
}

#[test]
fn plain_values() {
    assert!(matches!(ValueVisitor::visit_none(), Value::Null));
    assert!(matches!(ValueVisitor::visit_unit(), Value::Null));
    assert!(matches!(ValueVisitor::visit_i64(-5), Value::Integer(-5)));
    assert!(matches!(ValueVisitor::visit_str("a"), Value::Text(t) if t == "a"));
    assert!(matches!(ValueVisitor::visit_string("b".to_string()), Value::Text(t) if t == "b"));
    match ValueVisitor::visit_f64(1.5f64.to_bits()) {
        Value::Real(bits) => assert_eq!(f64::from_bits(bits), 1.5),
        _ => panic!("no real"),
    }
}

#[test]
fn blobs_are_base64_without_padding() {
    let cases: [(&str, &[u8]); 6] = [
        ("", b""),
        ("Zg", b"f"),
        ("Zm8", b"fo"),
        ("Zm9v", b"foo"),
        ("Zm9vYg", b"foob"),
        ("+/8A", b"\xfb\xff\x00"),
    ];
    for (text, bytes) in cases {
        match blob(text) {
            Ok(Value::Blob(data)) => assert_eq!(data, bytes),
            _ => panic!("no blob"),
        }
    }
}

#[test]
fn what_is_no_base64_is_no_blob() {
    for text in ["Zg==", "Z", "Zh", "Zm9", "Zm 9", "-_8A", "Zm9v\n", "\u{e9}"] {
        match blob(text) {
            Err(VisitError::InvalidBlob { value, error }) => {
                assert_eq!(value, text);
                assert!(!error.to_string().is_empty());
            }
            _ => panic!("a blob"),
        }
    }
}

#[test]
fn the_error_of_a_blob_says_what_is_wrong() {
    match blob("Zm 9") {
        Err(VisitError::InvalidBlob { error, .. }) => {
            assert_eq!(error.to_string(), "Invalid byte 32, offset 2.")
        }
        _ => panic!("a blob"),
    }
}

#[test]
fn an_object_in_the_place_of_a_value_is_a_blob() {
    match ValueVisitor::visit_map(Some(("text", "Zg"))) {
        Err(VisitError::UnknownField { field, expected }) => {
            assert_eq!(field, "text");
            assert_eq!(expected, ["blob"]);
        }
        _ => panic!("a value"),
    }
    assert!(matches!(ValueVisitor::visit_map(None), Err(VisitError::MissingField("blob"))));
}

#[test]
fn parameters_of_an_array_have_no_names() {
    let params = ParamsVisitor::visit_seq(vec![Value::Integer(1), Value::Null]);
    assert_eq!(params.inner.len(), 2);
    assert!(matches!(params.inner[0], (None, Value::Integer(1))));
    assert!(matches!(params.inner[1], (None, Value::Null)));
}

#[test]
fn parameters_of_an_object_have_names() {
    let params = ParamsVisitor::visit_map(vec![
        (":b".to_string(), Value::Integer(1)),
        (":a".to_string(), Value::Null),
    ]);
    assert_eq!(params.inner.len(), 2);
    assert!(matches!(&params.inner[0], (Some(name), Value::Integer(1)) if name == ":b"));
    assert!(matches!(&params.inner[1], (Some(name), Value::Null) if name == ":a"));
}

#[test]
fn a_string_is_a_statement_without_parameters() {
    let query = QueryVisitor::visit_str("select 1");
    assert_eq!(query.q, "select 1");
    assert!(query.params.inner.is_empty());
    assert!(QueryParams::default().inner.is_empty());
}

#[test]
fn objects_that_are_statements() {
    for (fields, params) in [(&["q"][..], 0), (&["q", "params"], 1), (&["params", "q"], 1)] {
        let query = object(fields).unwrap();
        assert_eq!(query.q, "select 1");
        assert_eq!(query.params.inner.len(), params);
    }
}

#[test]
fn objects_that_are_no_statements() {
    assert!(matches!(object(&[]), Err(VisitError::MissingField("q"))));
    assert!(matches!(object(&["params"]), Err(VisitError::MissingField("q"))));
    assert!(matches!(object(&["q", "q"]), Err(VisitError::DuplicateField("q"))));
    assert!(matches!(
        object(&["params", "q", "params"]),
        Err(VisitError::DuplicateField("params"))
    ));
    match object(&["q", "Q"]) {
        Err(VisitError::UnknownField { field, expected }) => {
            assert_eq!(field, "Q");
            assert_eq!(expected, ["q", "params"]);
        }
        _ => panic!("a statement"),
    }
}
