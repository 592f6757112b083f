//! Messages to the server, byte for byte.
use bytes::BytesMut;
use postgres_protocol::message::frontend;
use postgres_protocol::IsNull;
use std::io;
use vstd::prelude::*;
use vstd::utf8::encode_utf8;

use crate::buffer::{extend_from_slice, held};
use crate::wire::{be16, be32, countable, counted16, counted32, cstr, framed, no_nul, sizable, sized};

verus! {

/// What a startup message holds behind its length: protocol version 3.0, one
/// parameter, and the zero byte that ends the parameters.
pub open spec fn startup_body(key: Seq<char>, value: Seq<char>) -> Seq<u8> {
    (be32(0x3_0000) + cstr(key) + cstr(value)).push(0)
}

/// What a parse message holds: the statement's name, its text, and the types
/// of its parameters as far as the client names them.
pub open spec fn parse_body(name: Seq<char>, query: Seq<char>, param_types: Seq<u32>) -> Seq<u8> {
    cstr(name) + cstr(query) + counted32(param_types)
}

/// What a describe message holds.
pub open spec fn describe_body(variant: u8, name: Seq<char>) -> Seq<u8> {
    seq![variant] + cstr(name)
}

/// What an execute message holds.
pub open spec fn execute_body(portal: Seq<char>, max_rows: i32) -> Seq<u8> {
    cstr(portal) + be32(max_rows as int)
}

/// What the first answer of a SASL exchange holds.
pub open spec fn sasl_initial_body(mechanism: Seq<char>, data: Seq<u8>) -> Seq<u8> {
    cstr(mechanism) + be32(data.len() as int) + data
}

/// One parameter value: its length and its bytes, or the length -1 for NULL.
pub open spec fn nullable(value: Option<Seq<char>>) -> Seq<u8> {
    match value {
        Some(text) => be32(encode_utf8(text).len() as int) + encode_utf8(text),
        None => be32(-1),
    }
}

/// Parameter values, one behind the other.
pub open spec fn values_written(values: Seq<Option<Seq<char>>>) -> Seq<u8> {
    values.map_values(|v: Option<Seq<char>>| nullable(v)).flatten()
}

/// What a bind message holds.
pub open spec fn bind_body(
    portal: Seq<char>,
    statement: Seq<char>,
    formats: Seq<i16>,
    values: Seq<Option<Seq<char>>>,
    result_formats: Seq<i16>,
) -> Seq<u8> {
    cstr(portal) + cstr(statement) + counted16(formats) + be16(values.len() as int)
        + values_written(values) + counted16(result_formats)
}

/// Whether a value is short enough for the length that goes before it.
pub open spec fn transmissible(value: Option<Seq<char>>) -> bool {
    value matches Some(text) ==> encode_utf8(text).len() <= i32::MAX
}

/// Optional strings as optional character sequences.
pub open spec fn value_texts(values: Seq<Option<String>>) -> Seq<Option<Seq<char>>> {
    values.map_values(
        |v: Option<String>|
            match v {
                Some(text) => Some(text@),
                None => None,
            },
    )
}

/// What an encoder hands back: the bytes where the message can be sent, and where
/// it cannot an error, which is told by what was to be sent.
pub open spec fn encodes(
    r: Result<Vec<u8>, io::Error>,
    sendable: bool,
    bytes: Seq<u8>,
    flaw: io::Error,
) -> bool {
    match r {
        Ok(message) => sendable && message@ == bytes,
        Err(error) => !sendable && error == flaw,
    }
}

/// Why a startup message with these values cannot be sent.
pub uninterp spec fn startup_flaw(key: Seq<char>, value: Seq<char>) -> io::Error;

/// `frontend::startup_message` with one parameter: the body behind its length,
/// with no tag. It fails on a zero byte in the key or the value, and on a body
/// that is too long.
#[verifier::external_body]
pub(crate) fn startup_message(key: &str, value: &str) -> (r: Result<Vec<u8>, io::Error>)
    ensures
        encodes(
            r,
            no_nul(key@) && no_nul(value@) && sizable(startup_body(key@, value@)),
            sized(startup_body(key@, value@)),
            startup_flaw(key@, value@),
        ),
{
    let mut buf = BytesMut::new();
    frontend::startup_message([(key, value)], &mut buf)?;
    Ok(buf.to_vec())
}

/// Why a parse message with these values cannot be sent.
pub uninterp spec fn parse_flaw(name: Seq<char>, query: Seq<char>, param_types: Seq<u32>) -> io::Error;

/// `frontend::parse`: a frame with tag `P`. It fails on a zero byte in the name
/// or the query, and on a list or a body that is too long.
#[verifier::external_body]
pub(crate) fn parse(name: &str, query: &str, param_types: Vec<u32>) -> (r: Result<Vec<u8>, io::Error>)
    ensures
        encodes(
            r,
            no_nul(name@) && no_nul(query@) && countable(param_types@.len()) && sizable(
                parse_body(name@, query@, param_types@),
            ),
            framed(0x50, parse_body(name@, query@, param_types@)),
            parse_flaw(name@, query@, param_types@),
        ),
{
    let mut buf = BytesMut::new();
    frontend::parse(name, query, param_types, &mut buf)?;
    Ok(buf.to_vec())
}

/// Why a describe message with these values cannot be sent.
pub uninterp spec fn describe_flaw(variant: u8, name: Seq<char>) -> io::Error;

/// `frontend::describe`: a frame with tag `D`. It fails on a zero byte in the
/// name, and on a body that is too long.
#[verifier::external_body]
pub(crate) fn describe(variant: u8, name: &str) -> (r: Result<Vec<u8>, io::Error>)
    ensures
        encodes(
            r,
            no_nul(name@) && sizable(describe_body(variant, name@)),
            framed(0x44, describe_body(variant, name@)),
            describe_flaw(variant, name@),
        ),
{
    let mut buf = BytesMut::new();
    frontend::describe(variant, name, &mut buf)?;
    Ok(buf.to_vec())
}

/// Why an execute message with these values cannot be sent.
pub uninterp spec fn execute_flaw(portal: Seq<char>, max_rows: i32) -> io::Error;

/// `frontend::execute`: a frame with tag `E`. It fails on a zero byte in the
/// portal's name, and on a body that is too long.
#[verifier::external_body]
pub(crate) fn execute(portal: &str, max_rows: i32) -> (r: Result<Vec<u8>, io::Error>)
    ensures
        encodes(
            r,
            no_nul(portal@) && sizable(execute_body(portal@, max_rows)),
            framed(0x45, execute_body(portal@, max_rows)),
            execute_flaw(portal@, max_rows),
        ),
{
    let mut buf = BytesMut::new();
    frontend::execute(portal, max_rows, &mut buf)?;
    Ok(buf.to_vec())
}

/// `frontend::flush`: a frame with tag `H` and nothing in it.
#[verifier::external_body]
pub(crate) fn flush() -> (message: Vec<u8>)
    ensures
        message@ == framed(0x48, Seq::empty()),
{
    let mut buf = BytesMut::new();
    frontend::flush(&mut buf);
    buf.to_vec()
}

/// `frontend::sync`: a frame with tag `S` and nothing in it.
#[verifier::external_body]
pub(crate) fn sync() -> (message: Vec<u8>)
    ensures
        message@ == framed(0x53, Seq::empty()),
{
    let mut buf = BytesMut::new();
    frontend::sync(&mut buf);
    buf.to_vec()
}

/// Why a first answer with these values cannot be sent.
pub uninterp spec fn sasl_initial_flaw(mechanism: Seq<char>, data: Seq<u8>) -> io::Error;

/// `frontend::sasl_initial_response`: a frame with tag `p`. It fails on a zero
/// byte in the mechanism's name, and on data or a body that is too long.
#[verifier::external_body]
pub(crate) fn sasl_initial_response(mechanism: &str, data: &[u8]) -> (r: Result<Vec<u8>, io::Error>)
    ensures
        encodes(
            r,
            no_nul(mechanism@) && sizable(sasl_initial_body(mechanism@, data@)),
            framed(0x70, sasl_initial_body(mechanism@, data@)),
            sasl_initial_flaw(mechanism@, data@),
        ),
{
    let mut buf = BytesMut::new();
    frontend::sasl_initial_response(mechanism, data, &mut buf)?;
    Ok(buf.to_vec())
}

/// Why an answer with this data cannot be sent.
pub uninterp spec fn sasl_flaw(data: Seq<u8>) -> io::Error;

/// `frontend::sasl_response`: a frame with tag `p` around the data. It fails on
/// data that is too long.
#[verifier::external_body]
pub(crate) fn sasl_response(data: &[u8]) -> (r: Result<Vec<u8>, io::Error>)
    ensures
        encodes(r, sizable(data@), framed(0x70, data@), sasl_flaw(data@)),
{
    let mut buf = BytesMut::new();
    frontend::sasl_response(data, &mut buf)?;
    Ok(buf.to_vec())
}

/// Writes one parameter value, and says whether it was NULL. A NULL writes
/// nothing.
fn put_value(value: Option<String>, buf: &mut BytesMut) -> (null: bool)
    ensures
        null == (value is None),
        held(*final(buf)) == held(*old(buf)) + (match value {
            Some(text) => encode_utf8(text@),
            None => Seq::empty(),
        }),
{
    match value {
        Some(text) => {
            extend_from_slice(buf, text.as_str().as_bytes());
            false
        },
        None => {
            assert(held(*buf) + Seq::<u8>::empty() =~= held(*buf));
            true
        },
    }
}

/// `frontend::bind`, each value written by `put_value`: a frame with tag `B`. It
/// fails on a zero byte in one of the names, and on a value, a list or a body
/// that is too long.
#[verifier::external_body]
pub(crate) fn bind(
    portal: &str,
    statement: &str,
    formats: Vec<i16>,
    values: Vec<Option<String>>,
    result_formats: Vec<i16>,
) -> (r: Result<Vec<u8>, ()>)
    ensures
        ({
            let texts = value_texts(values@);
            let body = bind_body(portal@, statement@, formats@, texts, result_formats@);
            let sendable = {
                &&& no_nul(portal@) && no_nul(statement@)
                &&& countable(formats@.len()) && countable(values@.len()) && countable(
                    result_formats@.len(),
                )
                &&& forall|i: int| 0 <= i < texts.len() ==> transmissible(#[trigger] texts[i])
                &&& sizable(body)
            };
            match r {
                Ok(message) => sendable && message@ == framed(0x42, body),
                Err(_) => !sendable,
            }
        }),
{
    let mut buf = BytesMut::new();
    let put = |value, buf: &mut BytesMut| Ok(if put_value(value, buf) { IsNull::Yes } else { IsNull::No });
    frontend::bind(portal, statement, formats, values, put, result_formats, &mut buf).map_err(|_| ())?;
    Ok(buf.to_vec())
}

} // verus!
