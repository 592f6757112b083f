//! What the frames of the server say.
use postgres_protocol::message::backend::DataRowBody;
use std::io;
use vstd::prelude::*;
use vstd::utf8::{
    decode_utf8, encode_utf8, encode_utf8_decode_utf8, encode_utf8_valid_utf8, valid_utf8,
};

use crate::backend::{FieldView, MessageView, Signal};
use crate::wire::{be32, cstr, law_read_back, no_nul, read16, read32};

verus! {

/// The bytes before the first zero byte.
pub open spec fn text_end(bytes: Seq<u8>) -> int
    decreases bytes.len(),
{
    if bytes.len() == 0 || bytes[0] == 0 {
        0
    } else {
        1 + text_end(bytes.drop_first())
    }
}

/// The string that bytes begin with, up to a zero byte, and the bytes behind it.
pub open spec fn leading_text(bytes: Seq<u8>) -> Option<(Seq<char>, Seq<u8>)> {
    let end = text_end(bytes);
    if end < bytes.len() && valid_utf8(bytes.take(end)) {
        Some((decode_utf8(bytes.take(end)), bytes.skip(end + 1)))
    } else {
        None
    }
}

/// The names in an offer of mechanisms, which an empty name ends.
pub open spec fn mechanisms_in(bytes: Seq<u8>) -> Option<Seq<Seq<char>>>
    decreases bytes.len(),
{
    match leading_text(bytes) {
        None => None,
        Some((name, rest)) => {
            if text_end(bytes) == 0 {
                if rest.len() == 0 {
                    Some(Seq::empty())
                } else {
                    None
                }
            } else if rest.len() < bytes.len() {
                match mechanisms_in(rest) {
                    Some(names) => Some(seq![name] + names),
                    None => None,
                }
            } else {
                None
            }
        },
    }
}

/// The values of an error's fields. A byte other than zero goes before each, and
/// a zero byte ends them.
pub open spec fn error_fields_in(bytes: Seq<u8>) -> Option<Seq<Seq<char>>>
    decreases bytes.len(),
{
    if bytes.len() == 0 {
        None
    } else if bytes[0] == 0 {
        if bytes.len() == 1 {
            Some(Seq::empty())
        } else {
            None
        }
    } else {
        match leading_text(bytes.drop_first()) {
            None => None,
            Some((value, rest)) => {
                if rest.len() < bytes.len() {
                    match error_fields_in(rest) {
                        Some(values) => Some(seq![value] + values),
                        None => None,
                    }
                } else {
                    None
                }
            },
        }
    }
}

/// So many columns: of each the name, and behind it eighteen bytes with the
/// type's object identifier at the seventh.
pub open spec fn columns_in(bytes: Seq<u8>, count: nat) -> Option<Seq<FieldView>>
    decreases count,
{
    if count == 0 {
        if bytes.len() == 0 {
            Some(Seq::empty())
        } else {
            None
        }
    } else {
        match leading_text(bytes) {
            None => None,
            Some((name, rest)) => {
                if rest.len() < 18 {
                    None
                } else {
                    match columns_in(rest.skip(18), (count - 1) as nat) {
                        Some(columns) => Some(
                            seq![
                                FieldView { name, type_oid: read32(rest.subrange(6, 10)) as u32 },
                            ] + columns,
                        ),
                        None => None,
                    }
                }
            },
        }
    }
}

/// A list, or `flaw` where there is none.
pub open spec fn list_or<T>(list: Option<Seq<T>>, flaw: io::Error) -> Result<Seq<T>, io::Error> {
    match list {
        Some(items) => Ok(items),
        None => Err(flaw),
    }
}

/// The authentication message with this code and these bytes behind it, `flaw`
/// being the error of the list in it if it holds a malformed one.
pub open spec fn authentication(code: nat, data: Seq<u8>, flaw: io::Error) -> Option<MessageView> {
    if code == 10 {
        Some(MessageView::AuthenticationSasl(list_or(mechanisms_in(data), flaw)))
    } else if code == 11 {
        Some(MessageView::AuthenticationSaslContinue(data))
    } else if code == 12 {
        Some(MessageView::AuthenticationSaslFinal(data))
    } else if code == 8 {
        Some(MessageView::Signal(Signal::AuthenticationGssContinue))
    } else if code == 5 && data.len() == 4 {
        Some(MessageView::Signal(Signal::AuthenticationMd5Password))
    } else if data.len() != 0 {
        None
    } else if code == 0 {
        Some(MessageView::Signal(Signal::AuthenticationOk))
    } else if code == 2 {
        Some(MessageView::Signal(Signal::AuthenticationKerberosV5))
    } else if code == 3 {
        Some(MessageView::Signal(Signal::AuthenticationCleartextPassword))
    } else if code == 6 {
        Some(MessageView::Signal(Signal::AuthenticationScmCredential))
    } else if code == 7 {
        Some(MessageView::Signal(Signal::AuthenticationGss))
    } else if code == 9 {
        Some(MessageView::Signal(Signal::AuthenticationSspi))
    } else {
        None
    }
}

/// The message of a frame that holds nothing.
pub open spec fn bare(tag: u8) -> Option<Signal> {
    if tag == 0x31 {
        Some(Signal::ParseComplete)
    } else if tag == 0x32 {
        Some(Signal::BindComplete)
    } else if tag == 0x33 {
        Some(Signal::CloseComplete)
    } else if tag == 0x63 {
        Some(Signal::CopyDone)
    } else if tag == 0x49 {
        Some(Signal::EmptyQueryResponse)
    } else if tag == 0x6e {
        Some(Signal::NoData)
    } else if tag == 0x73 {
        Some(Signal::PortalSuspended)
    } else {
        None
    }
}

/// Whether some message has this tag.
pub open spec fn is_tag(tag: u8) -> bool {
    ||| bare(tag) is Some
    ||| tag == 0x41 || tag == 0x43 || tag == 0x44 || tag == 0x45 || tag == 0x47 || tag == 0x48
    ||| tag == 0x4b || tag == 0x4e || tag == 0x52 || tag == 0x53 || tag == 0x54 || tag == 0x5a
    ||| tag == 0x64 || tag == 0x74
}

/// Whether bytes are one string, ended by the only zero byte among them.
pub open spec fn is_one_text(bytes: Seq<u8>) -> bool {
    text_end(bytes) + 1 == bytes.len()
}

/// Whether bytes are two strings, each ended by a zero byte.
pub open spec fn are_two_texts(bytes: Seq<u8>) -> bool {
    text_end(bytes) < bytes.len() && is_one_text(bytes.skip(text_end(bytes) + 1))
}

/// The message of a frame of which the client reads nothing but its kind, where
/// the body is one that such a frame can have.
pub open spec fn signalled(tag: u8, body: Seq<u8>) -> Option<Signal> {
    if tag == 0x43 && is_one_text(body) {
        Some(Signal::CommandComplete)
    } else if tag == 0x53 && are_two_texts(body) {
        Some(Signal::ParameterStatus)
    } else if tag == 0x41 && body.len() >= 4 && are_two_texts(body.skip(4)) {
        Some(Signal::NotificationResponse)
    } else if tag == 0x4b && body.len() == 8 {
        Some(Signal::BackendKeyData)
    } else if tag == 0x5a && body.len() == 1 {
        Some(Signal::ReadyForQuery)
    } else if tag == 0x74 && body.len() >= 2 {
        Some(Signal::ParameterDescription)
    } else if tag == 0x47 && body.len() >= 3 {
        Some(Signal::CopyInResponse)
    } else if tag == 0x48 && body.len() >= 3 {
        Some(Signal::CopyOutResponse)
    } else if tag == 0x4e {
        Some(Signal::NoticeResponse)
    } else if tag == 0x64 {
        Some(Signal::CopyData)
    } else if body.len() == 0 {
        bare(tag)
    } else {
        None
    }
}

/// What a frame with this tag says that holds this body, `row` being the row
/// that it brings if it brings one, and `flaw` the error of the list in it if it
/// holds a malformed one. A frame with another tag, or with a body that
/// does not fit its tag to the last byte, says nothing.
pub open spec fn stated(
    tag: u8,
    body: Seq<u8>,
    row: DataRowBody,
    flaw: io::Error,
) -> Option<MessageView> {
    if tag == 0x52 {
        if body.len() >= 4 {
            authentication(read32(body), body.skip(4), flaw)
        } else {
            None
        }
    } else if tag == 0x45 {
        Some(MessageView::ErrorResponse(list_or(error_fields_in(body), flaw)))
    } else if tag == 0x44 || tag == 0x54 {
        if body.len() < 2 {
            None
        } else if tag == 0x44 {
            Some(MessageView::DataRow(row))
        } else {
            Some(
                MessageView::RowDescription(
                    list_or(columns_in(body.skip(2), read16(body)), flaw),
                ),
            )
        }
    } else {
        match signalled(tag, body) {
            Some(signal) => Some(MessageView::Signal(signal)),
            None => None,
        }
    }
}

proof fn lemma_text_end(text: Seq<u8>, rest: Seq<u8>)
    requires
        !text.contains(0),
    ensures
        text_end(text.push(0) + rest) == text.len(),
    decreases text.len(),
{
    let bytes = text.push(0) + rest;
    if text.len() > 0 {
        assert(text.contains(text[0]));
        let tail = text.drop_first();
        assert forall|i: int| 0 <= i < tail.len() implies tail[i] != 0 by {
            assert(text.contains(text[i + 1]));
        }
        lemma_text_end(tail, rest);
        assert(bytes.drop_first() =~= tail.push(0) + rest);
    }
}

/// A string that was written is read back, with the bytes that stand behind it.
pub proof fn law_text_read_back(text: Seq<char>, rest: Seq<u8>)
    requires
        no_nul(text),
    ensures
        leading_text(cstr(text) + rest) == Some((text, rest)),
        text_end(cstr(text) + rest) == encode_utf8(text).len(),
{
    let bytes = cstr(text) + rest;
    let end = encode_utf8(text).len() as int;
    lemma_text_end(encode_utf8(text), rest);
    encode_utf8_valid_utf8(text);
    encode_utf8_decode_utf8(text);
    assert(bytes.take(end) =~= encode_utf8(text));
    assert(bytes.skip(end + 1) =~= rest);
}

/// Whether names can stand in an offer of mechanisms.
pub open spec fn can_be_offered(names: Seq<Seq<char>>) -> bool {
    forall|i: int| 0 <= i < names.len() ==> no_nul(#[trigger] names[i]) && names[i].len() > 0
}

/// Two strings that were written are two strings when they are read.
pub proof fn law_two_texts_read_back(a: Seq<char>, b: Seq<char>)
    requires
        no_nul(a),
        no_nul(b),
    ensures
        are_two_texts(cstr(a) + cstr(b)),
{
    law_text_read_back(a, cstr(b));
    law_text_read_back(b, Seq::empty());
    assert(cstr(b) + Seq::<u8>::empty() =~= cstr(b));
    assert((cstr(a) + cstr(b)).skip(text_end(cstr(a) + cstr(b)) + 1) =~= cstr(b));
}

/// An offer of mechanisms on the wire.
pub open spec fn mechanisms_written(names: Seq<Seq<char>>) -> Seq<u8> {
    names.map_values(|name: Seq<char>| cstr(name)).flatten().push(0)
}

/// The mechanisms that a server offers are the mechanisms that the client reads.
pub proof fn law_mechanisms_read_back(names: Seq<Seq<char>>)
    requires
        can_be_offered(names),
    ensures
        mechanisms_in(mechanisms_written(names)) == Some(names),
    decreases names.len(),
{
    let bytes = mechanisms_written(names);
    let written = names.map_values(|name: Seq<char>| cstr(name));
    if names.len() == 0 {
        assert(bytes =~= seq![0u8]);
        assert(bytes.take(0) =~= encode_utf8(Seq::empty()));
        encode_utf8_valid_utf8(Seq::empty());
        assert(bytes.skip(1) =~= seq![]);
    } else {
        let rest = names.drop_first();
        assert forall|i: int| 0 <= i < rest.len() implies no_nul(#[trigger] rest[i])
            && rest[i].len() > 0 by {
            assert(rest[i] == names[i + 1]);
        }
        law_mechanisms_read_back(rest);
        assert(no_nul(names[0]));
        law_text_read_back(names[0], mechanisms_written(rest));
        assert(written.drop_first() =~= rest.map_values(|name: Seq<char>| cstr(name)));
        assert(bytes =~= cstr(names[0]) + mechanisms_written(rest));
        assert(encode_utf8(names[0]).len() > 0);
        assert(seq![names[0]] + rest =~= names);
    }
}

/// A field of an error: a byte that says what it is about, and its value.
pub struct ErrorField {
    pub code: u8,
    pub value: Seq<char>,
}

/// Whether an error can have these fields.
pub open spec fn can_be_reported(fields: Seq<ErrorField>) -> bool {
    forall|i: int|
        0 <= i < fields.len() ==> (#[trigger] fields[i]).code != 0 && no_nul(fields[i].value)
}

/// The fields of an error on the wire.
pub open spec fn error_fields_written(fields: Seq<ErrorField>) -> Seq<u8> {
    fields.map_values(|f: ErrorField| seq![f.code] + cstr(f.value)).flatten().push(0)
}

/// The values of an error's fields that a server sends are the values that the
/// client reads.
pub proof fn law_error_fields_read_back(fields: Seq<ErrorField>)
    requires
        can_be_reported(fields),
    ensures
        error_fields_in(error_fields_written(fields)) == Some(
            fields.map_values(|f: ErrorField| f.value),
        ),
    decreases fields.len(),
{
    let bytes = error_fields_written(fields);
    let written = fields.map_values(|f: ErrorField| seq![f.code] + cstr(f.value));
    let values = fields.map_values(|f: ErrorField| f.value);
    if fields.len() == 0 {
        assert(bytes =~= seq![0u8]);
        assert(values =~= seq![]);
    } else {
        let rest = fields.drop_first();
        assert forall|i: int| 0 <= i < rest.len() implies (#[trigger] rest[i]).code != 0
            && no_nul(rest[i].value) by {
            assert(rest[i] == fields[i + 1]);
        }
        law_error_fields_read_back(rest);
        assert(fields[0].code != 0);
        law_text_read_back(fields[0].value, error_fields_written(rest));
        assert(written.drop_first() =~= rest.map_values(
            |f: ErrorField| seq![f.code] + cstr(f.value),
        ));
        assert(bytes =~= seq![fields[0].code] + (cstr(fields[0].value) + error_fields_written(rest)));
        assert(bytes.drop_first() =~= cstr(fields[0].value) + error_fields_written(rest));
        assert(values =~= seq![fields[0].value] + rest.map_values(|f: ErrorField| f.value));
    }
}

/// A column as a server describes it: around the type's object identifier stand
/// six bytes and eight that the client does not read.
pub struct Column {
    pub field: FieldView,
    pub before: Seq<u8>,
    pub after: Seq<u8>,
}

/// Whether a server can describe these columns.
pub open spec fn can_be_described(columns: Seq<Column>) -> bool {
    forall|i: int|
        0 <= i < columns.len() ==> no_nul((#[trigger] columns[i]).field.name)
            && columns[i].before.len() == 6 && columns[i].after.len() == 8
}

/// A column on the wire.
pub open spec fn column_written(column: Column) -> Seq<u8> {
    cstr(column.field.name) + column.before + be32(column.field.type_oid as int) + column.after
}

/// Columns on the wire.
pub open spec fn columns_written(columns: Seq<Column>) -> Seq<u8> {
    columns.map_values(|c: Column| column_written(c)).flatten()
}

/// The names and types of columns that a server describes are those that the
/// client reads.
pub proof fn law_columns_read_back(columns: Seq<Column>)
    requires
        can_be_described(columns),
    ensures
        columns_in(columns_written(columns), columns.len()) == Some(
            columns.map_values(|c: Column| c.field),
        ),
    decreases columns.len(),
{
    let bytes = columns_written(columns);
    let written = columns.map_values(|c: Column| column_written(c));
    let fields = columns.map_values(|c: Column| c.field);
    if columns.len() == 0 {
        assert(bytes =~= seq![]);
        assert(fields =~= seq![]);
    } else {
        let rest = columns.drop_first();
        let c = columns[0];
        assert forall|i: int| 0 <= i < rest.len() implies no_nul((#[trigger] rest[i]).field.name)
            && rest[i].before.len() == 6 && rest[i].after.len() == 8 by {
            assert(rest[i] == columns[i + 1]);
        }
        law_columns_read_back(rest);
        let oid = be32(c.field.type_oid as int);
        law_read_back(c.field.type_oid as int);
        let behind = c.before + oid + c.after + columns_written(rest);
        law_text_read_back(c.field.name, behind);
        assert(written.drop_first() =~= rest.map_values(|c: Column| column_written(c)));
        assert(bytes =~= cstr(c.field.name) + behind);
        assert(behind.subrange(6, 10) =~= oid);
        assert(behind.skip(18) =~= columns_written(rest));
        assert(fields =~= seq![c.field] + rest.map_values(|c: Column| c.field));
    }
}

} // verus!
