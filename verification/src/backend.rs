//! Messages from the server: how they are framed, and what this client reads of them.
use bytes::BytesMut;
use fallible_iterator::FallibleIterator;
use postgres_protocol::message::backend::{DataRowBody, Message as Incoming};
use vstd::prelude::*;

use crate::buffer::held;
use crate::reply::{
    bare, can_be_described, can_be_offered, can_be_reported, columns_written,
    error_fields_written, is_tag, law_columns_read_back, law_error_fields_read_back,
    law_mechanisms_read_back, law_two_texts_read_back, mechanisms_written, stated, Column,
    ErrorField,
};
use crate::wire::{
    be16, be32, cstr, framed, law_frame_declares_its_length, law_read_back, law_read_back_short,
    no_nul, read32, sizable,
};

verus! {

/// An I/O error, carried to the caller as it came.
#[verifier::external_type_specification]
#[verifier::external_body]
pub struct ExIoError(std::io::Error);

/// A message as `postgres_protocol` decodes it.
#[verifier::external_type_specification]
#[verifier::external_body]
pub struct ExIncoming(Incoming);

/// A row, carried to the caller as it came.
#[verifier::external_type_specification]
#[verifier::external_body]
pub struct ExDataRowBody(DataRowBody);

/// A message of which this client reads nothing but its kind.
#[derive(Debug, Clone, Copy, PartialEq, Eq, Structural)]
pub enum Signal {
    AuthenticationCleartextPassword,
    AuthenticationGss,
    AuthenticationKerberosV5,
    AuthenticationMd5Password,
    AuthenticationOk,
    AuthenticationScmCredential,
    AuthenticationSspi,
    AuthenticationGssContinue,
    BackendKeyData,
    BindComplete,
    CloseComplete,
    CommandComplete,
    CopyData,
    CopyDone,
    CopyInResponse,
    CopyOutResponse,
    EmptyQueryResponse,
    NoData,
    NoticeResponse,
    NotificationResponse,
    ParameterDescription,
    ParameterStatus,
    ParseComplete,
    PortalSuspended,
    ReadyForQuery,
    Unknown,
}

/// One column of a row description.
pub struct Field {
    pub name: String,
    pub type_oid: u32,
}

/// A message from the server, as far as this client reads it. A list that the
/// server sent in a malformed way stands as the error that reading it gave.
pub enum Message {
    /// The mechanisms that the server offers.
    AuthenticationSasl(Result<Vec<String>, std::io::Error>),
    AuthenticationSaslContinue(Vec<u8>),
    AuthenticationSaslFinal(Vec<u8>),
    DataRow(DataRowBody),
    /// The values of the error's fields.
    ErrorResponse(Result<Vec<String>, std::io::Error>),
    RowDescription(Result<Vec<Field>, std::io::Error>),
    Signal(Signal),
}

/// What a message says.
pub enum MessageView {
    AuthenticationSasl(Result<Seq<Seq<char>>, std::io::Error>),
    AuthenticationSaslContinue(Seq<u8>),
    AuthenticationSaslFinal(Seq<u8>),
    DataRow(DataRowBody),
    ErrorResponse(Result<Seq<Seq<char>>, std::io::Error>),
    RowDescription(Result<Seq<FieldView>, std::io::Error>),
    Signal(Signal),
}

/// What one column of a row description says.
pub struct FieldView {
    pub name: Seq<char>,
    pub type_oid: u32,
}

impl View for Field {
    type V = FieldView;

    open spec fn view(&self) -> FieldView {
        FieldView { name: self.name@, type_oid: self.type_oid }
    }
}

/// The characters of each string of a list.
pub open spec fn texts(strings: Seq<String>) -> Seq<Seq<char>> {
    strings.map_values(|s: String| s@)
}

/// What each column of a list says.
pub open spec fn columns(fields: Seq<Field>) -> Seq<FieldView> {
    fields.map_values(|f: Field| f@)
}

impl View for Message {
    type V = MessageView;

    open spec fn view(&self) -> MessageView {
        match *self {
            Message::AuthenticationSasl(Ok(list)) => MessageView::AuthenticationSasl(
                Ok(texts(list@)),
            ),
            Message::AuthenticationSasl(Err(error)) => MessageView::AuthenticationSasl(Err(error)),
            Message::AuthenticationSaslContinue(data) => MessageView::AuthenticationSaslContinue(
                data@,
            ),
            Message::AuthenticationSaslFinal(data) => MessageView::AuthenticationSaslFinal(data@),
            Message::DataRow(row) => MessageView::DataRow(row),
            Message::ErrorResponse(Ok(list)) => MessageView::ErrorResponse(Ok(texts(list@))),
            Message::ErrorResponse(Err(error)) => MessageView::ErrorResponse(Err(error)),
            Message::RowDescription(Ok(list)) => MessageView::RowDescription(Ok(columns(list@))),
            Message::RowDescription(Err(error)) => MessageView::RowDescription(Err(error)),
            Message::Signal(signal) => MessageView::Signal(signal),
        }
    }
}

/// How the bytes received so far begin.
pub enum Framing {
    /// No whole frame is there yet.
    Incomplete,
    /// The declared length is less than the four bytes that hold it.
    Impossible,
    /// A whole frame of this many bytes is there.
    Whole(int),
}

/// The length that a frame declares: that of the frame without its tag.
pub open spec fn declared_length(rx: Seq<u8>) -> int {
    read32(rx.subrange(1, 5)) as int
}

pub open spec fn framing(rx: Seq<u8>) -> Framing {
    if rx.len() < 5 {
        Framing::Incomplete
    } else if declared_length(rx) < 4 {
        Framing::Impossible
    } else if rx.len() < declared_length(rx) + 1 {
        Framing::Incomplete
    } else {
        Framing::Whole(declared_length(rx) + 1)
    }
}

/// What a decoded message says.
pub uninterp spec fn conveyed(message: Incoming) -> MessageView;

/// The row in the body of a frame that brings one.
pub uninterp spec fn row_in(body: Seq<u8>) -> DataRowBody;

/// The error that reading a malformed list ends in, in the body of a frame with
/// this tag.
pub uninterp spec fn list_flaw(tag: u8, body: Seq<u8>) -> std::io::Error;

/// Why a whole frame holds no message, or why there can be no frame with such a
/// tag and length.
pub uninterp spec fn frame_flaw(bytes: Seq<u8>) -> std::io::Error;

/// What a frame with this tag says that holds this body, if it holds a message.
pub open spec fn said(tag: u8, body: Seq<u8>) -> Option<MessageView> {
    stated(tag, body, row_in(body), list_flaw(tag, body))
}

/// `backend::Message::parse`: takes the first frame off the buffer and decodes
/// it. Without a whole frame, or with an impossible length, the buffer is left
/// as it was. A frame that does not decode is taken off too. The lists that a
/// message says are those that its body's iterator yields, or the iterator's error
/// where it fails. A row and the errors are told by the bytes of the frame alone,
/// and the error of an impossible length by the tag and the length; nothing is said
/// of what they hold. Lengths are taken to fit a `usize` of more than 32 bits.
#[verifier::external_body]
fn parse(buf: &mut BytesMut) -> (r: Result<Option<Incoming>, std::io::Error>)
    ensures
        match framing(held(*old(buf))) {
            Framing::Incomplete => r matches Ok(None) && held(*final(buf)) == held(*old(buf)),
            Framing::Impossible => {
                &&& r == Err::<Option<Incoming>, _>(frame_flaw(held(*old(buf)).take(5)))
                &&& held(*final(buf)) == held(*old(buf))
            },
            Framing::Whole(len) => {
                let frame = held(*old(buf)).take(len);
                let (tag, body) = (frame[0], frame.skip(5));
                let says = stated(tag, body, row_in(body), list_flaw(tag, body));
                &&& held(*final(buf)) == held(*old(buf)).skip(len)
                &&& match r {
                    Ok(Some(message)) => says == Some(conveyed(message)),
                    Ok(None) => false,
                    Err(error) => says is None && error == frame_flaw(frame),
                }
            },
        },
{
    Incoming::parse(buf)
}

/// Whether a message belongs to a SASL exchange.
pub open spec fn on_sasl(message: MessageView) -> bool {
    ||| message is AuthenticationSasl
    ||| message is AuthenticationSaslContinue
    ||| message is AuthenticationSaslFinal
}

/// The messages of a SASL exchange: the mechanisms are what
/// `AuthenticationSaslBody::mechanisms` yields, the bytes what `data` gives.
/// Every other message comes back as it was.
#[verifier::external_body]
fn sasl_content(message: Incoming) -> (r: Result<Message, Incoming>)
    ensures
        match r {
            Ok(m) => on_sasl(m@) && m@ == conveyed(message),
            Err(other) => other == message && !on_sasl(conveyed(message)),
        },
{
    Ok(match message {
        Incoming::AuthenticationSasl(b) => Message::AuthenticationSasl(
            b.mechanisms().map(|m| Ok(m.to_owned())).collect(),
        ),
        Incoming::AuthenticationSaslContinue(b) => Message::AuthenticationSaslContinue(b.data().to_vec()),
        Incoming::AuthenticationSaslFinal(b) => Message::AuthenticationSaslFinal(b.data().to_vec()),
        other => return Err(other),
    })
}

/// Whether a message brings a row, the columns of rows, or an error.
pub open spec fn on_result(message: MessageView) -> bool {
    ||| message is DataRow
    ||| message is ErrorResponse
    ||| message is RowDescription
}

/// The messages that bring a row, the columns of rows, or an error. The lists
/// are what `ErrorResponseBody::fields` and `RowDescriptionBody::fields` yield.
/// Every other message comes back as it was.
#[verifier::external_body]
fn result_content(message: Incoming) -> (r: Result<Message, Incoming>)
    ensures
        match r {
            Ok(m) => on_result(m@) && m@ == conveyed(message),
            Err(other) => other == message && !on_result(conveyed(message)),
        },
{
    Ok(match message {
        Incoming::DataRow(b) => Message::DataRow(b),
        Incoming::ErrorResponse(b) => Message::ErrorResponse(
            b.fields().map(|f| Ok(f.value().to_owned())).collect(),
        ),
        Incoming::RowDescription(b) => Message::RowDescription(
            b.fields().map(|f| Ok(Field { name: f.name().to_owned(), type_oid: f.type_oid() })).collect(),
        ),
        other => return Err(other),
    })
}

/// Whether a signal is one of the server's requests and answers on how the
/// client is to authenticate.
pub open spec fn on_authentication(signal: Signal) -> bool {
    ||| signal is AuthenticationCleartextPassword
    ||| signal is AuthenticationGss
    ||| signal is AuthenticationKerberosV5
    ||| signal is AuthenticationMd5Password
    ||| signal is AuthenticationOk
    ||| signal is AuthenticationScmCredential
    ||| signal is AuthenticationSspi
    ||| signal is AuthenticationGssContinue
}

/// The authentication messages without content, one for one. Every other
/// message comes back as it was.
#[verifier::external_body]
fn authentication_signal(message: Incoming) -> (r: Result<Signal, Incoming>)
    ensures
        match r {
            Ok(s) => on_authentication(s) && conveyed(message) == MessageView::Signal(s),
            Err(other) => other == message && !(conveyed(message) matches MessageView::Signal(s)
                && on_authentication(s)),
        },
{
    Ok(match message {
        Incoming::AuthenticationCleartextPassword => Signal::AuthenticationCleartextPassword,
        Incoming::AuthenticationGss => Signal::AuthenticationGss,
        Incoming::AuthenticationKerberosV5 => Signal::AuthenticationKerberosV5,
        Incoming::AuthenticationMd5Password(_) => Signal::AuthenticationMd5Password,
        Incoming::AuthenticationOk => Signal::AuthenticationOk,
        Incoming::AuthenticationScmCredential => Signal::AuthenticationScmCredential,
        Incoming::AuthenticationSspi => Signal::AuthenticationSspi,
        Incoming::AuthenticationGssContinue(_) => Signal::AuthenticationGssContinue,
        other => return Err(other),
    })
}

/// Whether a signal answers a step of the extended query protocol.
pub open spec fn on_query(signal: Signal) -> bool {
    ||| signal is BindComplete
    ||| signal is CloseComplete
    ||| signal is CommandComplete
    ||| signal is EmptyQueryResponse
    ||| signal is NoData
    ||| signal is ParameterDescription
    ||| signal is ParseComplete
    ||| signal is PortalSuspended
    ||| signal is ReadyForQuery
}

/// The answers to queries without content, one for one. Every other message
/// comes back as it was.
#[verifier::external_body]
fn query_signal(message: Incoming) -> (r: Result<Signal, Incoming>)
    ensures
        match r {
            Ok(s) => on_query(s) && conveyed(message) == MessageView::Signal(s),
            Err(other) => other == message && !(conveyed(message) matches MessageView::Signal(s)
                && on_query(s)),
        },
{
    Ok(match message {
        Incoming::BindComplete => Signal::BindComplete,
        Incoming::CloseComplete => Signal::CloseComplete,
        Incoming::CommandComplete(_) => Signal::CommandComplete,
        Incoming::EmptyQueryResponse => Signal::EmptyQueryResponse,
        Incoming::NoData => Signal::NoData,
        Incoming::ParameterDescription(_) => Signal::ParameterDescription,
        Incoming::ParseComplete => Signal::ParseComplete,
        Incoming::PortalSuspended => Signal::PortalSuspended,
        Incoming::ReadyForQuery(_) => Signal::ReadyForQuery,
        other => return Err(other),
    })
}

/// The messages that are left, one for one.
#[verifier::external_body]
fn other_signal(message: Incoming) -> (signal: Signal)
    requires
        conveyed(message) matches MessageView::Signal(s) && !on_authentication(s) && !on_query(s),
    ensures
        conveyed(message) == MessageView::Signal(signal),
{
    match message {
        Incoming::BackendKeyData(_) => Signal::BackendKeyData,
        Incoming::CopyData(_) => Signal::CopyData,
        Incoming::CopyDone => Signal::CopyDone,
        Incoming::CopyInResponse(_) => Signal::CopyInResponse,
        Incoming::CopyOutResponse(_) => Signal::CopyOutResponse,
        Incoming::NoticeResponse(_) => Signal::NoticeResponse,
        Incoming::NotificationResponse(_) => Signal::NotificationResponse,
        Incoming::ParameterStatus(_) => Signal::ParameterStatus,
        _ => Signal::Unknown,
    }
}

/// What comes of the bytes received so far.
pub enum Arrival {
    /// More bytes are needed.
    Pending,
    /// The bytes cannot be read as a message, for this reason. These are left.
    Malformed(std::io::Error, Seq<u8>),
    /// A message, and the bytes behind it.
    Arrived(MessageView, Seq<u8>),
}

pub open spec fn arrival(rx: Seq<u8>) -> Arrival {
    match framing(rx) {
        Framing::Incomplete => Arrival::Pending,
        Framing::Impossible => Arrival::Malformed(frame_flaw(rx.take(5)), rx),
        Framing::Whole(len) => {
            let frame = rx.take(len);
            match said(frame[0], frame.skip(5)) {
                Some(message) => Arrival::Arrived(message, rx.skip(len)),
                None => Arrival::Malformed(frame_flaw(frame), rx.skip(len)),
            }
        },
    }
}

/// The next message in the buffer, if a whole one is there.
pub fn next_message(buf: &mut BytesMut) -> (r: Result<Option<Message>, std::io::Error>)
    ensures
        match arrival(held(*old(buf))) {
            Arrival::Pending => r matches Ok(None) && held(*final(buf)) == held(*old(buf)),
            Arrival::Malformed(error, rest) => {
                &&& r == Err::<Option<Message>, _>(error)
                &&& held(*final(buf)) == rest
            },
            Arrival::Arrived(message, rest) => {
                &&& r matches Ok(Some(m)) && m@ == message
                &&& held(*final(buf)) == rest
            },
        },
{
    let incoming = match parse(buf) {
        Ok(Some(incoming)) => incoming,
        Ok(None) => return Ok(None),
        Err(error) => return Err(error),
    };
    let incoming = match sasl_content(incoming) {
        Ok(message) => return Ok(Some(message)),
        Err(incoming) => incoming,
    };
    let incoming = match result_content(incoming) {
        Ok(message) => return Ok(Some(message)),
        Err(incoming) => incoming,
    };
    let incoming = match authentication_signal(incoming) {
        Ok(signal) => return Ok(Some(Message::Signal(signal))),
        Err(incoming) => incoming,
    };
    let signal = match query_signal(incoming) {
        Ok(signal) => signal,
        Err(incoming) => other_signal(incoming),
    };
    Ok(Some(Message::Signal(signal)))
}

/// The name of a kind of message.
pub open spec fn signal_name(signal: Signal) -> Seq<char> {
    match signal {
        Signal::AuthenticationCleartextPassword => "AuthenticationCleartextPassword"@,
        Signal::AuthenticationGss => "AuthenticationGss"@,
        Signal::AuthenticationKerberosV5 => "AuthenticationKerberosV5"@,
        Signal::AuthenticationMd5Password => "AuthenticationMd5Password"@,
        Signal::AuthenticationOk => "AuthenticationOk"@,
        Signal::AuthenticationScmCredential => "AuthenticationScmCredential"@,
        Signal::AuthenticationSspi => "AuthenticationSspi"@,
        Signal::AuthenticationGssContinue => "AuthenticationGssContinue"@,
        Signal::BackendKeyData => "BackendKeyData"@,
        Signal::BindComplete => "BindComplete"@,
        Signal::CloseComplete => "CloseComplete"@,
        Signal::CommandComplete => "CommandComplete"@,
        Signal::CopyData => "CopyData"@,
        Signal::CopyDone => "CopyDone"@,
        Signal::CopyInResponse => "CopyInResponse"@,
        Signal::CopyOutResponse => "CopyOutResponse"@,
        Signal::EmptyQueryResponse => "EmptyQueryResponse"@,
        Signal::NoData => "NoData"@,
        Signal::NoticeResponse => "NoticeResponse"@,
        Signal::NotificationResponse => "NotificationResponse"@,
        Signal::ParameterDescription => "ParameterDescription"@,
        Signal::ParameterStatus => "ParameterStatus"@,
        Signal::ParseComplete => "ParseComplete"@,
        Signal::PortalSuspended => "PortalSuspended"@,
        Signal::ReadyForQuery => "ReadyForQuery"@,
        Signal::Unknown => "-- Unknown --"@,
    }
}

/// The name of the kind of a message.
pub open spec fn message_name(message: MessageView) -> Seq<char> {
    match message {
        MessageView::AuthenticationSasl(_) => "AuthenticationSasl"@,
        MessageView::AuthenticationSaslContinue(_) => "AuthenticationSaslContinue"@,
        MessageView::AuthenticationSaslFinal(_) => "AuthenticationSaslFinal"@,
        MessageView::DataRow(_) => "DataRow"@,
        MessageView::ErrorResponse(_) => "ErrorResponse"@,
        MessageView::RowDescription(_) => "RowDescription"@,
        MessageView::Signal(signal) => signal_name(signal),
    }
}

/// The name of a message's kind, for error texts.
pub fn get_msg_name(msg: &Message) -> (name: &'static str)
    ensures
        name@ == message_name(msg@),
{
    match msg {
        Message::AuthenticationSasl(_) => "AuthenticationSasl",
        Message::AuthenticationSaslContinue(_) => "AuthenticationSaslContinue",
        Message::AuthenticationSaslFinal(_) => "AuthenticationSaslFinal",
        Message::DataRow(_) => "DataRow",
        Message::ErrorResponse(_) => "ErrorResponse",
        Message::RowDescription(_) => "RowDescription",
        Message::Signal(signal) => match signal {
            Signal::AuthenticationCleartextPassword => "AuthenticationCleartextPassword",
            Signal::AuthenticationGss => "AuthenticationGss",
            Signal::AuthenticationKerberosV5 => "AuthenticationKerberosV5",
            Signal::AuthenticationMd5Password => "AuthenticationMd5Password",
            Signal::AuthenticationOk => "AuthenticationOk",
            Signal::AuthenticationScmCredential => "AuthenticationScmCredential",
            Signal::AuthenticationSspi => "AuthenticationSspi",
            Signal::AuthenticationGssContinue => "AuthenticationGssContinue",
            Signal::BackendKeyData => "BackendKeyData",
            Signal::BindComplete => "BindComplete",
            Signal::CloseComplete => "CloseComplete",
            Signal::CommandComplete => "CommandComplete",
            Signal::CopyData => "CopyData",
            Signal::CopyDone => "CopyDone",
            Signal::CopyInResponse => "CopyInResponse",
            Signal::CopyOutResponse => "CopyOutResponse",
            Signal::EmptyQueryResponse => "EmptyQueryResponse",
            Signal::NoData => "NoData",
            Signal::NoticeResponse => "NoticeResponse",
            Signal::NotificationResponse => "NotificationResponse",
            Signal::ParameterDescription => "ParameterDescription",
            Signal::ParameterStatus => "ParameterStatus",
            Signal::ParseComplete => "ParseComplete",
            Signal::PortalSuspended => "PortalSuspended",
            Signal::ReadyForQuery => "ReadyForQuery",
            Signal::Unknown => "-- Unknown --",
        },
    }
}

/// Bytes that arrive later change nothing about a message that is whole, nor
/// about a frame that cannot be read: they stand behind what is left.
pub proof fn law_later_bytes_follow(rx: Seq<u8>, later: Seq<u8>)
    ensures
        match arrival(rx) {
            Arrival::Pending => true,
            Arrival::Malformed(error, rest) => arrival(rx + later) == Arrival::Malformed(
                error,
                rest + later,
            ),
            Arrival::Arrived(message, rest) => arrival(rx + later) == Arrival::Arrived(
                message,
                rest + later,
            ),
        },
{
    if rx.len() >= 5 {
        assert((rx + later).subrange(1, 5) =~= rx.subrange(1, 5));
        assert((rx + later).take(5) =~= rx.take(5));
        if let Framing::Whole(len) = framing(rx) {
            assert((rx + later).take(len) =~= rx.take(len));
            assert((rx + later).skip(len) =~= rx.skip(len) + later);
        }
    }
}

/// A frame that the server sends whole is read for what it says, or refused. The
/// bytes behind it are left.
pub proof fn law_whole_frame_is_read(tag: u8, body: Seq<u8>, later: Seq<u8>)
    requires
        sizable(body),
    ensures
        arrival(framed(tag, body) + later) == (match said(tag, body) {
            Some(message) => Arrival::Arrived(message, later),
            None => Arrival::Malformed(frame_flaw(framed(tag, body)), later),
        }),
{
    let frame = framed(tag, body);
    let rx = frame + later;
    law_frame_declares_its_length(tag, body);
    assert(rx.subrange(1, 5) =~= frame.subrange(1, 5));
    assert(rx.take(frame.len() as int) =~= frame);
    assert(rx.skip(frame.len() as int) =~= later);
}

/// A frame with a tag that no message has is refused.
pub proof fn law_unknown_tag_is_refused(tag: u8, body: Seq<u8>, later: Seq<u8>)
    requires
        sizable(body),
        !is_tag(tag),
    ensures
        arrival(framed(tag, body) + later) == Arrival::Malformed(
            frame_flaw(framed(tag, body)),
            later,
        ),
{
    law_whole_frame_is_read(tag, body, later);
}

/// A row arrives as the row that its frame holds.
pub proof fn law_row_arrives(body: Seq<u8>, later: Seq<u8>)
    requires
        body.len() >= 2,
        sizable(body),
    ensures
        arrival(framed(0x44, body) + later) == Arrival::Arrived(
            MessageView::DataRow(row_in(body)),
            later,
        ),
{
    law_whole_frame_is_read(0x44, body, later);
}

/// A parameter that the server reports, and the key that it hands out, arrive as
/// such.
pub proof fn law_reports_arrive(name: Seq<char>, value: Seq<char>, key: Seq<u8>, later: Seq<u8>)
    requires
        no_nul(name),
        no_nul(value),
        sizable(cstr(name) + cstr(value)),
        key.len() == 8,
    ensures
        arrival(framed(0x53, cstr(name) + cstr(value)) + later) == Arrival::Arrived(
            MessageView::Signal(Signal::ParameterStatus),
            later,
        ),
        arrival(framed(0x4b, key) + later) == Arrival::Arrived(
            MessageView::Signal(Signal::BackendKeyData),
            later,
        ),
{
    law_two_texts_read_back(name, value);
    law_whole_frame_is_read(0x53, cstr(name) + cstr(value), later);
    law_whole_frame_is_read(0x4b, key, later);
}

/// A frame that holds nothing arrives as the message of its tag.
pub proof fn law_bare_frame_arrives(tag: u8, signal: Signal, later: Seq<u8>)
    requires
        bare(tag) == Some(signal),
    ensures
        arrival(framed(tag, Seq::empty()) + later) == Arrival::Arrived(
            MessageView::Signal(signal),
            later,
        ),
{
    law_whole_frame_is_read(tag, Seq::empty(), later);
}

/// An offer of mechanisms arrives as the server made it.
pub proof fn law_offer_arrives(names: Seq<Seq<char>>, later: Seq<u8>)
    requires
        can_be_offered(names),
        sizable(be32(10) + mechanisms_written(names)),
    ensures
        arrival(framed(0x52, be32(10) + mechanisms_written(names)) + later) == Arrival::Arrived(
            MessageView::AuthenticationSasl(Ok(names)),
            later,
        ),
{
    let body = be32(10) + mechanisms_written(names);
    law_mechanisms_read_back(names);
    lemma_coded_body(10, mechanisms_written(names));
    law_whole_frame_is_read(0x52, body, later);
}

proof fn lemma_coded_body(code: int, data: Seq<u8>)
    requires
        0 <= code <= u32::MAX,
    ensures
        (be32(code) + data).len() >= 4,
        read32(be32(code) + data) == code,
        (be32(code) + data).skip(4) == data,
{
    law_read_back(code);
    assert((be32(code) + data).skip(4) =~= data);
}

/// A challenge and a confirmation arrive with the bytes that the server sent.
pub proof fn law_exchange_data_arrives(data: Seq<u8>, later: Seq<u8>)
    requires
        sizable(be32(11) + data),
    ensures
        arrival(framed(0x52, be32(11) + data) + later) == Arrival::Arrived(
            MessageView::AuthenticationSaslContinue(data),
            later,
        ),
        arrival(framed(0x52, be32(12) + data) + later) == Arrival::Arrived(
            MessageView::AuthenticationSaslFinal(data),
            later,
        ),
{
    lemma_coded_body(11, data);
    lemma_coded_body(12, data);
    law_whole_frame_is_read(0x52, be32(11) + data, later);
    law_whole_frame_is_read(0x52, be32(12) + data, later);
}

/// The word of the server that the client is let in, and the one that it is
/// ready, arrive as such.
pub proof fn law_admission_and_readiness_arrive(status: u8, later: Seq<u8>)
    ensures
        arrival(framed(0x52, be32(0)) + later) == Arrival::Arrived(
            MessageView::Signal(Signal::AuthenticationOk),
            later,
        ),
        arrival(framed(0x5a, seq![status]) + later) == Arrival::Arrived(
            MessageView::Signal(Signal::ReadyForQuery),
            later,
        ),
{
    law_read_back(0);
    law_whole_frame_is_read(0x52, be32(0), later);
    law_whole_frame_is_read(0x5a, seq![status], later);
}

/// The fields of an error arrive with the values that the server gave them.
pub proof fn law_error_arrives(fields: Seq<ErrorField>, later: Seq<u8>)
    requires
        can_be_reported(fields),
        sizable(error_fields_written(fields)),
    ensures
        arrival(framed(0x45, error_fields_written(fields)) + later) == Arrival::Arrived(
            MessageView::ErrorResponse(Ok(fields.map_values(|f: ErrorField| f.value))),
            later,
        ),
{
    law_error_fields_read_back(fields);
    law_whole_frame_is_read(0x45, error_fields_written(fields), later);
}

/// Columns arrive with the names and types that the server gave them.
pub proof fn law_columns_arrive(columns: Seq<Column>, later: Seq<u8>)
    requires
        columns.len() <= u16::MAX,
        can_be_described(columns),
        sizable(be16(columns.len() as int) + columns_written(columns)),
    ensures
        arrival(
            framed(0x54, be16(columns.len() as int) + columns_written(columns)) + later,
        ) == Arrival::Arrived(
            MessageView::RowDescription(Ok(columns.map_values(|c: Column| c.field))),
            later,
        ),
{
    let body = be16(columns.len() as int) + columns_written(columns);
    law_read_back_short(columns.len() as int);
    assert(body.skip(2) =~= columns_written(columns));
    law_columns_read_back(columns);
    law_whole_frame_is_read(0x54, body, later);
}

/// A message takes at least the five bytes of its tag and its length.
proof fn lemma_arrival_consumes(rx: Seq<u8>)
    ensures
        arrival(rx) matches Arrival::Arrived(_, rest) ==> rest.len() + 5 <= rx.len(),
{
}

/// The messages that can be read one after the other from the bytes received
/// so far.
pub open spec fn messages(rx: Seq<u8>) -> Seq<MessageView>
    decreases rx.len(),
{
    match arrival(rx) {
        Arrival::Arrived(message, rest) => {
            if rest.len() < rx.len() {
                seq![message] + messages(rest)
            } else {
                seq![]
            }
        },
        _ => seq![],
    }
}

/// The bytes that are left once those messages are read.
pub open spec fn unread(rx: Seq<u8>) -> Seq<u8>
    decreases rx.len(),
{
    match arrival(rx) {
        Arrival::Arrived(message, rest) => {
            if rest.len() < rx.len() {
                unread(rest)
            } else {
                rx
            }
        },
        _ => rx,
    }
}

/// Reading one message leaves the others to be read.
pub proof fn law_one_message_at_a_time(rx: Seq<u8>, message: MessageView, rest: Seq<u8>)
    requires
        arrival(rx) == Arrival::Arrived(message, rest),
    ensures
        messages(rx) == seq![message] + messages(rest),
        unread(rx) == unread(rest),
{
    lemma_arrival_consumes(rx);
}

/// It does not matter how the bytes of a stream are cut into reads: reading
/// what has arrived, and then what is left together with the later bytes,
/// gives the messages of the whole.
pub proof fn law_reads_may_be_cut_anywhere(rx: Seq<u8>, later: Seq<u8>)
    ensures
        messages(rx + later) == messages(rx) + messages(unread(rx) + later),
        unread(rx + later) == unread(unread(rx) + later),
    decreases rx.len(),
{
    law_later_bytes_follow(rx, later);
    lemma_arrival_consumes(rx);
    lemma_arrival_consumes(rx + later);
    match arrival(rx) {
        Arrival::Arrived(message, rest) => {
            law_reads_may_be_cut_anywhere(rest, later);
            assert(messages(rx + later) =~= messages(rx) + messages(unread(rx) + later));
        },
        _ => {
            assert(messages(rx) =~= seq![]);
            assert(messages(rx + later) =~= messages(rx) + messages(unread(rx) + later));
        },
    }
}

/// Every kind of message goes by its own name in error texts.
pub proof fn law_messages_go_by_their_names(
    list: Result<Seq<Seq<char>>, std::io::Error>,
    columns: Result<Seq<FieldView>, std::io::Error>,
    data: Seq<u8>,
    row: DataRowBody,
)
    ensures
        message_name(MessageView::AuthenticationSasl(list)) == "AuthenticationSasl"@,
        message_name(MessageView::AuthenticationSaslContinue(data))
            == "AuthenticationSaslContinue"@,
        message_name(MessageView::AuthenticationSaslFinal(data)) == "AuthenticationSaslFinal"@,
        message_name(MessageView::DataRow(row)) == "DataRow"@,
        message_name(MessageView::ErrorResponse(list)) == "ErrorResponse"@,
        message_name(MessageView::RowDescription(columns)) == "RowDescription"@,
        message_name(MessageView::Signal(Signal::AuthenticationCleartextPassword))
            == "AuthenticationCleartextPassword"@,
        message_name(MessageView::Signal(Signal::AuthenticationGss))
            == "AuthenticationGss"@,
        message_name(MessageView::Signal(Signal::AuthenticationKerberosV5))
            == "AuthenticationKerberosV5"@,
        message_name(MessageView::Signal(Signal::AuthenticationMd5Password))
            == "AuthenticationMd5Password"@,
        message_name(MessageView::Signal(Signal::AuthenticationOk))
            == "AuthenticationOk"@,
        message_name(MessageView::Signal(Signal::AuthenticationScmCredential))
            == "AuthenticationScmCredential"@,
        message_name(MessageView::Signal(Signal::AuthenticationSspi))
            == "AuthenticationSspi"@,
        message_name(MessageView::Signal(Signal::AuthenticationGssContinue))
            == "AuthenticationGssContinue"@,
        message_name(MessageView::Signal(Signal::BackendKeyData))
            == "BackendKeyData"@,
        message_name(MessageView::Signal(Signal::BindComplete))
            == "BindComplete"@,
        message_name(MessageView::Signal(Signal::CloseComplete))
            == "CloseComplete"@,
        message_name(MessageView::Signal(Signal::CommandComplete))
            == "CommandComplete"@,
        message_name(MessageView::Signal(Signal::CopyData))
            == "CopyData"@,
        message_name(MessageView::Signal(Signal::CopyDone))
            == "CopyDone"@,
        message_name(MessageView::Signal(Signal::CopyInResponse))
            == "CopyInResponse"@,
        message_name(MessageView::Signal(Signal::CopyOutResponse))
            == "CopyOutResponse"@,
        message_name(MessageView::Signal(Signal::EmptyQueryResponse))
            == "EmptyQueryResponse"@,
        message_name(MessageView::Signal(Signal::NoData))
            == "NoData"@,
        message_name(MessageView::Signal(Signal::NoticeResponse))
            == "NoticeResponse"@,
        message_name(MessageView::Signal(Signal::NotificationResponse))
            == "NotificationResponse"@,
        message_name(MessageView::Signal(Signal::ParameterDescription))
            == "ParameterDescription"@,
        message_name(MessageView::Signal(Signal::ParameterStatus))
            == "ParameterStatus"@,
        message_name(MessageView::Signal(Signal::ParseComplete))
            == "ParseComplete"@,
        message_name(MessageView::Signal(Signal::PortalSuspended))
            == "PortalSuspended"@,
        message_name(MessageView::Signal(Signal::ReadyForQuery))
            == "ReadyForQuery"@,
        message_name(MessageView::Signal(Signal::Unknown)) == "-- Unknown --"@,
{
}

/// What comes of the bytes received so far, byte for byte: a tag, four bytes with a
/// length that counts itself, and a body. Short of that the client waits; a length
/// below four is refused with all bytes left; and what stands behind is left.
pub proof fn law_arrival_is_spelled(rx: Seq<u8>)
    ensures
        ({
            let length = rx[1] * 0x100_0000 + rx[2] * 0x1_0000 + rx[3] * 0x100 + rx[4];
            if rx.len() < 5 {
                arrival(rx) is Pending
            } else if length < 4 {
                arrival(rx) == Arrival::Malformed(frame_flaw(rx.subrange(0, 5)), rx)
            } else if rx.len() <= length {
                arrival(rx) is Pending
            } else {
                let left = rx.subrange(length + 1, rx.len() as int);
                let body = rx.subrange(5, length + 1);
                match stated(rx[0], body, row_in(body), list_flaw(rx[0], body)) {
                    Some(message) => arrival(rx) == Arrival::Arrived(message, left),
                    None => arrival(rx) == Arrival::Malformed(
                        frame_flaw(rx.subrange(0, length + 1)),
                        left,
                    ),
                }
            }
        }),
{
    let length = rx[1] * 0x100_0000 + rx[2] * 0x1_0000 + rx[3] * 0x100 + rx[4];
    if rx.len() >= 5 {
        assert(declared_length(rx) == length);
        assert(rx.take(5) =~= rx.subrange(0, 5));
        if 4 <= length < rx.len() {
            assert(rx.take(length + 1) =~= rx.subrange(0, length + 1));
            assert(rx.take(length + 1).skip(5) =~= rx.subrange(5, length + 1));
            assert(rx.skip(length + 1) =~= rx.subrange(length + 1, rx.len() as int));
        }
    }
}

/// As long as a frame is not whole the client waits.
pub proof fn law_part_of_a_frame_waits(tag: u8, body: Seq<u8>, have: int)
    requires
        body.len() + 4 <= 0x7fff_ffff,
        0 <= have < body.len() + 5,
    ensures
        arrival(framed(tag, body).take(have)) is Pending,
{
    let frame = framed(tag, body);
    law_frame_declares_its_length(tag, body);
    if have >= 5 {
        assert(frame.take(have).subrange(1, 5) =~= frame.subrange(1, 5));
    }
}

/// What a message says is what it holds.
pub proof fn law_messages_say_what_they_hold(
    list: Vec<String>,
    fields: Vec<Field>,
    data: Vec<u8>,
    row: DataRowBody,
    signal: Signal,
    error: std::io::Error,
)
    ensures
        Message::AuthenticationSaslContinue(data)@ == MessageView::AuthenticationSaslContinue(data@),
        Message::AuthenticationSaslFinal(data)@ == MessageView::AuthenticationSaslFinal(data@),
        Message::DataRow(row)@ == MessageView::DataRow(row),
        Message::Signal(signal)@ == MessageView::Signal(signal),
        Message::AuthenticationSasl(Err(error))@ == MessageView::AuthenticationSasl(Err(error)),
        Message::ErrorResponse(Err(error))@ == MessageView::ErrorResponse(Err(error)),
        Message::RowDescription(Err(error))@ == MessageView::RowDescription(Err(error)),
        Message::AuthenticationSasl(Ok(list))@ == MessageView::AuthenticationSasl(
            Ok(list@.map_values(|s: String| s@)),
        ),
        Message::ErrorResponse(Ok(list))@ == MessageView::ErrorResponse(
            Ok(list@.map_values(|s: String| s@)),
        ),
        Message::RowDescription(Ok(fields))@ matches MessageView::RowDescription(Ok(read))
            && read.len() == fields@.len() && forall|i: int|
            0 <= i < fields@.len() ==> (#[trigger] read[i]).name == fields@[i].name@
                && read[i].type_oid == fields@[i].type_oid,
{
}

} // verus!
