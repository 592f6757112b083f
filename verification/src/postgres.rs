//! A connection to a PostgreSQL server, without its socket: what to send, and
//! what the bytes that arrive come to.
use bytes::BytesMut;
use postgres_protocol::message::backend::DataRowBody;
use postgres_types::Type;
use std::collections::VecDeque;
use std::io;
use std::ops::Range;
use std::rc::Rc;
use vstd::prelude::*;
use vstd::utf8::{encode_utf8, is_ascii_chars_encode_utf8};

use crate::address::{
    chars_of, names_endpoint, parse_url, url_parts, Endpoint, UrlParts, UrlPartsView,
};
use crate::backend::{
    arrival, columns, law_admission_and_readiness_arrive, law_columns_arrive,
    law_error_arrives,
    law_one_message_at_a_time, law_row_arrives, messages, next_message, row_in, texts, Arrival,
    Field, FieldView, Message, MessageView, Signal,
};
use crate::buffer::{extend_from_slice, held, with_capacity};
use crate::frontend::{
    describe, describe_body, encodes, execute, execute_body, flush, parse, parse_body, parse_flaw,
    startup_body, startup_flaw, startup_message, sync,
};
use crate::handshake::{Credentials, CredentialsView};
use crate::params::{
    bind_message, bind_request, bindable, bound, sort_if_bindable, BindError, BoundParam,
};
use crate::reply::{
    can_be_described, can_be_reported, columns_written, error_fields_written, law_text_read_back,
    leading_text, Column, ErrorField,
};
use crate::text::{debug_text, with_list};
use crate::wire::{
    be16, be32, counted32, cstr, framed, law_frame_declares_its_length, law_frame_is_spelled,
    law_numbers_are_spelled, no_nul, sizable, sized, spelled,
};

verus! {

/// A PostgreSQL type, carried to the caller as it came.
#[verifier::external_type_specification]
#[verifier::external_body]
pub struct ExType(Type);

/// A connection: the bytes that arrived and were not read yet, and who is
/// connected.
#[derive(Debug)]
pub struct Connection {
    rx_buf: BytesMut,
    username: String,
    password: Option<String>,
}

pub struct ConnectionView {
    pub received: Seq<u8>,
    pub username: Seq<char>,
    pub password: Option<Seq<char>>,
}

impl View for Connection {
    type V = ConnectionView;

    closed spec fn view(&self) -> ConnectionView {
        ConnectionView {
            received: held(self.rx_buf),
            username: self.username@,
            password: chars_of(self.password),
        }
    }
}

/// Why a message could not be received.
pub enum ReceiveError {
    /// The bytes cannot be read as a message.
    Io(io::Error),
    /// The server reports an error.
    Server(String),
}

pub enum ReceiveErrorView {
    Io(io::Error),
    Server(Seq<char>),
}

impl View for ReceiveError {
    type V = ReceiveErrorView;

    open spec fn view(&self) -> ReceiveErrorView {
        match *self {
            ReceiveError::Io(error) => ReceiveErrorView::Io(error),
            ReceiveError::Server(text) => ReceiveErrorView::Server(text@),
        }
    }
}

/// The words for an error that the server reports.
pub open spec fn error_text(fields: Seq<Seq<char>>) -> Seq<char> {
    "server responded with error response. Provided error fields: "@ + debug_text(fields)
}

/// What comes of a message before anybody looks at it: an error that the
/// server reports is an error here too.
pub open spec fn accepted(msg: MessageView) -> Result<MessageView, ReceiveErrorView> {
    match msg {
        MessageView::ErrorResponse(Ok(fields)) => Err(
            ReceiveErrorView::Server(error_text(fields)),
        ),
        MessageView::ErrorResponse(Err(error)) => Err(ReceiveErrorView::Io(error)),
        _ => Ok(msg),
    }
}

/// A connection, and where to connect it to, are what a URL says.
pub open spec fn is_for(made: (Connection, Endpoint), parts: UrlPartsView) -> bool {
    &&& made.0@ == ConnectionView {
        received: Seq::empty(),
        username: parts.username,
        password: parts.password,
    }
    &&& parts.host == Some(made.1.host@)
    &&& parts.port == Some(made.1.port)
}

impl Connection {
    /// A connection for what a URL says, and where to connect it to.
    pub fn from_url(parts: UrlParts) -> (r: (Connection, Endpoint))
        requires
            names_endpoint(parts@),
        ensures
            is_for(r, parts@),
    {
        let conn = Connection {
            rx_buf: with_capacity(1024),
            username: parts.username,
            password: parts.password,
        };
        (conn, Endpoint { host: parts.host.unwrap(), port: parts.port.unwrap() })
    }

    /// A connection for the URL `addr`, and where to connect it to.
    pub fn connect(addr: &str) -> (r: Result<(Connection, Endpoint), url::ParseError>)
        requires
            url_parts(addr@) matches Ok(parts) ==> names_endpoint(parts),
        ensures
            match url_parts(addr@) {
                Ok(parts) => r matches Ok(made) && is_for(made, parts),
                Err(error) => r == Err::<(Connection, Endpoint), _>(error),
            },
    {
        match parse_url(addr) {
            Ok(parts) => Ok(Connection::from_url(parts)),
            Err(error) => Err(error),
        }
    }

    /// `connect`, if `addr` names a host and a port or is no URL.
    pub fn checked_connect(addr: &str) -> (r: Option<
        Result<(Connection, Endpoint), url::ParseError>,
    >)
        ensures
            match url_parts(addr@) {
                Ok(parts) => if names_endpoint(parts) {
                    r matches Some(Ok(made)) && is_for(made, parts)
                } else {
                    r is None
                },
                Err(error) => r == Some(Err::<(Connection, Endpoint), _>(error)),
            },
    {
        if let Ok(parts) = parse_url(addr) {
            if parts.host.is_none() || parts.port.is_none() {
                return None;
            }
        }
        Some(Connection::connect(addr))
    }

    /// Who is connected.
    pub fn credentials(&self) -> (who: Credentials)
        ensures
            who@ == (CredentialsView { username: self@.username, password: self@.password }),
            who.username@ == self@.username,
            match who.password {
                Some(password) => self@.password == Some(password@),
                None => self@.password is None,
            },
    {
        Credentials { username: self.username.clone(), password: self.password.clone() }
    }

    /// Takes bytes that arrived.
    pub fn feed(&mut self, bytes: &[u8])
        ensures
            final(self)@ == (ConnectionView { received: old(self)@.received + bytes@, ..old(self)@ }),
    {
        extend_from_slice(&mut self.rx_buf, bytes);
    }

    /// The words for an error that the server reports.
    pub fn parse_err(fields: Result<Vec<String>, io::Error>) -> (r: Result<String, io::Error>)
        ensures
            match fields {
                Ok(list) => r matches Ok(text) && text@ == error_text(texts(list@)),
                Err(error) => r == Err::<String, _>(error),
            },
            fields matches Ok(list) ==> (r matches Ok(text) && text@
                == "server responded with error response. Provided error fields: "@ + debug_text(
                list@.map_values(|s: String| s@),
            )),
    {
        match fields {
            Ok(list) => Ok(
                with_list("server responded with error response. Provided error fields: ", &list),
            ),
            Err(error) => Err(error),
        }
    }

    /// Lets a message through unless it is an error that the server reports.
    pub fn accept(msg: Message) -> (r: Result<Message, ReceiveError>)
        ensures
            match r {
                Ok(m) => m == msg && accepted(msg@) == Ok::<_, ReceiveErrorView>(msg@),
                Err(error) => accepted(msg@) == Err::<MessageView, _>(error@),
            },
            match msg {
                Message::ErrorResponse(Ok(list)) => {
                    &&& r matches Err(ReceiveError::Server(text))
                    &&& text@ == "server responded with error response. Provided error fields: "@
                        + debug_text(list@.map_values(|s: String| s@))
                },
                Message::ErrorResponse(Err(error)) => r == Err::<Message, _>(
                    ReceiveError::Io(error),
                ),
                _ => r == Ok::<_, ReceiveError>(msg),
            },
    {
        match msg {
            Message::ErrorResponse(fields) => match Connection::parse_err(fields) {
                Ok(text) => Err(ReceiveError::Server(text)),
                Err(error) => Err(ReceiveError::Io(error)),
            },
            _ => Ok(msg),
        }
    }

    /// The next message among the bytes that arrived, if a whole one is there.
    pub fn receive_message(&mut self) -> (r: Result<Option<Message>, ReceiveError>)
        ensures
            final(self)@.username == old(self)@.username,
            final(self)@.password == old(self)@.password,
            match arrival(old(self)@.received) {
                Arrival::Pending => r matches Ok(None) && final(self)@.received == old(self)@.received,
                Arrival::Malformed(error, rest) => {
                    &&& r == Err::<Option<Message>, _>(ReceiveError::Io(error))
                    &&& final(self)@.received == rest
                },
                Arrival::Arrived(msg, rest) => {
                    &&& final(self)@.received == rest
                    &&& match r {
                        Ok(Some(m)) => accepted(msg) == Ok::<_, ReceiveErrorView>(m@),
                        Ok(None) => false,
                        Err(error) => accepted(msg) == Err::<MessageView, _>(error@),
                    }
                },
            },
    {
        match next_message(&mut self.rx_buf) {
            Ok(Some(msg)) => match Connection::accept(msg) {
                Ok(msg) => Ok(Some(msg)),
                Err(error) => Err(error),
            },
            Ok(None) => Ok(None),
            Err(error) => Err(ReceiveError::Io(error)),
        }
    }
}

/// The startup message of a user.
pub open spec fn startup_request(username: Seq<char>) -> Seq<u8> {
    sized(startup_body("user"@, username))
}

/// Whether the startup message of a user can be sent.
pub open spec fn can_start_up(username: Seq<char>) -> bool {
    no_nul(username) && sizable(startup_body("user"@, username))
}

/// The message that has the server parse `sql` as the unnamed statement, whose
/// parameters have the types that the server finds for them.
pub open spec fn parse_request(sql: Seq<char>) -> Seq<u8> {
    framed(0x50, parse_body(""@, sql, Seq::empty()))
}

/// Whether a statement can be sent to be parsed.
pub open spec fn can_parse(sql: Seq<char>) -> bool {
    no_nul(sql) && sizable(parse_body(""@, sql, Seq::empty()))
}

/// The message that asks for the columns of the unnamed statement.
pub open spec fn describe_request() -> Seq<u8> {
    framed(0x44, describe_body(0x53, ""@))
}

/// The message that runs the unnamed portal to its end.
pub open spec fn execute_request() -> Seq<u8> {
    framed(0x45, execute_body(""@, 0))
}

/// The message that has the server send what it holds back.
pub open spec fn flush_request() -> Seq<u8> {
    framed(0x48, Seq::empty())
}

/// The message that ends an exchange: the server answers that it is ready.
pub open spec fn sync_request() -> Seq<u8> {
    framed(0x53, Seq::empty())
}

proof fn lemma_unnamed()
    ensures
        encode_utf8(""@) == Seq::<u8>::empty(),
        no_nul(""@),
{
    reveal_strlit("");
    assert(""@ =~= Seq::empty());
}

impl Connection {
    /// The startup message.
    pub fn send_startup(&self) -> (r: Result<Vec<u8>, io::Error>)
        ensures
            encodes(
                r,
                can_start_up(self@.username),
                startup_request(self@.username),
                startup_flaw("user"@, self@.username),
            ),
    {
        proof {
            reveal_strlit("user");
            is_ascii_chars_encode_utf8("user"@);
        }
        startup_message("user", self.username.as_str())
    }

    /// The message that has the server parse `sql`.
    pub fn send_parse(sql: &str) -> (r: Result<Vec<u8>, io::Error>)
        ensures
            encodes(
                r,
                can_parse(sql@),
                parse_request(sql@),
                parse_flaw(""@, sql@, Seq::empty()),
            ),
    {
        proof {
            lemma_unnamed();
        }
        let param_types: Vec<u32> = Vec::new();
        assert(param_types@ =~= Seq::empty());
        parse("", sql, param_types)
    }

    /// The message that asks for the columns of the parsed statement.
    pub fn send_describe() -> (message: Vec<u8>)
        ensures
            message@ == describe_request(),
    {
        proof {
            lemma_unnamed();
        }
        describe(0x53, "").unwrap()
    }

    /// The message that runs the bound statement.
    pub fn send_execute() -> (message: Vec<u8>)
        ensures
            message@ == execute_request(),
    {
        proof {
            lemma_unnamed();
        }
        execute("", 0).unwrap()
    }

    /// The message that has the server send what it holds back.
    pub fn send_flush() -> (message: Vec<u8>)
        ensures
            message@ == flush_request(),
    {
        flush()
    }

    /// The message that ends an exchange.
    pub fn send_sync() -> (message: Vec<u8>)
        ensures
            message@ == sync_request(),
    {
        sync()
    }

    /// The message that binds parameters to the parsed statement.
    pub fn send_bind_params(params: Vec<BoundParam>) -> (r: Result<Vec<u8>, BindError>)
        requires
            bindable(bound(params@)),
        ensures
            match r {
                Ok(message) => bind_request(bound(params@)) == Ok::<_, BindError>(message@),
                Err(error) => bind_request(bound(params@)) == Err::<Seq<u8>, _>(error),
            },
    {
        bind_message(params)
    }

    /// What to send to run the parsed statement with these parameters: a bind,
    /// an execute and a sync message.
    pub fn execute(params: Vec<BoundParam>) -> (r: Result<Vec<u8>, BindError>)
        requires
            bindable(bound(params@)),
        ensures
            match bind_request(bound(params@)) {
                Ok(bind) => r matches Ok(bytes) && bytes@ == bind + execute_request()
                    + sync_request(),
                Err(error) => r == Err::<Vec<u8>, _>(error),
            },
    {
        let mut bytes = match Connection::send_bind_params(params) {
            Ok(bytes) => bytes,
            Err(error) => return Err(error),
        };
        bytes.append(&mut Connection::send_execute());
        bytes.append(&mut Connection::send_sync());
        Ok(bytes)
    }

    /// `execute`, if the parameters can be handed to a bind message.
    pub fn checked_execute(params: Vec<BoundParam>) -> (r: Option<Result<Vec<u8>, BindError>>)
        ensures
            match r {
                Some(Ok(bytes)) => {
                    &&& bindable(bound(params@))
                    &&& bind_request(bound(params@)) matches Ok(bind)
                    &&& bytes@ == bind + execute_request() + sync_request()
                },
                Some(Err(error)) => {
                    &&& bindable(bound(params@))
                    &&& bind_request(bound(params@)) == Err::<Seq<u8>, _>(error)
                },
                None => !bindable(bound(params@)),
            },
    {
        if params.len() > i16::MAX as usize {
            return Some(Connection::execute(params));
        }
        match sort_if_bindable(params) {
            Some(ordered) => Some(Connection::execute(ordered)),
            None => None,
        }
    }
}

/// A parse message says what is to be parsed: two statements that have one parse
/// message are the same.
pub proof fn law_parse_message_is_unambiguous(a: Seq<char>, b: Seq<char>)
    requires
        can_parse(a),
        can_parse(b),
        parse_request(a) == parse_request(b),
    ensures
        a == b,
{
    let types = counted32(Seq::empty());
    lemma_unnamed();
    let body_a = parse_body(""@, a, Seq::empty());
    let body_b = parse_body(""@, b, Seq::empty());
    law_frame_declares_its_length(0x50, body_a);
    law_frame_declares_its_length(0x50, body_b);
    assert(body_a.skip(1) =~= cstr(a) + types);
    assert(body_b.skip(1) =~= cstr(b) + types);
    law_text_read_back(a, types);
    law_text_read_back(b, types);
}

/// A startup message says who connects: two users that have one startup message
/// are the same.
pub proof fn law_startup_message_is_unambiguous(a: Seq<char>, b: Seq<char>)
    requires
        can_start_up(a),
        can_start_up(b),
        startup_request(a) == startup_request(b),
    ensures
        a == b,
{
    let start = 4 + 4 + cstr("user"@).len() as int;
    assert(startup_request(a).skip(start) =~= cstr(a) + seq![0u8]);
    assert(startup_request(b).skip(start) =~= cstr(b) + seq![0u8]);
    law_text_read_back(a, seq![0u8]);
    law_text_read_back(b, seq![0u8]);
}

/// What the client makes of a message while it waits for something.
pub enum Wait<T> {
    /// It is what the client waits for.
    Done(T),
    /// It comes before what the client waits for.
    Continue,
}

/// What the client waits for.
#[derive(Debug, Clone, Copy, PartialEq, Eq, Structural)]
pub enum Awaited {
    /// A statement to be parsed.
    ParseComplete,
    /// The columns of a statement.
    RowDescription,
    /// The rows of a statement that runs.
    Rows,
    /// The server to be ready.
    Ready,
}

/// The columns of a statement's result.
#[derive(Debug)]
pub struct Metadata {
    pub col_names: Vec<String>,
    pub col_types: Vec<Type>,
}

pub struct MetadataView {
    pub col_names: Seq<Seq<char>>,
    pub col_types: Seq<Type>,
}

impl View for Metadata {
    type V = MetadataView;

    open spec fn view(&self) -> MetadataView {
        MetadataView { col_names: texts(self.col_names@), col_types: self.col_types@ }
    }
}

impl Metadata {
    /// No columns.
    pub fn new() -> (metadata: Metadata)
        ensures
            metadata@ == no_columns(),
            metadata.col_names@.len() == 0,
            metadata.col_types@.len() == 0,
    {
        let metadata = Metadata { col_names: Vec::new(), col_types: Vec::new() };
        assert(metadata@.col_names =~= Seq::empty());
        metadata
    }
}

pub open spec fn no_columns() -> MetadataView {
    MetadataView { col_names: Seq::empty(), col_types: Seq::empty() }
}

/// The built-in type with this object identifier, if there is one.
pub uninterp spec fn builtin_type(oid: u32) -> Option<Type>;

/// `Type::from_oid`.
pub assume_specification[ Type::from_oid ](oid: postgres_types::Oid) -> (r: Option<Type>)
    ensures
        r == builtin_type(oid),
;

/// The columns that a row description describes, if all have built-in types.
pub open spec fn described(fields: Seq<FieldView>) -> Option<MetadataView> {
    if forall|i: int| 0 <= i < fields.len() ==> builtin_type(#[trigger] fields[i].type_oid) is Some {
        Some(
            MetadataView {
                col_names: fields.map_values(|f: FieldView| f.name),
                col_types: fields.map_values(|f: FieldView| builtin_type(f.type_oid)->0),
            },
        )
    } else {
        None
    }
}

/// The columns that a row description describes, if all have built-in types.
pub fn describe_columns(fields: Vec<Field>) -> (r: Option<Metadata>)
    ensures
        match r {
            Some(metadata) => described(columns(fields@)) == Some(metadata@),
            None => described(columns(fields@)) is None,
        },
        r is Some <==> forall|i: int|
            0 <= i < fields@.len() ==> builtin_type((#[trigger] fields@[i]).type_oid) is Some,
        r matches Some(metadata) ==> are_the_columns(fields@, metadata),
{
    let mut metadata = Metadata::new();
    let ghost all = columns(fields@);
    for field in it: fields
        invariant
            it.seq() == fields@,
            all == columns(fields@),
            forall|i: int|
                0 <= i < it.index() ==> builtin_type(#[trigger] all[i].type_oid) is Some,
            metadata@.col_names =~= all.take(it.index()).map_values(|f: FieldView| f.name),
            metadata@.col_types =~= all.take(it.index()).map_values(
                |f: FieldView| builtin_type(f.type_oid)->0,
            ),
    {
        assert(all[it.index()] == field@);
        let ghost before = texts(metadata.col_names@);
        metadata.col_names.push(field.name);
        assert(texts(metadata.col_names@) =~= before.push(field@.name));
        match Type::from_oid(field.type_oid) {
            Some(ty) => metadata.col_types.push(ty),
            None => {
                assert(builtin_type(all[it.index()].type_oid) is None);
                assert(builtin_type(fields@[it.index()].type_oid) is None);
                return None;
            },
        }
    }
    assert(all.take(all.len() as int) =~= all);
    proof {
        lemma_columns_one_for_one(fields@, metadata);
    }
    Some(metadata)
}

/// There are as many names and as many types as fields, and each is that of the
/// field at its place.
pub open spec fn are_the_columns(fields: Seq<Field>, metadata: Metadata) -> bool {
    &&& metadata.col_names@.len() == fields.len()
    &&& metadata.col_types@.len() == fields.len()
    &&& forall|i: int|
        0 <= i < fields.len() ==> (#[trigger] metadata.col_names@[i])@ == fields[i].name@
    &&& forall|i: int|
        0 <= i < fields.len() ==> Some(#[trigger] metadata.col_types@[i]) == builtin_type(
            fields[i].type_oid,
        )
}

proof fn lemma_columns_one_for_one(fields: Seq<Field>, metadata: Metadata)
    requires
        described(columns(fields)) == Some(metadata@),
    ensures
        are_the_columns(fields, metadata),
        forall|i: int|
            0 <= i < fields.len() ==> builtin_type((#[trigger] fields[i]).type_oid) is Some,
{
    let read = columns(fields);
    let names = texts(metadata.col_names@);
    assert(names == read.map_values(|f: FieldView| f.name));
    assert forall|i: int| 0 <= i < fields.len() implies builtin_type(
        (#[trigger] fields[i]).type_oid,
    ) is Some by {
        assert(builtin_type(read[i].type_oid) is Some);
    }
    assert forall|i: int| 0 <= i < fields.len() implies (#[trigger] metadata.col_names@[i])@
        == fields[i].name@ by {
        assert(names[i] == metadata.col_names@[i]@);
        assert(names[i] == read[i].name);
    }
    assert forall|i: int| 0 <= i < fields.len() implies Some(#[trigger] metadata.col_types@[i])
        == builtin_type(fields[i].type_oid) by {
        assert(builtin_type(read[i].type_oid) is Some);
    }
}

/// Whether all columns have built-in types.
fn all_built_in(fields: &Vec<Field>) -> (all: bool)
    ensures
        all == (described(columns(fields@)) is Some),
{
    let ghost read = columns(fields@);
    let mut i: usize = 0;
    while i < fields.len()
        invariant
            i <= fields.len(),
            read == columns(fields@),
            forall|j: int| 0 <= j < i ==> builtin_type(#[trigger] read[j].type_oid) is Some,
        decreases fields.len() - i,
    {
        assert(read[i as int].type_oid == fields@[i as int].type_oid);
        if Type::from_oid(fields[i].type_oid).is_none() {
            return false;
        }
        i = i + 1;
    }
    true
}

/// Whether a message has a place where the client waits for something.
pub open spec fn has_place(awaited: Awaited, msg: MessageView) -> bool {
    match awaited {
        Awaited::ParseComplete => msg == MessageView::Signal(Signal::ParseComplete),
        Awaited::RowDescription => match msg {
            MessageView::RowDescription(Ok(fields)) => described(fields) is Some,
            MessageView::Signal(Signal::NoData) => true,
            MessageView::Signal(Signal::ParameterDescription) => true,
            _ => false,
        },
        Awaited::Rows => msg is DataRow || msg == MessageView::Signal(Signal::ReadyForQuery),
        Awaited::Ready => msg == MessageView::Signal(Signal::ReadyForQuery),
    }
}

/// Whether a reply has a place where the client waits for something: every error
/// has.
pub open spec fn fits(awaited: Awaited, reply: Result<Message, ReceiveError>) -> bool {
    reply matches Ok(msg) ==> has_place(awaited, msg@)
}

impl Awaited {
    /// Whether a message has a place where the client waits for this.
    pub fn takes(self, msg: &Message) -> (takes: bool)
        ensures
            takes == has_place(self, msg@),
    {
        match self {
            Awaited::ParseComplete => matches!(msg, Message::Signal(Signal::ParseComplete)),
            Awaited::RowDescription => match msg {
                Message::RowDescription(Ok(fields)) => all_built_in(fields),
                Message::Signal(Signal::NoData) => true,
                Message::Signal(Signal::ParameterDescription) => true,
                _ => false,
            },
            Awaited::Rows => match msg {
                Message::DataRow(_) => true,
                Message::Signal(Signal::ReadyForQuery) => true,
                _ => false,
            },
            Awaited::Ready => matches!(msg, Message::Signal(Signal::ReadyForQuery)),
        }
    }
}

/// What comes of a message that has a place where the client waits for the columns
/// of a statement.
pub open spec fn columns_awaited(msg: MessageView) -> Wait<MetadataView>
    recommends
        has_place(Awaited::RowDescription, msg),
{
    match msg {
        MessageView::RowDescription(Ok(fields)) => Wait::Done(described(fields)->0),
        MessageView::Signal(Signal::NoData) => Wait::Done(no_columns()),
        _ => Wait::Continue,
    }
}

/// What comes of a message that has a place where the client waits for rows.
pub open spec fn rows_awaited(msg: MessageView) -> Wait<()>
    recommends
        has_place(Awaited::Rows, msg),
{
    match msg {
        MessageView::DataRow(_) => Wait::Continue,
        _ => Wait::Done(()),
    }
}

/// The rows so far, with the one that a message brings.
pub open spec fn rows_after(rows: Seq<DataRowBody>, msg: MessageView) -> Seq<DataRowBody> {
    match msg {
        MessageView::DataRow(row) => rows.push(row),
        _ => rows,
    }
}

impl Connection {
    /// Takes a reply where the client waits for a statement to be parsed.
    pub fn wait_until_parse_complete(reply: Result<Message, ReceiveError>) -> (r: Result<
        (),
        ReceiveError,
    >)
        requires
            fits(Awaited::ParseComplete, reply),
        ensures
            r is Ok <==> (reply matches Ok(msg) && msg@ == MessageView::Signal(
                Signal::ParseComplete,
            )),
            reply matches Err(error) ==> r == Err::<(), _>(error),
    {
        match reply {
            Ok(_) => Ok(()),
            Err(error) => Err(error),
        }
    }

    /// Takes a reply where the client waits for the columns of a statement.
    pub fn wait_until_row_description(reply: Result<Message, ReceiveError>) -> (r: Result<
        Wait<Metadata>,
        ReceiveError,
    >)
        requires
            fits(Awaited::RowDescription, reply),
        ensures
            match reply {
                Ok(msg) => match columns_awaited(msg@) {
                    Wait::Done(metadata) => r matches Ok(Wait::Done(m)) && m@ == metadata,
                    Wait::Continue => r matches Ok(Wait::Continue),
                },
                Err(error) => r == Err::<Wait<Metadata>, _>(error),
            },
            reply matches Ok(Message::RowDescription(Ok(fields))) ==> (r matches Ok(
                Wait::Done(metadata),
            ) && are_the_columns(fields@, metadata)),
            reply matches Ok(Message::Signal(Signal::NoData)) ==> (r matches Ok(
                Wait::Done(metadata),
            ) && metadata.col_names@.len() == 0 && metadata.col_types@.len() == 0),
            reply matches Ok(Message::Signal(Signal::ParameterDescription)) ==> r matches Ok(
                Wait::Continue,
            ),
    {
        match reply {
            Ok(Message::RowDescription(Ok(fields))) => Ok(
                Wait::Done(describe_columns(fields).unwrap()),
            ),
            Ok(Message::Signal(Signal::NoData)) => Ok(Wait::Done(Metadata::new())),
            Ok(_) => Ok(Wait::Continue),
            Err(error) => Err(error),
        }
    }

    /// Takes a reply where the client waits for rows, and puts a row behind those
    /// that came before it.
    pub fn receive_rows(
        rows: &mut VecDeque<DataRowBody>,
        reply: Result<Message, ReceiveError>,
    ) -> (r: Result<Wait<()>, ReceiveError>)
        requires
            fits(Awaited::Rows, reply),
        ensures
            match reply {
                Ok(msg) => {
                    &&& r == Ok::<_, ReceiveError>(rows_awaited(msg@))
                    &&& final(rows)@ == rows_after(old(rows)@, msg@)
                },
                Err(error) => r == Err::<Wait<()>, _>(error) && final(rows)@ == old(rows)@,
            },
            reply matches Ok(Message::DataRow(row)) ==> (r matches Ok(Wait::Continue)
                && final(rows)@ == old(rows)@.push(row)),
            reply matches Ok(Message::Signal(Signal::ReadyForQuery)) ==> (r matches Ok(
                Wait::Done(()),
            ) && final(rows)@ == old(rows)@),
    {
        match reply {
            Ok(Message::DataRow(row)) => {
                rows.push_back(row);
                Ok(Wait::Continue)
            },
            Ok(_) => Ok(Wait::Done(())),
            Err(error) => Err(error),
        }
    }

    /// Takes a reply where the client waits for the server to be ready.
    pub fn wait_until_ready_for_query(reply: Result<Message, ReceiveError>) -> (r: Result<
        (),
        ReceiveError,
    >)
        requires
            fits(Awaited::Ready, reply),
        ensures
            r is Ok <==> (reply matches Ok(msg) && msg@ == MessageView::Signal(
                Signal::ReadyForQuery,
            )),
            reply matches Err(error) ==> r == Err::<(), _>(error),
    {
        match reply {
            Ok(_) => Ok(()),
            Err(error) => Err(error),
        }
    }
}

/// What the client waits for while a statement is prepared.
#[derive(Debug, Clone, Copy, PartialEq, Eq, Structural)]
pub enum Preparing {
    /// The statement to be parsed.
    Parsing,
    /// The columns of its result.
    Describing,
}

/// What a message asks of a client that prepares a statement.
pub enum PrepareStep {
    /// Send these bytes, then wait for the next message.
    Send(Vec<u8>, Preparing),
    /// Wait for the next message.
    Wait(Preparing),
    /// Nothing: these are the columns of the result.
    Done(Metadata),
}

pub enum PrepareStepView {
    Send(Seq<u8>, Preparing),
    Wait(Preparing),
    Done(MetadataView),
}

impl View for PrepareStep {
    type V = PrepareStepView;

    open spec fn view(&self) -> PrepareStepView {
        match *self {
            PrepareStep::Send(bytes, next) => PrepareStepView::Send(bytes@, next),
            PrepareStep::Wait(next) => PrepareStepView::Wait(next),
            PrepareStep::Done(metadata) => PrepareStepView::Done(metadata@),
        }
    }
}

/// What the client waits for in each state.
pub open spec fn awaited_in(state: Preparing) -> Awaited {
    match state {
        Preparing::Parsing => Awaited::ParseComplete,
        Preparing::Describing => Awaited::RowDescription,
    }
}

/// What a message that has a place asks of a client that prepares a statement.
pub open spec fn prepare_step(state: Preparing, msg: MessageView) -> PrepareStepView
    recommends
        has_place(awaited_in(state), msg),
{
    match state {
        Preparing::Parsing => PrepareStepView::Send(
            describe_request() + flush_request(),
            Preparing::Describing,
        ),
        Preparing::Describing => match columns_awaited(msg) {
            Wait::Done(metadata) => PrepareStepView::Done(metadata),
            Wait::Continue => PrepareStepView::Wait(Preparing::Describing),
        },
    }
}

/// What a reply that has a place comes to: what the message asks for, or the error.
pub open spec fn prepare_outcome(
    state: Preparing,
    reply: Result<Message, ReceiveError>,
    r: Result<PrepareStep, ReceiveError>,
) -> bool {
    match reply {
        Ok(msg) => r matches Ok(step) && step@ == prepare_step(state, msg@),
        Err(error) => r == Err::<PrepareStep, _>(error),
    }
}

impl Connection {
    /// What to send to have a statement prepared, and what to wait for then.
    pub fn prepare_stmt(sql: &str) -> (r: Result<(Vec<u8>, Preparing), io::Error>)
        ensures
            match r {
                Ok((bytes, next)) => {
                    &&& can_parse(sql@)
                    &&& bytes@ == parse_request(sql@) + flush_request()
                    &&& next == Preparing::Parsing
                },
                Err(error) => !can_parse(sql@) && error == parse_flaw(""@, sql@, Seq::empty()),
            },
    {
        match Connection::send_parse(sql) {
            Ok(mut bytes) => {
                bytes.append(&mut Connection::send_flush());
                Ok((bytes, Preparing::Parsing))
            },
            Err(error) => Err(error),
        }
    }
}

impl Preparing {
    /// What the client waits for.
    pub fn awaits(self) -> (awaited: Awaited)
        ensures
            awaited == awaited_in(self),
    {
        match self {
            Preparing::Parsing => Awaited::ParseComplete,
            Preparing::Describing => Awaited::RowDescription,
        }
    }

    /// Takes the next reply of the server.
    pub fn step(self, reply: Result<Message, ReceiveError>) -> (r: Result<
        PrepareStep,
        ReceiveError,
    >)
        requires
            fits(awaited_in(self), reply),
        ensures
            prepare_outcome(self, reply, r),
    {
        match self {
            Preparing::Parsing => match Connection::wait_until_parse_complete(reply) {
                Ok(()) => {
                    let mut bytes = Connection::send_describe();
                    bytes.append(&mut Connection::send_flush());
                    Ok(PrepareStep::Send(bytes, Preparing::Describing))
                },
                Err(error) => Err(error),
            },
            Preparing::Describing => match Connection::wait_until_row_description(reply) {
                Ok(Wait::Done(metadata)) => Ok(PrepareStep::Done(metadata)),
                Ok(Wait::Continue) => Ok(PrepareStep::Wait(Preparing::Describing)),
                Err(error) => Err(error),
            },
        }
    }

    /// `step`, if the reply has a place.
    pub fn checked_step(self, reply: Result<Message, ReceiveError>) -> (r: Option<
        Result<PrepareStep, ReceiveError>,
    >)
        ensures
            match r {
                Some(outcome) => fits(awaited_in(self), reply) && prepare_outcome(
                    self,
                    reply,
                    outcome,
                ),
                None => !fits(awaited_in(self), reply),
            },
    {
        if let Ok(msg) = &reply {
            if !self.awaits().takes(msg) {
                return None;
            }
        }
        Some(self.step(reply))
    }
}

/// What becomes of a statement that is prepared with these messages: what the
/// client sends on the way, and the columns that come out, if it gets there.
pub open spec fn prepared(state: Preparing, msgs: Seq<MessageView>) -> Option<
    (Seq<u8>, MetadataView),
>
    decreases msgs.len(),
{
    if msgs.len() == 0 || !has_place(awaited_in(state), msgs[0]) {
        None
    } else {
        match prepare_step(state, msgs[0]) {
            PrepareStepView::Send(bytes, next) => match prepared(next, msgs.drop_first()) {
                Some((sent, metadata)) => Some((bytes + sent, metadata)),
                None => None,
            },
            PrepareStepView::Wait(next) => prepared(next, msgs.drop_first()),
            PrepareStepView::Done(metadata) => Some((Seq::empty(), metadata)),
        }
    }
}

/// Whatever number of parameter descriptions comes first, the message behind
/// them decides.
proof fn lemma_parameter_descriptions_pass(count: nat, last: MessageView)
    ensures
        prepared(
            Preparing::Describing,
            Seq::new(count, |i: int| MessageView::Signal(Signal::ParameterDescription)).push(last),
        ) == prepared(Preparing::Describing, seq![last]),
    decreases count,
{
    let skipped = MessageView::Signal(Signal::ParameterDescription);
    let msgs = Seq::new(count, |i: int| skipped).push(last);
    if count == 0 {
        assert(msgs =~= seq![last]);
    } else {
        let rest = Seq::new((count - 1) as nat, |i: int| skipped).push(last);
        assert(msgs.drop_first() =~= rest);
        lemma_parameter_descriptions_pass((count - 1) as nat, last);
    }
}

/// A server that parses a statement and describes its columns leaves the client
/// with those columns, whatever number of parameter descriptions it sends. On
/// the way the client asks for the columns, once.
pub proof fn law_preparation_yields_the_columns(
    parameter_descriptions: nat,
    fields: Seq<FieldView>,
    metadata: MetadataView,
)
    requires
        described(fields) == Some(metadata),
    ensures
        prepared(
            Preparing::Parsing,
            seq![MessageView::Signal(Signal::ParseComplete)] + Seq::new(
                parameter_descriptions,
                |i: int| MessageView::Signal(Signal::ParameterDescription),
            ).push(MessageView::RowDescription(Ok(fields))),
        ) == Some((describe_request() + flush_request(), metadata)),
{
    let last = MessageView::RowDescription(Ok(fields));
    lemma_preparation(parameter_descriptions, last, metadata);
}

/// A server that parses a statement without a result leaves the client with no
/// columns.
pub proof fn law_statement_without_result_has_no_columns(parameter_descriptions: nat)
    ensures
        prepared(
            Preparing::Parsing,
            seq![MessageView::Signal(Signal::ParseComplete)] + Seq::new(
                parameter_descriptions,
                |i: int| MessageView::Signal(Signal::ParameterDescription),
            ).push(MessageView::Signal(Signal::NoData)),
        ) == Some((describe_request() + flush_request(), no_columns())),
{
    lemma_preparation(
        parameter_descriptions,
        MessageView::Signal(Signal::NoData),
        no_columns(),
    );
}

proof fn lemma_preparation(count: nat, last: MessageView, metadata: MetadataView)
    requires
        has_place(Awaited::RowDescription, last),
        columns_awaited(last) == Wait::Done(metadata),
    ensures
        prepared(
            Preparing::Parsing,
            seq![MessageView::Signal(Signal::ParseComplete)] + Seq::new(
                count,
                |i: int| MessageView::Signal(Signal::ParameterDescription),
            ).push(last),
        ) == Some((describe_request() + flush_request(), metadata)),
{
    let rest = Seq::new(count, |i: int| MessageView::Signal(Signal::ParameterDescription)).push(
        last,
    );
    let msgs = seq![MessageView::Signal(Signal::ParseComplete)] + rest;
    assert(msgs.drop_first() =~= rest);
    lemma_parameter_descriptions_pass(count, last);
    assert(prepared(Preparing::Describing, seq![last]) == Some((Seq::<u8>::empty(), metadata)));
    assert(describe_request() + flush_request() + Seq::<u8>::empty() =~= describe_request()
        + flush_request());
}

/// The rows that messages bring until the server is ready, if it gets there.
pub open spec fn rows_received(rows: Seq<DataRowBody>, msgs: Seq<MessageView>) -> Option<
    Seq<DataRowBody>,
>
    decreases msgs.len(),
{
    if msgs.len() == 0 || !has_place(Awaited::Rows, msgs[0]) {
        None
    } else {
        match rows_awaited(msgs[0]) {
            Wait::Done(()) => Some(rows),
            Wait::Continue => rows_received(rows_after(rows, msgs[0]), msgs.drop_first()),
        }
    }
}

/// The rows that the server sends before it is ready are the rows that the
/// client ends up with, in the order they were sent in. What comes later does
/// not matter.
pub proof fn law_rows_arrive_in_order(
    before: Seq<DataRowBody>,
    sent: Seq<DataRowBody>,
    later: Seq<MessageView>,
)
    ensures
        rows_received(
            before,
            sent.map_values(|row: DataRowBody| MessageView::DataRow(row)).push(
                MessageView::Signal(Signal::ReadyForQuery),
            ) + later,
        ) == Some(before + sent),
    decreases sent.len(),
{
    let msgs = sent.map_values(|row: DataRowBody| MessageView::DataRow(row)).push(
        MessageView::Signal(Signal::ReadyForQuery),
    ) + later;
    if sent.len() == 0 {
        assert(before + sent =~= before);
    } else {
        let rest = sent.drop_first();
        assert(msgs.drop_first() =~= rest.map_values(
            |row: DataRowBody| MessageView::DataRow(row),
        ).push(MessageView::Signal(Signal::ReadyForQuery)) + later);
        assert(msgs[0] == MessageView::DataRow(sent[0]));
        law_rows_arrive_in_order(before.push(sent[0]), rest, later);
        assert(before.push(sent[0]) + rest =~= before + sent);
    }
}

/// The frames of rows, one behind the other.
pub open spec fn row_frames(bodies: Seq<Seq<u8>>) -> Seq<u8> {
    bodies.map_values(|body: Seq<u8>| framed(0x44, body)).flatten()
}

proof fn lemma_row_frames(bodies: Seq<Seq<u8>>, end: Seq<u8>)
    requires
        forall|i: int|
            0 <= i < bodies.len() ==> (#[trigger] bodies[i]).len() >= 2 && sizable(bodies[i]),
    ensures
        messages(row_frames(bodies) + end) == bodies.map_values(
            |body: Seq<u8>| MessageView::DataRow(row_in(body)),
        ) + messages(end),
    decreases bodies.len(),
{
    let frames = bodies.map_values(|body: Seq<u8>| framed(0x44, body));
    let rows = bodies.map_values(|body: Seq<u8>| MessageView::DataRow(row_in(body)));
    if bodies.len() == 0 {
        assert(row_frames(bodies) + end =~= end);
        assert(rows + messages(end) =~= messages(end));
    } else {
        let rest = bodies.drop_first();
        assert forall|i: int| 0 <= i < rest.len() implies (#[trigger] rest[i]).len() >= 2
            && sizable(rest[i]) by {
            assert(rest[i] == bodies[i + 1]);
        }
        lemma_row_frames(rest, end);
        let later = row_frames(rest) + end;
        assert(frames.drop_first() =~= rest.map_values(|body: Seq<u8>| framed(0x44, body)));
        assert(row_frames(bodies) + end =~= framed(0x44, bodies[0]) + later);
        law_row_arrives(bodies[0], later);
        law_one_message_at_a_time(
            row_frames(bodies) + end,
            MessageView::DataRow(row_in(bodies[0])),
            later,
        );
        assert(rows =~= seq![rows[0]] + rest.map_values(
            |body: Seq<u8>| MessageView::DataRow(row_in(body)),
        ));
        assert(messages(row_frames(bodies) + end) =~= rows + messages(end));
    }
}

/// Byte for byte: the frames of rows that the server sends before it is ready give
/// the client those rows, in their order, however the bytes were cut into reads.
pub proof fn law_row_frames_are_received(bodies: Seq<Seq<u8>>, status: u8)
    requires
        forall|i: int|
            0 <= i < bodies.len() ==> (#[trigger] bodies[i]).len() >= 2 && sizable(bodies[i]),
    ensures
        rows_received(
            Seq::empty(),
            messages(row_frames(bodies) + framed(0x5a, seq![status])),
        ) == Some(bodies.map_values(|body: Seq<u8>| row_in(body))),
{
    let ready = MessageView::Signal(Signal::ReadyForQuery);
    let end = framed(0x5a, seq![status]);
    let rows = bodies.map_values(|body: Seq<u8>| row_in(body));
    lemma_row_frames(bodies, end);
    law_admission_and_readiness_arrive(status, Seq::empty());
    assert(end + Seq::<u8>::empty() =~= end);
    law_one_message_at_a_time(end, ready, Seq::empty());
    assert(messages(Seq::empty()) =~= seq![]);
    law_rows_arrive_in_order(Seq::empty(), rows, Seq::empty());
    assert(messages(row_frames(bodies) + end) =~= rows.map_values(
        |row: DataRowBody| MessageView::DataRow(row),
    ).push(ready) + Seq::empty());
    assert(Seq::<DataRowBody>::empty() + rows =~= rows);
}

/// An error that the server reports never passes for a message.
pub proof fn law_reported_errors_are_errors(msg: MessageView)
    ensures
        msg is ErrorResponse <==> accepted(msg) is Err,
{
}

/// An error that the server sends is reported with the values of its fields, in
/// their order.
pub proof fn law_server_error_is_reported(fields: Seq<ErrorField>, later: Seq<u8>)
    requires
        can_be_reported(fields),
        sizable(error_fields_written(fields)),
    ensures
        ({
            let frame = framed(0x45, error_fields_written(fields));
            let values = fields.map_values(|f: ErrorField| f.value);
            &&& arrival(frame + later) matches Arrival::Arrived(msg, rest)
            &&& rest == later
            &&& accepted(msg) == Err::<MessageView, _>(
                ReceiveErrorView::Server(error_text(values)),
            )
        }),
{
    law_error_arrives(fields, later);
}

/// A database that statements run on, behind a handle to its connection.
pub struct Database<C> {
    pub conn: C,
}

impl<C> Database<C> {
    /// The database behind a connection.
    pub fn new(conn: C) -> (database: Database<C>)
        ensures
            database.conn == conn,
    {
        Database { conn }
    }
}

/// A shared handle to a database.
pub struct sqlite3<C> {
    pub inner: Rc<Database<C>>,
}

impl<C> sqlite3<C> {
    /// A handle to the database behind a connection that is set up.
    pub fn connect(conn: C) -> (handle: sqlite3<C>)
        ensures
            handle.inner.conn == conn,
    {
        sqlite3 { inner: Rc::new(Database::new(conn)) }
    }
}

/// How far a statement has come.
#[derive(Debug, Clone, Copy, PartialEq, Eq, Structural)]
pub enum StatementState {
    Prepared,
    Rows,
    Done,
}

/// A prepared statement.
pub struct Statement<C> {
    pub db: sqlite3<C>,
    pub sql: String,
    pub state: StatementState,
    pub metadata: Metadata,
    pub bound_params: Vec<BoundParam>,
    pub current_row: Option<(DataRowBody, Vec<Option<Range<usize>>>)>,
    pub rows: VecDeque<DataRowBody>,
}

impl<C> Statement<C> {
    /// A statement that was just prepared: nothing is bound and no row is there.
    pub fn new(parent: Rc<Database<C>>, sql: String, metadata: Metadata) -> (stmt: Statement<C>)
        ensures
            stmt.db.inner == parent,
            stmt.sql == sql,
            stmt.state == StatementState::Prepared,
            stmt.metadata == metadata,
            stmt.bound_params@ == Seq::<BoundParam>::empty(),
            stmt.current_row is None,
            stmt.rows@ == Seq::<DataRowBody>::empty(),
    {
        Statement {
            db: sqlite3 { inner: parent },
            sql,
            state: StatementState::Prepared,
            metadata,
            bound_params: Vec::new(),
            current_row: None,
            rows: VecDeque::new(),
        }
    }

    /// The database that the statement runs on.
    pub fn parent_db(&self) -> (db: &Rc<Database<C>>)
        ensures
            *db == self.db.inner,
    {
        &self.db.inner
    }
}

/// A connection is for whom the URL names, with nothing received yet, and goes where
/// the URL says. A URL says where only if it names a host and a port.
pub proof fn law_connection_is_what_the_url_says(
    conn: Connection,
    to: Endpoint,
    parts: UrlPartsView,
)
    ensures
        is_for((conn, to), parts) <==> {
            &&& conn@.username == parts.username
            &&& conn@.password == parts.password
            &&& conn@.received.len() == 0
            &&& parts.host == Some(to.host@)
            &&& parts.port == Some(to.port)
        },
        names_endpoint(parts) <==> parts.host is Some && parts.port is Some,
{
    if conn@.received.len() == 0 {
        assert(conn@.received =~= Seq::empty());
    }
}

/// The startup message: its length, protocol version 3.0, the key `user`, the name,
/// each ended by a zero byte, and one more zero byte. It can be sent unless the name
/// holds a zero byte or is too long.
pub proof fn law_startup_message_is_spelled(username: Seq<char>)
    ensures
        encode_utf8(username).len() + 15 <= 0x7fff_ffff ==> startup_request(username)
            == spelled(encode_utf8(username).len() + 15) + seq![
            0u8,
            3,
            0,
            0,
            0x75,
            0x73,
            0x65,
            0x72,
            0,
        ] + encode_utf8(username) + seq![0u8, 0],
        can_start_up(username) <==> !encode_utf8(username).contains(0) && encode_utf8(
            username,
        ).len() + 15 <= 0x7fff_ffff,
{
    let body = startup_body("user"@, username);
    lemma_user();
    law_numbers_are_spelled(0x3_0000);
    assert(be32(0x3_0000) =~= seq![0u8, 3, 0, 0]);
    assert(body =~= seq![0u8, 3, 0, 0, 0x75, 0x73, 0x65, 0x72, 0] + encode_utf8(username)
        + seq![0u8, 0]);
    if sizable(body) {
        law_frame_is_spelled(0, body);
        assert(startup_request(username) =~= spelled(encode_utf8(username).len() + 15) + seq![
            0u8,
            3,
            0,
            0,
            0x75,
            0x73,
            0x65,
            0x72,
            0,
        ] + encode_utf8(username) + seq![0u8, 0]);
    }
}

proof fn lemma_user()
    ensures
        encode_utf8("user"@) == seq![0x75u8, 0x73, 0x65, 0x72],
{
    reveal_strlit("user");
    is_ascii_chars_encode_utf8("user"@);
    assert(encode_utf8("user"@) =~= seq![0x75u8, 0x73, 0x65, 0x72]);
}

/// The startup message gives the name as the value of the key `user`: behind the
/// length and the version stand that key, then the name, as strings.
pub proof fn law_startup_names_the_user(username: Seq<char>)
    requires
        can_start_up(username),
    ensures
        leading_text(startup_request(username).skip(8)) matches Some((key, rest)) && key
            == seq!['u', 's', 'e', 'r'] && leading_text(rest) == Some((username, seq![0u8])),
{
    law_startup_message_is_spelled(username);
    reveal_strlit("user");
    lemma_user();
    assert("user"@ =~= seq!['u', 's', 'e', 'r']);
    let rest = cstr(username) + seq![0u8];
    assert(startup_request(username).skip(8) =~= cstr("user"@) + rest);
    law_text_read_back("user"@, rest);
    law_text_read_back(username, seq![0u8]);
}

/// The parse message: the unnamed statement, its text, and no types. It can be sent
/// unless the text holds a zero byte or is too long.
pub proof fn law_parse_message_is_spelled(sql: Seq<char>)
    ensures
        encode_utf8(sql).len() + 8 <= 0x7fff_ffff ==> parse_request(sql) == seq![0x50u8] + spelled(
            encode_utf8(sql).len() + 8,
        ) + seq![0u8] + encode_utf8(sql) + seq![0u8, 0, 0],
        can_parse(sql) <==> !encode_utf8(sql).contains(0) && encode_utf8(sql).len() + 8
            <= 0x7fff_ffff,
{
    let body = parse_body(""@, sql, Seq::empty());
    lemma_unnamed();
    assert(Seq::<u32>::empty().map_values(|i: u32| be32(i as int)) =~= Seq::empty());
    assert(counted32(Seq::empty()) =~= seq![0u8, 0]);
    assert(body =~= seq![0u8] + encode_utf8(sql) + seq![0u8, 0, 0]);
    if sizable(body) {
        law_frame_is_spelled(0x50, body);
        assert(parse_request(sql) =~= seq![0x50u8] + spelled(encode_utf8(sql).len() + 8)
            + seq![0u8] + encode_utf8(sql) + seq![0u8, 0, 0]);
    }
}

/// The messages that are always the same, byte for byte.
pub proof fn law_fixed_messages_are_spelled()
    ensures
        describe_request() == seq![0x44u8, 0, 0, 0, 6, 0x53, 0],
        execute_request() == seq![0x45u8, 0, 0, 0, 9, 0, 0, 0, 0, 0],
        flush_request() == seq![0x48u8, 0, 0, 0, 4],
        sync_request() == seq![0x53u8, 0, 0, 0, 4],
{
    lemma_unnamed();
    assert(describe_body(0x53, ""@) =~= seq![0x53u8, 0]);
    assert(execute_body(""@, 0) =~= seq![0u8, 0, 0, 0, 0]);
    law_frame_is_spelled(0x44, seq![0x53u8, 0]);
    law_frame_is_spelled(0x45, seq![0u8, 0, 0, 0, 0]);
    law_frame_is_spelled(0x48, Seq::empty());
    law_frame_is_spelled(0x53, Seq::empty());
    assert(describe_request() =~= seq![0x44u8, 0, 0, 0, 6, 0x53, 0]);
    assert(execute_request() =~= seq![0x45u8, 0, 0, 0, 9, 0, 0, 0, 0, 0]);
    assert(flush_request() =~= seq![0x48u8, 0, 0, 0, 4]);
    assert(sync_request() =~= seq![0x53u8, 0, 0, 0, 4]);
}

/// What an encoder hands back is the message if and only if it can be sent.
pub proof fn law_encoder_hands_back_the_message(
    r: Result<Vec<u8>, io::Error>,
    sendable: bool,
    bytes: Seq<u8>,
    flaw: io::Error,
)
    requires
        encodes(r, sendable, bytes, flaw),
    ensures
        sendable ==> (r matches Ok(message) && message@ == bytes),
        !sendable ==> r == Err::<Vec<u8>, _>(flaw),
{
}

/// A row description whose types are all built in gives as many names and as many
/// types as it has fields, each that of the field at its place. With another type
/// in it there are none.
pub proof fn law_every_column_is_described(fields: Seq<FieldView>)
    ensures
        described(fields) is Some <==> forall|i: int|
            0 <= i < fields.len() ==> builtin_type((#[trigger] fields[i]).type_oid) is Some,
        described(fields) matches Some(metadata) ==> {
            &&& metadata.col_names.len() == fields.len()
            &&& metadata.col_types.len() == fields.len()
            &&& forall|i: int|
                0 <= i < fields.len() ==> #[trigger] metadata.col_names[i] == fields[i].name
            &&& forall|i: int|
                0 <= i < fields.len() ==> Some(#[trigger] metadata.col_types[i]) == builtin_type(
                    fields[i].type_oid,
                )
        },
{
    if described(fields) is Some {
        assert forall|i: int| 0 <= i < fields.len() implies builtin_type(
            (#[trigger] fields[i]).type_oid,
        ) is Some by {
            assert(builtin_type(fields[i].type_oid) is Some);
        }
    } else {
        let i = choose|i: int|
            0 <= i < fields.len() && builtin_type(#[trigger] fields[i].type_oid) is None;
        assert(fields[i] == fields[i]);
    }
}

/// From the server's bytes to the client's columns: what a server describes, with
/// types that are all built in, has a place where columns are awaited, and gives
/// each column its name and its type, none left out.
pub proof fn law_columns_reach_the_client(written: Seq<Column>, later: Seq<u8>)
    requires
        written.len() <= 0xffff,
        can_be_described(written),
        sizable(be16(written.len() as int) + columns_written(written)),
        forall|i: int|
            0 <= i < written.len() ==> builtin_type((#[trigger] written[i]).field.type_oid) is Some,
    ensures
        arrival(
            framed(0x54, be16(written.len() as int) + columns_written(written)) + later,
        ) matches Arrival::Arrived(msg, rest) && rest == later && accepted(msg) == Ok::<
            _,
            ReceiveErrorView,
        >(msg) && has_place(Awaited::RowDescription, msg) && (columns_awaited(
            msg,
        ) matches Wait::Done(metadata) && metadata.col_names.len() == written.len()
            && metadata.col_types.len() == written.len() && (forall|i: int|
            0 <= i < written.len() ==> (#[trigger] written[i]).field.name == metadata.col_names[i]
                && builtin_type(written[i].field.type_oid) == Some(metadata.col_types[i]))),
{
    law_columns_arrive(written, later);
    let fields = written.map_values(|c: Column| c.field);
    assert forall|i: int| 0 <= i < fields.len() implies builtin_type(
        (#[trigger] fields[i]).type_oid,
    ) is Some by {
        assert(fields[i] == written[i].field);
    }
    law_every_column_is_described(fields);
    let metadata = described(fields)->0;
    assert forall|i: int| 0 <= i < written.len() implies (#[trigger] written[i]).field.name
        == metadata.col_names[i] && builtin_type(written[i].field.type_oid) == Some(
        metadata.col_types[i],
    ) by {
        assert(fields[i] == written[i].field);
        assert(metadata.col_names[i] == fields[i].name);
        assert(Some(metadata.col_types[i]) == builtin_type(fields[i].type_oid));
    }
}

/// Which messages have a place, for each thing that is awaited, and that every error
/// has one.
pub proof fn law_places_are_few(awaited: Awaited, msg: MessageView, reply: Result<Message, ReceiveError>)
    ensures
        has_place(Awaited::ParseComplete, msg) <==> msg == MessageView::Signal(
            Signal::ParseComplete,
        ),
        has_place(Awaited::Ready, msg) <==> msg == MessageView::Signal(Signal::ReadyForQuery),
        has_place(Awaited::Rows, msg) <==> msg is DataRow || msg == MessageView::Signal(
            Signal::ReadyForQuery,
        ),
        has_place(Awaited::RowDescription, msg) <==> {
            ||| msg == MessageView::Signal(Signal::NoData)
            ||| msg == MessageView::Signal(Signal::ParameterDescription)
            ||| msg matches MessageView::RowDescription(Ok(fields)) && forall|i: int|
                0 <= i < fields.len() ==> builtin_type((#[trigger] fields[i]).type_oid) is Some
        },
        fits(awaited, reply) <==> (reply matches Ok(m) ==> has_place(awaited, m@)),
        awaited_in(Preparing::Parsing) == Awaited::ParseComplete,
        awaited_in(Preparing::Describing) == Awaited::RowDescription,
{
    if let MessageView::RowDescription(Ok(fields)) = msg {
        law_every_column_is_described(fields);
    }
}

/// A statement without a result has no columns, parameter descriptions are passed
/// over, a row goes behind those before it, and readiness ends the rows.
pub proof fn law_replies_come_to_what_they_say(rows: Seq<DataRowBody>, row: DataRowBody)
    ensures
        columns_awaited(MessageView::Signal(Signal::NoData)) matches Wait::Done(metadata)
            && metadata.col_names.len() == 0 && metadata.col_types.len() == 0,
        columns_awaited(MessageView::Signal(Signal::ParameterDescription)) is Continue,
        rows_awaited(MessageView::DataRow(row)) is Continue,
        rows_after(rows, MessageView::DataRow(row)) == rows + seq![row],
        rows_awaited(MessageView::Signal(Signal::ReadyForQuery)) is Done,
        rows_after(rows, MessageView::Signal(Signal::ReadyForQuery)) == rows,
{
    assert(rows.push(row) =~= rows + seq![row]);
}

/// What each reply comes to while a statement is prepared: parsed, the client asks
/// for the columns with the bytes of a describe and a flush message; described, it
/// has all of them; without a result, it has none.
pub proof fn law_preparation_goes_step_by_step(
    state: Preparing,
    reply: Result<Message, ReceiveError>,
    r: Result<PrepareStep, ReceiveError>,
)
    requires
        fits(awaited_in(state), reply),
        prepare_outcome(state, reply, r),
    ensures
        reply matches Err(error) ==> r == Err::<PrepareStep, _>(error),
        reply matches Ok(msg) ==> r is Ok && match state {
            Preparing::Parsing => {
                &&& msg == Message::Signal(Signal::ParseComplete)
                &&& r matches Ok(PrepareStep::Send(bytes, next))
                &&& next == Preparing::Describing
                &&& bytes@ == seq![0x44u8, 0, 0, 0, 6, 0x53, 0, 0x48, 0, 0, 0, 4]
            },
            Preparing::Describing => match msg {
                Message::RowDescription(Ok(fields)) => {
                    &&& r matches Ok(PrepareStep::Done(metadata))
                    &&& are_the_columns(fields@, metadata)
                },
                Message::Signal(Signal::NoData) => {
                    &&& r matches Ok(PrepareStep::Done(metadata))
                    &&& metadata.col_names@.len() == 0 && metadata.col_types@.len() == 0
                },
                Message::Signal(Signal::ParameterDescription) => r matches Ok(
                    PrepareStep::Wait(Preparing::Describing),
                ),
                _ => false,
            },
        },
{
    law_fixed_messages_are_spelled();
    assert(seq![0x44u8, 0, 0, 0, 6, 0x53, 0] + seq![0x48u8, 0, 0, 0, 4] =~= seq![
        0x44u8,
        0,
        0,
        0,
        6,
        0x53,
        0,
        0x48,
        0,
        0,
        0,
        4,
    ]);
    if let Ok(msg) = reply {
        if state == Preparing::Describing {
            if let Message::RowDescription(Ok(fields)) = msg {
                if let Ok(PrepareStep::Done(metadata)) = r {
                    lemma_columns_one_for_one(fields@, metadata);
                }
            }
            if let Message::Signal(Signal::NoData) = msg {
                if let Ok(PrepareStep::Done(metadata)) = r {
                    assert(texts(metadata.col_names@).len() == metadata.col_names@.len());
                }
            }
        }
    }
}

/// An error of the server comes out in the words that go before the values of its
/// fields; one whose fields cannot be read is that error; and every other message
/// goes through as it is.
pub proof fn law_errors_are_told_in_words(msg: MessageView)
    ensures
        match msg {
            MessageView::ErrorResponse(Ok(values)) => accepted(msg) == Err::<MessageView, _>(
                ReceiveErrorView::Server(
                    "server responded with error response. Provided error fields: "@ + debug_text(
                        values,
                    ),
                ),
            ),
            MessageView::ErrorResponse(Err(error)) => accepted(msg) == Err::<MessageView, _>(
                ReceiveErrorView::Io(error),
            ),
            _ => accepted(msg) == Ok::<_, ReceiveErrorView>(msg),
        },
{
}

/// What an error says is what it holds.
pub proof fn law_errors_say_what_they_hold(text: String, error: io::Error)
    ensures
        ReceiveError::Server(text)@ == ReceiveErrorView::Server(text@),
        ReceiveError::Io(error)@ == ReceiveErrorView::Io(error),
{
}

} // verus!
