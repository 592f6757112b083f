//! Queries that come over HTTP: what the parts of a payload come to.
use vstd::prelude::*;

use crate::address::chars_of;
use crate::base64_text::{base64_flaw, base64_text, decode, law_base64_is_unambiguous};
use crate::query::{Value, ValueView};
use crate::text::same_text;

verus! {

/// The statements of one request.
#[derive(Debug)]
pub struct HttpQuery {
    pub statements: Vec<QueryObject>,
}

/// A statement and its parameters.
#[derive(Debug)]
pub struct QueryObject {
    pub q: String,
    pub params: QueryParams,
}

/// The parameters of a statement, each with its name if it has one.
#[derive(Debug)]
pub struct QueryParams {
    pub inner: Vec<(Option<String>, Value)>,
}

pub struct QueryObjectView {
    pub q: Seq<char>,
    pub params: Seq<ParamView>,
}

pub struct ParamView {
    pub name: Option<Seq<char>>,
    pub value: ValueView,
}

impl View for QueryParams {
    type V = Seq<ParamView>;

    open spec fn view(&self) -> Seq<ParamView> {
        self.inner@.map_values(
            |p: (Option<String>, Value)| ParamView { name: chars_of(p.0), value: p.1@ },
        )
    }
}

impl View for QueryObject {
    type V = QueryObjectView;

    open spec fn view(&self) -> QueryObjectView {
        QueryObjectView { q: self.q@, params: self.params@ }
    }
}

impl Default for QueryParams {
    /// No parameters.
    fn default() -> (params: QueryParams)
        ensures
            params@ == Seq::<ParamView>::empty(),
            params.inner@.len() == 0,
    {
        let params = QueryParams { inner: Vec::new() };
        assert(params@ =~= Seq::empty());
        params
    }
}

/// Why a payload is no query.
#[derive(Debug)]
pub enum VisitError {
    /// An object has a field other than those expected.
    UnknownField { field: String, expected: &'static [&'static str] },
    /// An object lacks this field.
    MissingField(&'static str),
    /// An object has this field twice.
    DuplicateField(&'static str),
    /// A blob is no Base64 text.
    InvalidBlob { value: String, error: base64::DecodeError },
}

pub enum VisitErrorView {
    UnknownField { field: Seq<char>, expected: Seq<Seq<char>> },
    MissingField(Seq<char>),
    DuplicateField(Seq<char>),
    InvalidBlob { value: Seq<char>, error: base64::DecodeError },
}

impl View for VisitError {
    type V = VisitErrorView;

    open spec fn view(&self) -> VisitErrorView {
        match *self {
            VisitError::UnknownField { field, expected } => VisitErrorView::UnknownField {
                field: field@,
                expected: expected@.map_values(|f: &'static str| f@),
            },
            VisitError::MissingField(field) => VisitErrorView::MissingField(field@),
            VisitError::DuplicateField(field) => VisitErrorView::DuplicateField(field@),
            VisitError::InvalidBlob { value, error } => VisitErrorView::InvalidBlob {
                value: value@,
                error,
            },
        }
    }
}

/// What an object in the place of a value comes to, of which this is the first
/// field: a blob in Base64.
pub open spec fn is_object_value(
    first: Option<(Seq<char>, Seq<char>)>,
    r: Result<ValueView, VisitErrorView>,
) -> bool {
    match first {
        None => r == Err::<ValueView, _>(VisitErrorView::MissingField("blob"@)),
        Some((key, text)) => {
            if key != "blob"@ {
                r == Err::<ValueView, _>(
                    VisitErrorView::UnknownField { field: key, expected: seq!["blob"@] },
                )
            } else {
                match r {
                    Ok(ValueView::Blob(bytes)) => base64_text(bytes) == text,
                    Ok(_) => false,
                    Err(error) => {
                        &&& error == VisitErrorView::InvalidBlob {
                            value: text,
                            error: base64_flaw(text),
                        }
                        &&& forall|bytes: Seq<u8>| #[trigger] base64_text(bytes) != text
                    },
                }
            }
        },
    }
}

/// What came of a visit.
pub open spec fn visited<T: View>(r: Result<T, VisitError>) -> Result<T::V, VisitErrorView> {
    match r {
        Ok(value) => Ok(value@),
        Err(error) => Err(error@),
    }
}

/// Makes values of the parts of a payload.
pub struct ValueVisitor;

impl ValueVisitor {
    pub fn visit_none() -> (value: Value)
        ensures
            value@ == ValueView::Null,
            value is Null,
    {
        Value::Null
    }

    pub fn visit_unit() -> (value: Value)
        ensures
            value@ == ValueView::Null,
            value is Null,
    {
        Value::Null
    }

    pub fn visit_string(v: String) -> (value: Value)
        ensures
            value@ == ValueView::Text(v@),
            value == Value::Text(v),
    {
        Value::Text(v)
    }

    pub fn visit_str(v: &str) -> (value: Value)
        ensures
            value@ == ValueView::Text(v@),
            value matches Value::Text(text) && text@ == v@,
    {
        Value::Text(v.to_owned())
    }

    pub fn visit_i64(v: i64) -> (value: Value)
        ensures
            value@ == ValueView::Integer(v),
            value == Value::Integer(v),
    {
        Value::Integer(v)
    }

    /// Takes a double by its bits.
    pub fn visit_f64(bits: u64) -> (value: Value)
        ensures
            value@ == ValueView::Real(bits),
            value == Value::Real(bits),
    {
        Value::Real(bits)
    }

    /// Takes the first field of an object, if it has one.
    pub fn visit_map(first: Option<(&str, &str)>) -> (r: Result<Value, VisitError>)
        ensures
            is_object_value(
                match first {
                    Some((key, text)) => Some((key@, text@)),
                    None => None,
                },
                visited(r),
            ),
            first is None ==> (r matches Err(VisitError::MissingField(f)) && f@ == "blob"@),
            first matches Some((key, text)) ==> key@ != "blob"@ ==> (
            r matches Err(VisitError::UnknownField { field, expected }) && field@ == key@
                && expected@.len() == 1 && expected@[0]@ == "blob"@),
            first matches Some((key, text)) ==> key@ == "blob"@ ==> match r {
                Ok(value) => value matches Value::Blob(data) && base64_text(data@) == text@,
                Err(error) => {
                    &&& error matches VisitError::InvalidBlob { value, error: flaw }
                    &&& value@ == text@ && flaw == base64_flaw(text@)
                    &&& forall|bytes: Seq<u8>| #[trigger] base64_text(bytes) != text@
                },
            },
    {
        let (key, text) = match first {
            Some(entry) => entry,
            None => return Err(VisitError::MissingField("blob")),
        };
        if !same_text(key, "blob") {
            let expected: &'static [&'static str] = &["blob"];
            assert(expected@.map_values(|f: &'static str| f@) =~= seq!["blob"@]);
            return Err(VisitError::UnknownField { field: key.to_owned(), expected });
        }
        match decode(text) {
            Ok(data) => Ok(Value::Blob(data)),
            Err(error) => Err(VisitError::InvalidBlob { value: text.to_owned(), error }),
        }
    }
}

/// Makes parameters of the parts of a payload.
pub struct ParamsVisitor;

impl ParamsVisitor {
    /// Takes the values of an array: parameters without names, in their order.
    pub fn visit_seq(values: Vec<Value>) -> (params: QueryParams)
        ensures
            params@ == values@.map_values(|v: Value| ParamView { name: None, value: v@ }),
            params.inner@.len() == values@.len(),
            forall|i: int|
                0 <= i < values@.len() ==> #[trigger] params.inner@[i] == (
                    None::<String>,
                    values@[i],
                ),
    {
        let mut inner: Vec<(Option<String>, Value)> = Vec::new();
        for value in it: values
            invariant
                it.seq() == values@,
                inner@.len() == it.index(),
                forall|i: int| 0 <= i < it.index() ==> #[trigger] inner@[i] == (None::<String>, values@[i]),
        {
            inner.push((None, value));
        }
        let params = QueryParams { inner };
        assert(params@ =~= values@.map_values(|v: Value| ParamView { name: None, value: v@ }));
        params
    }

    /// Takes the entries of an object: parameters with names, in their order.
    pub fn visit_map(entries: Vec<(String, Value)>) -> (params: QueryParams)
        ensures
            params@ == entries@.map_values(
                |e: (String, Value)| ParamView { name: Some(e.0@), value: e.1@ },
            ),
            params.inner@.len() == entries@.len(),
            forall|i: int|
                0 <= i < entries@.len() ==> #[trigger] params.inner@[i] == (
                    Some(entries@[i].0),
                    entries@[i].1,
                ),
    {
        let mut inner: Vec<(Option<String>, Value)> = Vec::new();
        for entry in it: entries
            invariant
                it.seq() == entries@,
                inner@.len() == it.index(),
                forall|i: int|
                    0 <= i < it.index() ==> #[trigger] inner@[i] == (Some(entries@[i].0), entries@[i].1),
        {
            inner.push((Some(entry.0), entry.1));
        }
        let params = QueryParams { inner };
        assert(params@ =~= entries@.map_values(
            |e: (String, Value)| ParamView { name: Some(e.0@), value: e.1@ },
        ));
        params
    }
}

/// A field of a statement's object.
#[derive(Debug, Clone, Copy, PartialEq, Eq, Structural)]
pub enum QueryField {
    Q,
    Params,
}

/// Makes a statement of the fields of an object, one after the other.
pub struct QueryVisitor {
    q: Option<String>,
    params: Option<QueryParams>,
}

pub struct QueryVisitorView {
    pub q: Option<Seq<char>>,
    pub params: Option<Seq<ParamView>>,
}

impl View for QueryVisitor {
    type V = QueryVisitorView;

    closed spec fn view(&self) -> QueryVisitorView {
        QueryVisitorView {
            q: chars_of(self.q),
            params: match self.params {
                Some(params) => Some(params@),
                None => None,
            },
        }
    }
}

/// What a field's name comes to, with what is there already: which field it is
/// that its value is to be read for.
pub open spec fn named_field(have: QueryVisitorView, key: Seq<char>) -> Result<
    QueryField,
    VisitErrorView,
> {
    if key == "q"@ {
        if have.q is Some {
            Err(VisitErrorView::DuplicateField("q"@))
        } else {
            Ok(QueryField::Q)
        }
    } else if key == "params"@ {
        if have.params is Some {
            Err(VisitErrorView::DuplicateField("params"@))
        } else {
            Ok(QueryField::Params)
        }
    } else {
        Err(VisitErrorView::UnknownField { field: key, expected: seq!["q"@, "params"@] })
    }
}

/// The statement that the fields make, if the one that has to be there is.
pub open spec fn complete(have: QueryVisitorView) -> Result<QueryObjectView, VisitErrorView> {
    match have.q {
        None => Err(VisitErrorView::MissingField("q"@)),
        Some(q) => Ok(
            QueryObjectView {
                q,
                params: match have.params {
                    Some(params) => params,
                    None => Seq::empty(),
                },
            },
        ),
    }
}

impl QueryVisitor {
    /// Takes a string: a statement without parameters.
    pub fn visit_str(q: &str) -> (query: QueryObject)
        ensures
            query@ == (QueryObjectView { q: q@, params: Seq::empty() }),
            query.q@ == q@ && query.params.inner@.len() == 0,
    {
        QueryObject { q: q.to_owned(), params: QueryParams::default() }
    }

    /// Begins an object, with no field yet.
    pub fn begin() -> (visitor: QueryVisitor)
        ensures
            visitor@ == (QueryVisitorView { q: None, params: None }),
    {
        QueryVisitor { q: None, params: None }
    }

    /// Takes the name of the next field, and says which field's value is to be
    /// read.
    pub fn key(&self, key: &str) -> (r: Result<QueryField, VisitError>)
        ensures
            match r {
                Ok(field) => named_field(self@, key@) == Ok::<_, VisitErrorView>(field),
                Err(error) => named_field(self@, key@) == Err::<QueryField, _>(error@),
            },
            r matches Ok(field) ==> match field {
                QueryField::Q => key@ == "q"@ && self@.q is None,
                QueryField::Params => key@ == "params"@ && self@.params is None,
            },
            r matches Err(error) ==> match error {
                VisitError::UnknownField { field, expected } => {
                    &&& field@ == key@ && key@ != "q"@ && key@ != "params"@
                    &&& expected@.len() == 2 && expected@[0]@ == "q"@ && expected@[1]@ == "params"@
                },
                VisitError::DuplicateField(field) => {
                    &&& field@ == key@
                    &&& key@ == "q"@ && self@.q is Some || key@ == "params"@ && self@.params is Some
                },
                _ => false,
            },
    {
        proof {
            reveal_strlit("q");
            reveal_strlit("params");
        }
        if same_text(key, "q") {
            if self.q.is_none() {
                Ok(QueryField::Q)
            } else {
                Err(VisitError::DuplicateField("q"))
            }
        } else if same_text(key, "params") {
            if self.params.is_none() {
                Ok(QueryField::Params)
            } else {
                Err(VisitError::DuplicateField("params"))
            }
        } else {
            let expected: &'static [&'static str] = &["q", "params"];
            assert(expected@.map_values(|f: &'static str| f@) =~= seq!["q"@, "params"@]);
            Err(VisitError::UnknownField { field: key.to_owned(), expected })
        }
    }

    /// Takes the value of the field `q`.
    pub fn set_q(&mut self, q: String)
        ensures
            final(self)@ == (QueryVisitorView { q: Some(q@), ..old(self)@ }),
    {
        self.q = Some(q);
    }

    /// Takes the value of the field `params`.
    pub fn set_params(&mut self, params: QueryParams)
        ensures
            final(self)@ == (QueryVisitorView { params: Some(params@), ..old(self)@ }),
    {
        self.params = Some(params);
    }

    /// Ends the object.
    pub fn end(self) -> (r: Result<QueryObject, VisitError>)
        ensures
            visited(r) == complete(self@),
            match r {
                Ok(query) => {
                    &&& self@.q == Some(query.q@)
                    &&& query.params@ == (match self@.params {
                        Some(params) => params,
                        None => Seq::empty(),
                    })
                },
                Err(error) => {
                    &&& self@.q is None
                    &&& error matches VisitError::MissingField(field)
                    &&& field@ == "q"@
                },
            },
    {
        match self.q {
            Some(q) => {
                let params = match self.params {
                    Some(params) => params,
                    None => QueryParams::default(),
                };
                Ok(QueryObject { q, params })
            },
            None => Err(VisitError::MissingField("q")),
        }
    }
}

/// A field of an object in the place of a statement, with what its value is
/// read as.
pub enum FieldContent {
    Q(Seq<char>),
    Params(Seq<ParamView>),
    /// A field of some other name.
    Other(Seq<char>),
}

/// The name of a field.
pub open spec fn field_name(field: FieldContent) -> Seq<char> {
    match field {
        FieldContent::Q(_) => "q"@,
        FieldContent::Params(_) => "params"@,
        FieldContent::Other(name) => name,
    }
}

/// What there is once a field is read too, or why it is not read.
pub open spec fn after_field(have: QueryVisitorView, field: FieldContent) -> Result<
    QueryVisitorView,
    VisitErrorView,
> {
    match (named_field(have, field_name(field)), field) {
        (Err(error), _) => Err(error),
        (Ok(_), FieldContent::Q(q)) => Ok(QueryVisitorView { q: Some(q), ..have }),
        (Ok(_), FieldContent::Params(params)) => Ok(
            QueryVisitorView { params: Some(params), ..have },
        ),
        (Ok(_), FieldContent::Other(_)) => Ok(have),
    }
}

/// What these fields make of what there is, one after the other.
pub open spec fn object_read(have: QueryVisitorView, fields: Seq<FieldContent>) -> Result<
    QueryObjectView,
    VisitErrorView,
>
    decreases fields.len(),
{
    if fields.len() == 0 {
        complete(have)
    } else {
        match after_field(have, fields[0]) {
            Err(error) => Err(error),
            Ok(next) => object_read(next, fields.drop_first()),
        }
    }
}

/// What there is before any field is read.
pub open spec fn nothing_yet() -> QueryVisitorView {
    QueryVisitorView { q: None, params: None }
}

/// A field of another name than `q` and `params`.
pub open spec fn is_foreign(field: FieldContent) -> bool {
    field matches FieldContent::Other(name) && name != "q"@ && name != "params"@
}

/// Fields go by their names: what stands as some other field is named neither
/// `q` nor `params`.
pub open spec fn go_by_name(fields: Seq<FieldContent>) -> bool {
    forall|i: int|
        0 <= i < fields.len() ==> (#[trigger] fields[i] is Other ==> is_foreign(fields[i]))
}

proof fn lemma_names_differ()
    ensures
        "q"@ != "params"@,
{
    reveal_strlit("q");
    reveal_strlit("params");
    assert("q"@.len() == 1);
}

/// An object is a statement if and only if it has the field `q`, perhaps the
/// field `params`, and nothing else, in whatever order. Its parameters are none
/// if it names none.
pub proof fn law_objects_that_are_statements(fields: Seq<FieldContent>, query: QueryObjectView)
    requires
        go_by_name(fields),
    ensures
        object_read(nothing_yet(), fields) == Ok::<_, VisitErrorView>(query) <==> {
            let q = FieldContent::Q(query.q);
            let params = FieldContent::Params(query.params);
            ||| fields == seq![q] && query.params == Seq::<ParamView>::empty()
            ||| fields == seq![q, params]
            ||| fields == seq![params, q]
        },
{
    lemma_names_differ();
    let q = FieldContent::Q(query.q);
    let params = FieldContent::Params(query.params);
    if fields.len() > 0 {
        let first = after_field(nothing_yet(), fields[0]);
        let rest = fields.drop_first();
        assert(is_foreign(fields[0]) ==> first is Err);
        if first is Ok {
            if rest.len() > 0 {
                let second = after_field(first->Ok_0, rest[0]);
                assert(rest[0] == fields[1]);
                assert(is_foreign(fields[1]) ==> second is Err);
                if second is Ok {
                    let end = rest.drop_first();
                    if end.len() > 0 {
                        assert(end[0] == fields[2]);
                        assert(after_field(second->Ok_0, end[0]) is Err);
                        assert(object_read(second->Ok_0, end) is Err);
                    } else {
                        assert(object_read(second->Ok_0, end) == complete(second->Ok_0));
                        assert(fields =~= seq![fields[0], fields[1]]);
                    }
                }
            } else {
                assert(object_read(first->Ok_0, rest) == complete(first->Ok_0));
                assert(fields =~= seq![fields[0]]);
            }
        }
    }
}

/// A string says the same as an object with nothing but that string as its `q`.
pub proof fn law_string_stands_for_an_object(q: Seq<char>)
    ensures
        object_read(nothing_yet(), seq![FieldContent::Q(q)]) == Ok::<_, VisitErrorView>(
            QueryObjectView { q, params: Seq::empty() },
        ),
{
    let fields = seq![FieldContent::Q(q)];
    law_objects_that_are_statements(fields, QueryObjectView { q, params: Seq::empty() });
}

/// A field that comes twice is refused, whatever stands behind it.
pub proof fn law_repeated_field_is_refused(
    have: QueryVisitorView,
    field: FieldContent,
    later: Seq<FieldContent>,
)
    requires
        field is Q && have.q is Some || field is Params && have.params is Some,
    ensures
        object_read(have, seq![field] + later) == Err::<QueryObjectView, _>(
            VisitErrorView::DuplicateField(field_name(field)),
        ),
{
    lemma_names_differ();
    assert((seq![field] + later)[0] == field);
}

/// What a value of a payload says is what it holds.
pub proof fn law_values_say_what_they_hold(i: i64, bits: u64, text: String, bytes: Vec<u8>)
    ensures
        Value::Null@ == ValueView::Null,
        Value::Integer(i)@ == ValueView::Integer(i),
        Value::Real(bits)@ == ValueView::Real(bits),
        Value::Text(text)@ == ValueView::Text(text@),
        Value::Blob(bytes)@ == ValueView::Blob(bytes@),
{
}

/// What parameters say is what they hold, one for one.
pub proof fn law_params_say_what_they_hold(params: QueryParams)
    ensures
        params@.len() == params.inner@.len(),
        forall|i: int|
            0 <= i < params.inner@.len() ==> (#[trigger] params@[i]).value == params.inner@[i].1@
                && params@[i].name == (match params.inner@[i].0 {
                Some(name) => Some(name@),
                None => None::<Seq<char>>,
            }),
{
}

/// A blob comes back from its Base64 text: an object whose first field is `blob`
/// with the text of some bytes is a value, and the value is those bytes.
pub proof fn law_blob_comes_back(bytes: Seq<u8>, r: Result<Value, VisitError>)
    requires
        is_object_value(Some(("blob"@, base64_text(bytes))), visited(r)),
    ensures
        r matches Ok(Value::Blob(data)) && data@ == bytes,
{
    let text = base64_text(bytes);
    if let Ok(Value::Blob(data)) = r {
        law_base64_is_unambiguous(data@, bytes);
    }
}

/// A text that is the Base64 text of no bytes is no value, and the error shows that
/// text and what is wrong with it.
pub proof fn law_other_text_is_no_blob(text: Seq<char>, r: Result<Value, VisitError>)
    requires
        forall|bytes: Seq<u8>| #[trigger] base64_text(bytes) != text,
        is_object_value(Some(("blob"@, text)), visited(r)),
    ensures
        r matches Err(VisitError::InvalidBlob { value, error }) && value@ == text && error
            == base64_flaw(text),
{
    if let Ok(Value::Blob(data)) = r {
        assert(base64_text(data@) == text);
    }
}

/// An object in the place of a value has the field `blob` first, or it is refused.
pub proof fn law_only_blobs_are_objects(
    key: Seq<char>,
    text: Seq<char>,
    r: Result<Value, VisitError>,
    none: Result<Value, VisitError>,
)
    requires
        key != "blob"@,
        is_object_value(Some((key, text)), visited(r)),
        is_object_value(None, visited(none)),
    ensures
        r matches Err(VisitError::UnknownField { field, expected }) && field@ == key
            && expected@.len() == 1 && expected@[0]@ == "blob"@,
        none matches Err(VisitError::MissingField(field)) && field@ == "blob"@,
{
    if let Err(VisitError::UnknownField { field, expected }) = r {
        let names = expected@.map_values(|f: &'static str| f@);
        assert(names[0] == "blob"@ && names.len() == 1);
    }
}

/// A field of another name is refused, whatever is there and whatever stands behind
/// it, and the error shows its name and the two that were expected.
pub proof fn law_foreign_field_is_refused(
    have: QueryVisitorView,
    name: Seq<char>,
    later: Seq<FieldContent>,
)
    requires
        name != "q"@,
        name != "params"@,
    ensures
        object_read(have, seq![FieldContent::Other(name)] + later) == Err::<QueryObjectView, _>(
            VisitErrorView::UnknownField { field: name, expected: seq!["q"@, "params"@] },
        ),
        named_field(have, name) == Err::<QueryField, _>(
            VisitErrorView::UnknownField { field: name, expected: seq!["q"@, "params"@] },
        ),
{
    assert((seq![FieldContent::Other(name)] + later)[0] == FieldContent::Other(name));
}

/// An object without `q` is no statement, whatever parameters it has, and one with
/// `q` is the statement of that text with the parameters that it has.
pub proof fn law_q_makes_the_statement(
    q: Seq<char>,
    params: Seq<ParamView>,
    given: Option<Seq<ParamView>>,
)
    ensures
        complete(QueryVisitorView { q: None, params: given }) == Err::<QueryObjectView, _>(
            VisitErrorView::MissingField("q"@),
        ),
        complete(QueryVisitorView { q: Some(q), params: Some(params) }) == Ok::<_, VisitErrorView>(
            QueryObjectView { q, params },
        ),
        complete(QueryVisitorView { q: Some(q), params: None }) matches Ok(query) && query.q == q
            && query.params.len() == 0,
{
}

} // verus!
