//! Values of the database.
use vstd::prelude::*;

verus! {

/// A value of the database.
#[derive(Debug)]
pub enum Value {
    Null,
    Integer(i64),
    /// The bits of an IEEE 754 double.
    Real(u64),
    Text(String),
    Blob(Vec<u8>),
}

pub enum ValueView {
    Null,
    Integer(i64),
    Real(u64),
    Text(Seq<char>),
    Blob(Seq<u8>),
}

impl View for Value {
    type V = ValueView;

    open spec fn view(&self) -> ValueView {
        match *self {
            Value::Null => ValueView::Null,
            Value::Integer(i) => ValueView::Integer(i),
            Value::Real(bits) => ValueView::Real(bits),
            Value::Text(text) => ValueView::Text(text@),
            Value::Blob(bytes) => ValueView::Blob(bytes@),
        }
    }
}

} // verus!
