//! The document tree that a JSON text denotes.
use vstd::prelude::*;
use crate::number::{Number, NumberView};

verus! {

/// A JSON value. An array or an object owns its children. An object keeps
/// its members in the order in which they were written, and keeps every
/// member of a name that occurs twice.
#[derive(Debug, PartialEq, Eq)]
pub enum Value {
    Array(Vec<Value>),
    Object(Vec<(String, Value)>),
    Number(Number),
    String(String),
    True,
    False,
    Null,
}

/// A [`Value`], as mathematics.
pub enum ValueView {
    Array(Seq<ValueView>),
    Object(Seq<(Seq<char>, ValueView)>),
    Number(NumberView),
    String(Seq<char>),
    True,
    False,
    Null,
}

/// The view of a value: the same tree, with sequences for vectors and
/// strings.
pub open spec fn value_view(value: Value) -> ValueView
    decreases value,
{
    match value {
        Value::Array(items) => ValueView::Array(
            Seq::new(
                items@.len(),
                |i: int|
                    if 0 <= i < items@.len() {
                        value_view(items@[i])
                    } else {
                        ValueView::Null
                    },
            ),
        ),
        Value::Object(members) => ValueView::Object(
            Seq::new(
                members@.len(),
                |i: int|
                    if 0 <= i < members@.len() {
                        (members@[i].0@, value_view(members@[i].1))
                    } else {
                        (Seq::empty(), ValueView::Null)
                    },
            ),
        ),
        Value::Number(n) => ValueView::Number(n@),
        Value::String(s) => ValueView::String(s@),
        Value::True => ValueView::True,
        Value::False => ValueView::False,
        Value::Null => ValueView::Null,
    }
}

impl View for Value {
    type V = ValueView;

    open spec fn view(&self) -> ValueView {
        value_view(*self)
    }
}

/// The views of the items of an array under construction.
pub open spec fn items_view(items: Seq<Value>) -> Seq<ValueView> {
    Seq::new(items.len(), |i: int| items[i]@)
}

/// The views of the members of an object under construction.
pub open spec fn members_view(members: Seq<(String, Value)>) -> Seq<(Seq<char>, ValueView)> {
    Seq::new(members.len(), |i: int| (members[i].0@, members[i].1@))
}

/// An array's view holds the views of its items.
pub proof fn array_view(items: Vec<Value>)
    ensures
        Value::Array(items)@ == ValueView::Array(items_view(items@)),
{
    assert(Value::Array(items)@->Array_0 =~= items_view(items@));
}

/// An object's view holds the views of its members.
pub proof fn object_view(members: Vec<(String, Value)>)
    ensures
        Value::Object(members)@ == ValueView::Object(members_view(members@)),
{
    assert(Value::Object(members)@->Object_0 =~= members_view(members@));
}

} // verus!
