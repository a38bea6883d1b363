//! The document tree.

use vstd::prelude::*;

verus! {

/// A node of the document tree.
#[derive(Debug, PartialEq)]
pub enum Value {
    /// The members of an object, in source order; a key may occur twice.
    Object(Vec<Member>),
    /// The elements of an array, in source order.
    Array(Vec<Value>),
    /// A string.
    String(String),
    /// A number, as the text of a decimal floating-point literal.
    Number(String),
    /// `true` or `false`
    Boolean(bool),
    /// `null`
    Null,
}

/// A key and its value inside an object.
#[derive(Debug, PartialEq)]
pub struct Member {
    pub key: String,
    pub value: Value,
}

/// The mathematical value of a [`Value`]: a tree over sequences.
pub ghost enum Json {
    Object(Seq<Field>),
    Array(Seq<Json>),
    String(Seq<char>),
    Number(Seq<char>),
    Boolean(bool),
    Null,
}

/// The mathematical value of a [`Member`].
pub ghost struct Field {
    pub key: Seq<char>,
    pub value: Json,
}

impl View for Value {
    type V = Json;

    open spec fn view(&self) -> Json
        decreases self,
    {
        match self {
            Value::Object(members) => Json::Object(
                Seq::new(
                    members@.len(),
                    |i: int|
                        if 0 <= i < members@.len() {
                            Field { key: members@[i].key@, value: members@[i].value@ }
                        } else {
                            Field { key: Seq::empty(), value: Json::Null }
                        },
                ),
            ),
            Value::Array(items) => Json::Array(
                Seq::new(
                    items@.len(),
                    |i: int|
                        if 0 <= i < items@.len() {
                            items@[i]@
                        } else {
                            Json::Null
                        },
                ),
            ),
            Value::String(text) => Json::String(text@),
            Value::Number(text) => Json::Number(text@),
            Value::Boolean(b) => Json::Boolean(*b),
            Value::Null => Json::Null,
        }
    }
}

impl View for Member {
    type V = Field;

    open spec fn view(&self) -> Field {
        Field { key: self.key@, value: self.value@ }
    }
}

/// The mathematical values of the members of an object, in order.
pub open spec fn members_view(members: Seq<Member>) -> Seq<Field> {
    Seq::new(members.len(), |i: int| members[i]@)
}

/// The mathematical values of the elements of an array, in order.
pub open spec fn values_view(items: Seq<Value>) -> Seq<Json> {
    Seq::new(items.len(), |i: int| items[i]@)
}

/// The view of an object is the views of its members.
pub proof fn lemma_object_view(members: Vec<Member>)
    ensures
        Value::Object(members)@ == Json::Object(members_view(members@)),
{
    assert(Value::Object(members)@->Object_0 =~= members_view(members@));
}

/// The view of an array is the views of its elements.
pub proof fn lemma_array_view(items: Vec<Value>)
    ensures
        Value::Array(items)@ == Json::Array(values_view(items@)),
{
    assert(Value::Array(items)@->Array_0 =~= values_view(items@));
}

} // verus!
