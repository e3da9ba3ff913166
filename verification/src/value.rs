//! The values that travel through the router: arguments, payloads and what
//! a session stores.

use crate::text::{copy_text, same_text};
use vstd::prelude::*;
use vstd::string::*;

verus! {

/// A value of one of four plain kinds.
#[derive(Debug, PartialEq)]
pub enum Value {
    Null,
    Bool(bool),
    Int(i64),
    Text(String),
}

/// What a `Value` is, with texts as sequences of characters.
pub enum ValueModel {
    Null,
    Bool(bool),
    Int(i64),
    Text(Seq<char>),
}

/// The kind of a value, as a schema names it.
#[derive(Clone, Copy, Debug, PartialEq, Eq, Structural)]
pub enum ValueKind {
    Null,
    Bool,
    Int,
    Text,
}

/// The kind of a value.
pub open spec fn kind_of(v: ValueModel) -> ValueKind {
    match v {
        ValueModel::Null => ValueKind::Null,
        ValueModel::Bool(_) => ValueKind::Bool,
        ValueModel::Int(_) => ValueKind::Int,
        ValueModel::Text(_) => ValueKind::Text,
    }
}

impl View for Value {
    type V = ValueModel;

    open spec fn view(&self) -> ValueModel {
        match *self {
            Value::Null => ValueModel::Null,
            Value::Bool(b) => ValueModel::Bool(b),
            Value::Int(i) => ValueModel::Int(i),
            Value::Text(s) => ValueModel::Text(s@),
        }
    }
}

impl Value {
    /// The kind of this value.
    pub fn kind(&self) -> (k: ValueKind)
        ensures
            k == kind_of(self@),
    {
        match self {
            Value::Null => ValueKind::Null,
            Value::Bool(_) => ValueKind::Bool,
            Value::Int(_) => ValueKind::Int,
            Value::Text(_) => ValueKind::Text,
        }
    }

    /// A copy of this value.
    pub fn duplicate(&self) -> (r: Value)
        ensures
            r@ == self@,
    {
        match self {
            Value::Null => Value::Null,
            Value::Bool(b) => Value::Bool(*b),
            Value::Int(i) => Value::Int(*i),
            Value::Text(s) => Value::Text(copy_text(s.as_str())),
        }
    }

    /// Whether two values are the same.
    pub fn same(&self, other: &Value) -> (r: bool)
        ensures
            r == (self@ == other@),
    {
        match (self, other) {
            (Value::Null, Value::Null) => true,
            (Value::Bool(a), Value::Bool(b)) => *a == *b,
            (Value::Int(a), Value::Int(b)) => *a == *b,
            (Value::Text(a), Value::Text(b)) => same_text(a.as_str(), b.as_str()),
            _ => false,
        }
    }
}

/// A named value: one argument of a call.
#[derive(Debug, PartialEq)]
pub struct Field {
    pub name: String,
    pub value: Value,
}

/// What a `Field` is.
pub struct FieldModel {
    pub name: Seq<char>,
    pub value: ValueModel,
}

impl View for Field {
    type V = FieldModel;

    open spec fn view(&self) -> FieldModel {
        FieldModel { name: self.name@, value: self.value@ }
    }
}

impl Field {
    pub fn new(name: &str, value: Value) -> (r: Field)
        ensures
            r@ == (FieldModel { name: name@, value: value@ }),
    {
        Field { name: copy_text(name), value }
    }

    /// A copy of this field.
    pub fn duplicate(&self) -> (r: Field)
        ensures
            r@ == self@,
    {
        Field { name: copy_text(self.name.as_str()), value: self.value.duplicate() }
    }
}

/// The fields of a record, each as its model.
pub open spec fn fields_view(fields: Seq<Field>) -> Seq<FieldModel> {
    fields.map_values(|f: Field| f@)
}

/// The place of the first field named `name`, looking from `from` on.
pub open spec fn position_from(fields: Seq<FieldModel>, name: Seq<char>, from: int) -> Option<int>
    decreases fields.len() - from,
{
    if from < 0 || from >= fields.len() {
        None
    } else if fields[from].name == name {
        Some(from)
    } else {
        position_from(fields, name, from + 1)
    }
}

/// The value of the first field named `name`, if there is one.
pub open spec fn lookup(fields: Seq<FieldModel>, name: Seq<char>) -> Option<ValueModel> {
    match position_from(fields, name, 0) {
        Some(i) => Some(fields[i].value),
        None => None,
    }
}

/// The place of the first field named `name`.
pub fn find_field(fields: &Vec<Field>, name: &str) -> (r: Option<usize>)
    ensures
        match r {
            Some(i) => i < fields@.len() && position_from(fields_view(fields@), name@, 0) == Some(
                i as int,
            ) && fields@[i as int].name@ == name@ && forall|j: int|
                0 <= j < i ==> (#[trigger] fields@[j]).name@ != name@,
            None => position_from(fields_view(fields@), name@, 0) is None && forall|j: int|
                0 <= j < fields@.len() ==> (#[trigger] fields@[j]).name@ != name@,
        },
{
    let n: usize = fields.len();
    let ghost model = fields_view(fields@);

    let mut i: usize = 0;
    while i < n
        invariant
            n == fields@.len(),
            model == fields_view(fields@),
            i <= n,
            position_from(model, name@, 0) == position_from(model, name@, i as int),
            forall|j: int| 0 <= j < i ==> (#[trigger] fields@[j]).name@ != name@,
        decreases n - i,
    {
        if same_text(fields[i].name.as_str(), name) {
            return Some(i);
        }
        i = i + 1;
    }
    None
}

} // verus!
