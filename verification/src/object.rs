//! Runtime values.

use vstd::prelude::*;
use crate::render::boolean_text;
use crate::render::integer_text;
use crate::render::render_boolean;
use crate::render::render_integer;

verus! {

/// A value that evaluation yields.
#[derive(Debug, PartialEq)]
pub enum Object {
    Int(i64),
    Str(String),
    Bool(bool),
    Null,
}

/// The mathematical value of an object.
pub ghost enum ObjectView {
    Int(i64),
    Str(Seq<char>),
    Bool(bool),
    Null,
}

impl View for Object {
    type V = ObjectView;

    open spec fn view(&self) -> ObjectView {
        match self {
            Object::Int(value) => ObjectView::Int(*value),
            Object::Str(text) => ObjectView::Str(text@),
            Object::Bool(value) => ObjectView::Bool(*value),
            Object::Null => ObjectView::Null,
        }
    }
}

/// The text of an object: a number in base ten, a text as it is, a truth
/// value by its name, and `null`.
pub open spec fn object_text(object: ObjectView) -> Seq<char> {
    match object {
        ObjectView::Int(value) => integer_text(value as int),
        ObjectView::Str(text) => text,
        ObjectView::Bool(value) => boolean_text(value),
        ObjectView::Null => "null"@,
    }
}

impl Object {
    /// The text of the object.
    pub fn to_string(&self) -> (text: String)
        ensures
            text@ == object_text(self@),
    {
        match self {
            Object::Int(value) => render_integer(*value),
            Object::Str(text) => text.clone(),
            Object::Bool(value) => render_boolean(*value),
            Object::Null => String::from_str("null"),
        }
    }
}

} // verus!
