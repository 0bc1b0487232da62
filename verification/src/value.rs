//! The value of an extension: a scalar whose type is found from its text.

use vstd::prelude::*;
use crate::number::{float_text, text_to_i64, text_to_u64};

verus! {

/// The value of an extension.
///
/// A floating-point number is held as its text, in the shape that
/// `float_text` describes.
#[derive(Debug, PartialEq)]
pub enum CefValue {
    Bool(bool),
    U64(u64),
    I64(i64),
    Float(String),
    Char(char),
    String(String),
    /// A value that is no scalar, and so has no place in a line.
    Composite,
}

/// A `CefValue` with each text as a sequence of characters.
pub enum ValueModel {
    Bool(bool),
    U64(u64),
    I64(i64),
    Float(Seq<char>),
    Char(char),
    String(Seq<char>),
    Composite,
}

impl View for CefValue {
    type V = ValueModel;

    open spec fn view(&self) -> ValueModel {
        match self {
            CefValue::Bool(b) => ValueModel::Bool(*b),
            CefValue::U64(n) => ValueModel::U64(*n),
            CefValue::I64(n) => ValueModel::I64(*n),
            CefValue::Float(text) => ValueModel::Float(text@),
            CefValue::Char(c) => ValueModel::Char(*c),
            CefValue::String(text) => ValueModel::String(text@),
            CefValue::Composite => ValueModel::Composite,
        }
    }
}

impl Clone for CefValue {
    fn clone(&self) -> (r: Self)
        ensures
            r@ == self@,
    {
        match self {
            CefValue::Bool(b) => CefValue::Bool(*b),
            CefValue::U64(n) => CefValue::U64(*n),
            CefValue::I64(n) => CefValue::I64(*n),
            CefValue::Float(text) => CefValue::Float(text.clone()),
            CefValue::Char(c) => CefValue::Char(*c),
            CefValue::String(text) => CefValue::String(text.clone()),
            CefValue::Composite => CefValue::Composite,
        }
    }
}

/// The text `true`.
pub open spec fn true_text() -> Seq<char> {
    seq!['t', 'r', 'u', 'e']
}

/// The text `false`.
pub open spec fn false_text() -> Seq<char> {
    seq!['f', 'a', 'l', 's', 'e']
}

/// The typed value that the text `raw` stands for: a boolean where it is
/// `true` or `false`, else an unsigned integer where it reads as one, else a
/// signed integer, else a floating-point number, else the text itself.
pub open spec fn infer(raw: Seq<char>) -> ValueModel {
    if raw == true_text() {
        ValueModel::Bool(true)
    } else if raw == false_text() {
        ValueModel::Bool(false)
    } else if text_to_u64(raw) is Some {
        ValueModel::U64(text_to_u64(raw).unwrap())
    } else if text_to_i64(raw) is Some {
        ValueModel::I64(text_to_i64(raw).unwrap())
    } else if float_text(raw) {
        ValueModel::Float(raw)
    } else {
        ValueModel::String(raw)
    }
}

} // verus!
