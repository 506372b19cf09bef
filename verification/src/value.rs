//! The values that the evaluator keeps on its stack.

use vstd::prelude::*;
use crate::decimal::decimal_text;

verus! {

/// A datum on the evaluation stack.
#[derive(Debug, PartialEq, Eq)]
pub enum Value {
    String(String),
    Integer(i64),
}

/// What a [`Value`] stands for: the same variants, with a string as a
/// sequence of characters.
pub enum ValueView {
    String(Seq<char>),
    Integer(i64),
}

impl ValueView {
    /// How the value is printed: an integer in decimal notation, a string as
    /// it stands.
    pub open spec fn text(self) -> Seq<char> {
        match self {
            ValueView::String(s) => s,
            ValueView::Integer(i) => decimal_text(i as int),
        }
    }
}

impl View for Value {
    type V = ValueView;

    open spec fn view(&self) -> ValueView {
        match *self {
            Value::String(s) => ValueView::String(s@),
            Value::Integer(i) => ValueView::Integer(i),
        }
    }
}

impl DeepView for Value {
    type V = ValueView;

    open spec fn deep_view(&self) -> ValueView {
        self.view()
    }
}

} // verus!
