//! Expressions, and the values they put on the runtime stack.

use vstd::prelude::*;
use crate::text::{decimal_of, write_decimal};

verus! {

#[derive(Debug)]
pub enum ExprKind {
    Push(Value),
    Add,
    Print,
}

/// An executable unit, at the source name and position of the token it was
/// built from.
pub struct Expr {
    pub kind: ExprKind,
    pub source: String,
    pub position: (usize, usize),
}

#[derive(Debug)]
pub enum Value {
    Number(u64),
    String(String),
}

pub enum ValueView {
    Number(u64),
    String(Seq<char>),
}

pub enum ExprKindView {
    Push(ValueView),
    Add,
    Print,
}

pub struct ExprView {
    pub kind: ExprKindView,
    pub source: Seq<char>,
    pub position: (nat, nat),
}

impl View for Value {
    type V = ValueView;

    open spec fn view(&self) -> ValueView {
        match self {
            Value::Number(n) => ValueView::Number(*n),
            Value::String(s) => ValueView::String(s@),
        }
    }
}

impl View for ExprKind {
    type V = ExprKindView;

    open spec fn view(&self) -> ExprKindView {
        match self {
            ExprKind::Push(v) => ExprKindView::Push(v@),
            ExprKind::Add => ExprKindView::Add,
            ExprKind::Print => ExprKindView::Print,
        }
    }
}

impl View for Expr {
    type V = ExprView;

    open spec fn view(&self) -> ExprView {
        ExprView {
            kind: self.kind@,
            source: self.source@,
            position: (self.position.0 as nat, self.position.1 as nat),
        }
    }
}

/// The textual form of a value: a number in decimal, text as it is.
pub open spec fn text_of(v: ValueView) -> Seq<char> {
    match v {
        ValueView::Number(n) => decimal_of(n as nat),
        ValueView::String(s) => s,
    }
}

impl Clone for Value {
    fn clone(&self) -> (r: Self)
        ensures
            r@ == self@,
    {
        match self {
            Value::Number(n) => Value::Number(*n),
            Value::String(s) => Value::String(s.clone()),
        }
    }
}

impl Value {
    /// The textual form of the value: decimal digits for a number, the raw
    /// text (no quotes, no escapes) for a string.
    pub fn render(&self) -> (r: String)
        ensures
            r@ == text_of(self@),
    {
        match self {
            Value::Number(n) => {
                let mut r = String::new();
                write_decimal(&mut r, *n as u128);
                r
            },
            Value::String(s) => s.clone(),
        }
    }
}

} // verus!
