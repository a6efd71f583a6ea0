use vstd::prelude::*;
use crate::lex::copy_chars;

verus! {

/// A decimal number, kept as the computation that yields it. The host turns
/// it into an IEEE double: literals are read, integers converted, and the
/// operations carried out in order, in double precision.
#[derive(Debug, PartialEq)]
pub enum Dec {
    /// A decimal literal as written: digits with one `.`.
    Literal(Vec<char>),
    /// An integer taken as a decimal.
    FromInteger(i64),
    Add(Box<Dec>, Box<Dec>),
    Sub(Box<Dec>, Box<Dec>),
    Mul(Box<Dec>, Box<Dec>),
    Div(Box<Dec>, Box<Dec>),
}

/// The mathematical model of a decimal computation.
pub enum DecTerm {
    Literal(Seq<char>),
    FromInteger(i64),
    Add(Box<DecTerm>, Box<DecTerm>),
    Sub(Box<DecTerm>, Box<DecTerm>),
    Mul(Box<DecTerm>, Box<DecTerm>),
    Div(Box<DecTerm>, Box<DecTerm>),
}

impl View for Dec {
    type V = DecTerm;

    open spec fn view(&self) -> DecTerm
        decreases self,
    {
        match self {
            Dec::Literal(t) => DecTerm::Literal(t@),
            Dec::FromInteger(n) => DecTerm::FromInteger(*n),
            Dec::Add(a, b) => DecTerm::Add(Box::new((**a).view()), Box::new((**b).view())),
            Dec::Sub(a, b) => DecTerm::Sub(Box::new((**a).view()), Box::new((**b).view())),
            Dec::Mul(a, b) => DecTerm::Mul(Box::new((**a).view()), Box::new((**b).view())),
            Dec::Div(a, b) => DecTerm::Div(Box::new((**a).view()), Box::new((**b).view())),
        }
    }
}

impl Dec {
    /// A decimal computation equal to this one.
    pub fn copy(&self) -> (r: Dec)
        ensures
            r@ == self@,
        decreases self,
    {
        match self {
            Dec::Literal(t) => Dec::Literal(copy_chars(t)),
            Dec::FromInteger(n) => Dec::FromInteger(*n),
            Dec::Add(a, b) => Dec::Add(Box::new(a.copy()), Box::new(b.copy())),
            Dec::Sub(a, b) => Dec::Sub(Box::new(a.copy()), Box::new(b.copy())),
            Dec::Mul(a, b) => Dec::Mul(Box::new(a.copy()), Box::new(b.copy())),
            Dec::Div(a, b) => Dec::Div(Box::new(a.copy()), Box::new(b.copy())),
        }
    }
}

/// A value that evaluation produces.
#[derive(Debug, PartialEq)]
pub enum ValueKind {
    Integer(i64),
    Decimal(Dec),
    Str(Vec<char>),
    /// A name not yet looked up.
    Identifier(Vec<char>),
    Boolean(bool),
    /// A truth value: whether two decimals are equal.
    DecimalEquals(Dec, Dec),
    /// The null sentinel: the value of a leaf that holds none.
    Null,
}

/// The mathematical model of a value.
pub enum Val {
    Integer(i64),
    Decimal(DecTerm),
    Str(Seq<char>),
    Identifier(Seq<char>),
    Boolean(bool),
    DecimalEquals(DecTerm, DecTerm),
    Null,
}

impl View for ValueKind {
    type V = Val;

    open spec fn view(&self) -> Val {
        match self {
            ValueKind::Integer(n) => Val::Integer(*n),
            ValueKind::Decimal(d) => Val::Decimal(d@),
            ValueKind::Str(s) => Val::Str(s@),
            ValueKind::Identifier(s) => Val::Identifier(s@),
            ValueKind::Boolean(b) => Val::Boolean(*b),
            ValueKind::DecimalEquals(a, b) => Val::DecimalEquals(a@, b@),
            ValueKind::Null => Val::Null,
        }
    }
}

impl ValueKind {
    /// A value equal to this one.
    pub fn copy(&self) -> (r: ValueKind)
        ensures
            r@ == self@,
    {
        match self {
            ValueKind::Integer(n) => ValueKind::Integer(*n),
            ValueKind::Decimal(d) => ValueKind::Decimal(d.copy()),
            ValueKind::Str(s) => ValueKind::Str(copy_chars(s)),
            ValueKind::Identifier(s) => ValueKind::Identifier(copy_chars(s)),
            ValueKind::Boolean(b) => ValueKind::Boolean(*b),
            ValueKind::DecimalEquals(a, b) => ValueKind::DecimalEquals(a.copy(), b.copy()),
            ValueKind::Null => ValueKind::Null,
        }
    }
}

} // verus!
