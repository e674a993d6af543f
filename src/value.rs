use vstd::prelude::*;
use crate::ast::Identifier;
use crate::number::Num;

verus! {

/// The index of an object in the heap.
pub type ObjectId = usize;

/// A value of the language.
#[derive(Clone, Debug)]
pub enum JSValue {
    Undefined,
    Null,
    Bool(bool),
    Number(Num),
    String(String),
    Ref(ObjectId),
}

/// A value refers only to allocated objects of a heap of `n` slots
/// (slot 0 is the null reference and is never referred to).
pub open spec fn valid_value(v: JSValue, n: nat) -> bool {
    v is Ref ==> 1 <= v->Ref_0 < n
}

/// What strict equality (`===`) decides.
pub open spec fn spec_strict_eq(a: JSValue, b: JSValue) -> bool {
    match (a, b) {
        (JSValue::Undefined, JSValue::Undefined) => true,
        (JSValue::Null, JSValue::Null) => true,
        (JSValue::Bool(x), JSValue::Bool(y)) => x == y,
        (JSValue::Number(x), JSValue::Number(y)) => x is Int && x == y,
        (JSValue::String(x), JSValue::String(y)) => x@ == y@,
        (JSValue::Ref(x), JSValue::Ref(y)) => x == y,
        _ => false,
    }
}

/// What a value means as a condition.
pub open spec fn truthy(v: JSValue) -> bool {
    match v {
        JSValue::Undefined => false,
        JSValue::Null => false,
        JSValue::Bool(b) => b,
        JSValue::Number(n) => n is Int && n->Int_0 != 0,
        JSValue::String(s) => s@.len() > 0,
        JSValue::Ref(_) => true,
    }
}

pub open spec fn is_nan_value(v: JSValue) -> bool {
    v matches JSValue::Number(Num::NaN)
}

impl JSValue {
    /// A copy of the value.
    pub fn dup(&self) -> (r: JSValue)
        ensures
            r == *self,
    {
        match self {
            JSValue::Undefined => JSValue::Undefined,
            JSValue::Null => JSValue::Null,
            JSValue::Bool(b) => JSValue::Bool(*b),
            JSValue::Number(n) => JSValue::Number(*n),
            JSValue::String(s) => JSValue::String(s.clone()),
            JSValue::Ref(r) => JSValue::Ref(*r),
        }
    }

    pub fn from_str(s: &str) -> (r: JSValue)
        ensures
            r matches JSValue::String(t) && t@ == s@,
    {
        JSValue::String(String::from_str(s))
    }

    /// Coercion to a boolean.
    pub fn boolify(&self) -> (r: bool)
        ensures
            r == truthy(*self),
    {
        match self {
            JSValue::Undefined => false,
            JSValue::Null => false,
            JSValue::Bool(b) => *b,
            JSValue::Number(n) => match n {
                Num::NaN => false,
                Num::Int(i) => *i != 0,
            },
            JSValue::String(s) => s.unicode_len() > 0,
            JSValue::Ref(_) => true,
        }
    }

    /// Strict equality (`===`).
    pub fn strict_eq(a: &JSValue, b: &JSValue) -> (r: bool)
        ensures
            r == spec_strict_eq(*a, *b),
    {
        match (a, b) {
            (JSValue::Undefined, JSValue::Undefined) => true,
            (JSValue::Null, JSValue::Null) => true,
            (JSValue::Bool(x), JSValue::Bool(y)) => *x == *y,
            (JSValue::Number(x), JSValue::Number(y)) => x.num_eq(y),
            (JSValue::String(x), JSValue::String(y)) => *x == *y,
            (JSValue::Ref(x), JSValue::Ref(y)) => *x == *y,
            _ => false,
        }
    }

    /// The object that the value refers to.
    pub fn to_ref(&self) -> (r: Result<ObjectId, Exception>)
        ensures
            *self is Ref <==> r is Ok,
            r matches Ok(id) ==> *self == JSValue::Ref(id),
            r matches Err(e) ==> e is TypeError,
    {
        match self {
            JSValue::Ref(r) => Ok(*r),
            _ => {
                proof { reveal_strlit("not an object"); }
                Err(Exception::TypeError(String::from_str("not an object")))
            },
        }
    }
}

/// Strict equality is reflexive on every value but `NaN`, and `NaN` equals
/// nothing, not even itself.
pub proof fn lemma_strict_eq_reflexive(v: JSValue)
    ensures
        !is_nan_value(v) ==> spec_strict_eq(v, v),
        is_nan_value(v) ==> !spec_strict_eq(v, v),
{
}

/// Strict equality is symmetric.
pub proof fn lemma_strict_eq_symmetric(a: JSValue, b: JSValue)
    ensures
        spec_strict_eq(a, b) == spec_strict_eq(b, a),
{
}

/// A structured transfer of control.
#[derive(Debug)]
pub enum Jump {
    Return(JSValue),
    Break(Option<Identifier>),
    Continue(Option<Identifier>),
}

/// The one failure channel of evaluation: what a program throws, the
/// structured jumps, and the diagnostic errors of the interpreter.
#[derive(Debug)]
pub enum Exception {
    UserThrown(JSValue),
    Jump(Jump),
    TypeError(String),
    ReferenceError(String),
    SyntaxTreeError(String),
    RangeError(String),
}

pub type JSResult<T> = Result<T, Exception>;

/// The values an exception carries refer to allocated objects only.
pub open spec fn valid_exception(e: Exception, n: nat) -> bool {
    match e {
        Exception::UserThrown(v) => valid_value(v, n),
        Exception::Jump(Jump::Return(v)) => valid_value(v, n),
        _ => true,
    }
}

/// The result of evaluating an expression: a value, or a place that can be
/// read, assigned or deleted.
#[derive(Debug)]
pub enum Interpreted {
    Value(JSValue),
    Member { of: ObjectId, name: String },
}

pub open spec fn valid_interpreted(i: Interpreted, n: nat) -> bool {
    match i {
        Interpreted::Value(v) => valid_value(v, n),
        Interpreted::Member { of, name } => 1 <= of < n,
    }
}

impl Interpreted {
    /// The completion value of a statement: `undefined`.
    pub fn void() -> (r: Interpreted)
        ensures
            r == Interpreted::Value(JSValue::Undefined),
    {
        Interpreted::Value(JSValue::Undefined)
    }
}

} // verus!
